//! The logger configuration: a closed, totally ordered severity enumeration,
//! the `Qog` logger value built around it, and the renderer for the
//! pipe-delimited log line.
//!
//! Installing the configured value as the process-wide sink is the binary's
//! part; this module decides the threshold, announces it to the `log`
//! facade, and renders every line.

use vstd::prelude::*;
use crate::render::{dec_digits, decimal_str};

verus! {

/// Log severity, most severe first: Error > Warn > Info > Debug > Trace.
#[derive(Clone, Copy, PartialEq, Eq, Structural, Debug)]
pub enum Level {
    Error,
    Warn,
    Info,
    Debug,
    Trace,
}

/// The rank of a severity: Error, the most severe, is the smallest.
pub open spec fn level_rank(l: Level) -> int {
    match l {
        Level::Error => 1,
        Level::Warn => 2,
        Level::Info => 3,
        Level::Debug => 4,
        Level::Trace => 5,
    }
}

/// The severity column of a log line: the level's name, space-padded on the
/// right to five characters.
pub open spec fn level_label(l: Level) -> Seq<char> {
    match l {
        Level::Error => seq!['E', 'R', 'R', 'O', 'R'],
        Level::Warn => seq!['W', 'A', 'R', 'N', ' '],
        Level::Info => seq!['I', 'N', 'F', 'O', ' '],
        Level::Debug => seq!['D', 'E', 'B', 'U', 'G'],
        Level::Trace => seq!['T', 'R', 'A', 'C', 'E'],
    }
}

impl Level {
    /// The numeric rank used for threshold comparison.
    pub fn rank(&self) -> (r: u8)
        ensures
            r == level_rank(*self),
    {
        match *self {
            Level::Error => 1,
            Level::Warn => 2,
            Level::Info => 3,
            Level::Debug => 4,
            Level::Trace => 5,
        }
    }

    /// The five-character severity column.
    pub fn label(&self) -> (r: &'static str)
        ensures
            r@ == level_label(*self),
    {
        proof {
            reveal_strlit("ERROR");
            reveal_strlit("WARN ");
            reveal_strlit("INFO ");
            reveal_strlit("DEBUG");
            reveal_strlit("TRACE");
        }
        let r = match *self {
            Level::Error => "ERROR",
            Level::Warn => "WARN ",
            Level::Info => "INFO ",
            Level::Debug => "DEBUG",
            Level::Trace => "TRACE",
        };
        proof {
            assert(r@ =~= level_label(*self));
        }
        r
    }
}

/// A full log line: timestamp, severity, source location and message,
/// pipe-delimited.
pub open spec fn line_digits(
    ts: Seq<char>,
    lvl: Level,
    target: Seq<char>,
    line: int,
    msg: Seq<char>,
) -> Seq<char> {
    ts + seq!['|'] + level_label(lvl) + seq!['|'] + target + seq![':'] + dec_digits(line) + seq![
        '|',
    ] + msg
}

/// Renders one log line from its parts, in the fixed pipe-delimited shape.
pub fn render_line(ts: &str, lvl: Level, target: &str, line: u32, msg: &str) -> (s: String)
    ensures
        s@ == line_digits(ts@, lvl, target@, line as int, msg@),
{
    proof {
        reveal_strlit("|");
        reveal_strlit(":");
    }
    let mut s = String::from_str(ts);
    s.append("|");
    s.append(lvl.label());
    s.append("|");
    s.append(target);
    s.append(":");
    let n = decimal_str(line as u128);
    s.append(n.as_str());
    s.append("|");
    s.append(msg);
    proof {
        assert(s@ =~= line_digits(ts@, lvl, target@, line as int, msg@));
    }
    s
}

/// The logger configuration: the minimum severity it lets through.
#[derive(Clone, Copy, PartialEq, Eq, Structural, Debug)]
pub struct Qog {
    pub lvl: Level,
}

/// Relies on `log::set_max_level`: installs the given level as the global
/// maximum that the `log` facade dispatches records for.
#[verifier::external_body]
fn set_global_max_level(lvl: Level) {
    log::set_max_level(match lvl {
        Level::Error => log::LevelFilter::Error,
        Level::Warn => log::LevelFilter::Warn,
        Level::Info => log::LevelFilter::Info,
        Level::Debug => log::LevelFilter::Debug,
        Level::Trace => log::LevelFilter::Trace,
    });
}

impl Qog {
    /// A logger that lets severities through at `lvl` and above.  The file
    /// name is accepted and ignored, as console output is the only sink.
    pub fn new(lvl: Level, _filename: String) -> (q: Self)
        ensures
            q.lvl == lvl,
    {
        Qog { lvl }
    }

    /// Announces the configured maximum level to the `log` facade and hands
    /// the logger back, ready to be registered as the global sink — a step
    /// only the binary can take, since it goes through a boxed trait object.
    pub fn init(self) -> (logger: Qog)
        ensures
            logger == self,
    {
        set_global_max_level(self.lvl);
        self
    }

    /// The default logger: everything from Debug up.
    pub fn default() -> (logger: Qog)
        ensures
            logger.lvl == Level::Debug,
    {
        Self::new(Level::Debug, String::new()).init()
    }

    /// Whether a record of severity `lvl` passes this logger's threshold.
    pub fn enabled(&self, lvl: Level) -> (r: bool)
        ensures
            r == (level_rank(lvl) <= level_rank(self.lvl)),
    {
        lvl.rank() <= self.lvl.rank()
    }
}

} // verus!
