use qog::logger::{render_line, Level, Qog};
use qog::render::milli_fmt;

#[test]
fn demo() {
    let logger = Qog::default();
    assert_eq!(log::max_level(), log::LevelFilter::Debug);
    assert_eq!(logger.lvl, Level::Debug);
    let ts = milli_fmt(0);
    let msg = format!("23333, {}", 234);
    let trace = render_line(&ts, Level::Trace, "qog", 1, "trace level");
    let debug = render_line(&ts, Level::Debug, "qog", 2, &msg);
    let info = render_line(&ts, Level::Info, "qog", 3, &msg);
    let warn = render_line(&ts, Level::Warn, "qog", 4, &msg);
    let error = render_line(&ts, Level::Error, "qog", 5, &msg);
    assert!(!logger.enabled(Level::Trace));
    assert!(logger.enabled(Level::Debug));
    assert!(logger.enabled(Level::Info));
    assert!(logger.enabled(Level::Warn));
    assert!(logger.enabled(Level::Error));
    assert_eq!(trace, "1970-01-01 08:00:00.000|TRACE|qog:1|trace level");
    assert_eq!(debug, "1970-01-01 08:00:00.000|DEBUG|qog:2|23333, 234");
    assert_eq!(info, "1970-01-01 08:00:00.000|INFO |qog:3|23333, 234");
    assert_eq!(warn, "1970-01-01 08:00:00.000|WARN |qog:4|23333, 234");
    assert_eq!(error, "1970-01-01 08:00:00.000|ERROR|qog:5|23333, 234");
    // A stricter logger raises the installed maximum too.
    let strict = Qog::new(Level::Warn, String::from("ignored.log")).init();
    assert_eq!(log::max_level(), log::LevelFilter::Warn);
    assert!(strict.enabled(Level::Error));
    assert!(strict.enabled(Level::Warn));
    assert!(!strict.enabled(Level::Info));
}

#[test]
fn severity_ranks_are_total() {
    let order = [Level::Error, Level::Warn, Level::Info, Level::Debug, Level::Trace];
    for (i, a) in order.iter().enumerate() {
        for (j, b) in order.iter().enumerate() {
            let q = Qog::new(*b, String::new());
            // `a` passes a threshold of `b` exactly when `a` is at least as
            // severe, i.e. comes no later in the order.
            assert_eq!(q.enabled(*a), i <= j);
        }
    }
}

#[test]
fn line_with_long_source_line_number() {
    let line = render_line("1970-01-01 08:00:00.000", Level::Error, "app", 4_294_967_295, "boom");
    assert_eq!(line, "1970-01-01 08:00:00.000|ERROR|app:4294967295|boom");
}
