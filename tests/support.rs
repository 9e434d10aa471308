use zeke::logger::uptime_label;
use zeke::text::{decimal_string, lines_of, parse_u16_text, split_text, trim_text, without_white_text};
use zeke::{get_time_range, log_times, DebuggableHandler, Fuzzer, HttpMethod, Logger, Logs, Time, Timer, TimerUnit};

#[test]
fn method_names() {
    assert_eq!(HttpMethod::GET.as_str(), "GET");
    assert_eq!(HttpMethod::DELETE.as_str(), "DELETE");
    assert_eq!(HttpMethod::PATCH.as_str(), "PATCH");
}

#[test]
fn times_and_units() {
    assert_eq!(TimerUnit::Micros.as_str(), "\u{3bc}s");
    assert_eq!(TimerUnit::Millis.as_str(), "ms");
    let t = Time::new(12, TimerUnit::Millis);
    assert_eq!(t.get_as_micros(), 12000);
    assert_eq!(t.log("took"), "took: 12ms");
    assert_eq!(Time::from_micros(999), Time::new(999, TimerUnit::Micros));
    assert_eq!(Time::from_micros(1000), Time::new(1, TimerUnit::Millis));
    assert_eq!(Time::from_micros(123456), Time::new(123, TimerUnit::Millis));
    let lines = log_times(&vec![Time::new(5, TimerUnit::Micros), Time::new(7, TimerUnit::Millis)]);
    assert_eq!(lines, vec!["0. 5\u{3bc}s".to_string(), "1. 7ms".to_string()]);
}

#[test]
fn timer_measures() {
    let mut timer = Timer::new();
    let t = timer.elapsed();
    assert!(t.unit == TimerUnit::Micros || t.unit == TimerUnit::Millis);
    assert!(timer.elapsed_message().ends_with('s'));
    timer.reset();
    assert_eq!(timer.log_path("test.log"), "logs/test.log");
}

#[test]
fn logger_labels() {
    assert_eq!(Logs::ServerError.as_str(), "error.log");
    assert_eq!(Logs::Trace.as_str(), "trace.log");
    assert_eq!(uptime_label(999), "999\u{b5}s");
    assert_eq!(uptime_label(1500), "1ms");
    assert_eq!(uptime_label(2_500_000), "2s");
    assert_eq!(uptime_label(61_000_000), "61000ms");
    let logger = Logger::new();
    assert_eq!(logger.log_path(Logs::Debug), "logs/debug.log");
    assert!(!logger.elapsed().is_empty());
    let _ = logger.logged();
    assert_eq!(DebuggableHandler.label(), "<handler>");
}

#[test]
fn text_helpers() {
    assert_eq!(split_text("a,,b", ','), vec!["a", "", "b"]);
    assert_eq!(split_text("", ','), vec![""]);
    assert_eq!(lines_of("a\r\nb\n\nc\r"), vec!["a", "b", "", "c\r"]);
    assert_eq!(lines_of("a\n"), vec!["a"]);
    assert!(lines_of("").is_empty());
    assert_eq!(trim_text(" \t x y \u{3000}"), "x y");
    assert_eq!(without_white_text(" a :\tb "), "a:b");
    assert_eq!(decimal_string(0), "0");
    assert_eq!(decimal_string(65535), "65535");
    assert_eq!(parse_u16_text("+7"), Some(7));
    assert_eq!(parse_u16_text("65535"), Some(65535));
    assert_eq!(parse_u16_text("65536"), None);
    assert_eq!(parse_u16_text(""), None);
    assert_eq!(parse_u16_text("+"), None);
    assert_eq!(parse_u16_text("-1"), None);
}

#[test]
fn fuzzer_builds_requests() {
    let mut f = Fuzzer::new("127.0.0.1:8080".to_string());
    f.set_paths(vec!["GET /".to_string()]);
    for _ in 0..50 {
        let s = f.rand_req_str();
        assert!(s.ends_with("\r\n\r\n") || s.ends_with("line\r\n"));
        assert!(s.starts_with("GET / HTTP/1.1\r\n") || s.starts_with("malformed request line HTTP/1.1\r\n"));
    }
    assert_eq!(Fuzzer::pick_header(3, 1), "Accept: text/html\r\n");
    assert_eq!(Fuzzer::pick_header(3, 0), "malformed header line");
    assert_eq!(f.pick_path(0, 5), "GET /");
}

#[test]
fn time_range_picks_fastest_and_slowest() {
    let times = vec![
        Time::new(5, TimerUnit::Millis),
        Time::new(300, TimerUnit::Micros),
        Time::new(300, TimerUnit::Micros),
        Time::new(2, TimerUnit::Millis),
        Time::new(5000, TimerUnit::Micros),
    ];
    let (fast, slow) = get_time_range(&times);
    assert_eq!(fast, Time::new(300, TimerUnit::Micros));
    assert_eq!(slow, Time::new(5, TimerUnit::Millis));
    let slow_only = vec![Time::new(200, TimerUnit::Millis), Time::new(0, TimerUnit::Micros)];
    let (fast, slow) = get_time_range(&slow_only);
    assert_eq!(fast, Time::new(0, TimerUnit::Micros));
    assert_eq!(slow, Time::new(200, TimerUnit::Millis));
    let zeros = vec![Time::new(0, TimerUnit::Micros), Time::new(0, TimerUnit::Millis)];
    let (fast, slow) = get_time_range(&zeros);
    assert_eq!(fast, Time::new(0, TimerUnit::Micros));
    assert_eq!(slow, Time::new(0, TimerUnit::Micros));
}
