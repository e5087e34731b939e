use procd::inspect::{fill_web_address, host_name};
use procd::logbuf::LogBuffer;
use procd::output::{hour_stamp, log_file_name, text_lines, Rotation};

fn s(x: &str) -> String {
    x.to_string()
}

#[test]
fn hourly_file_names() {
    assert_eq!(hour_stamp(2024, 3, 7, 9), "2024030709");
    assert_eq!(hour_stamp(987, 12, 31, 23), "0987123123");
    assert_eq!(log_file_name("out", "2024030709"), "out.2024030709.log");
    assert_eq!(log_file_name("err", "2024030710"), "err.2024030710.log");
}

#[test]
fn rotation_reopens_on_new_hour_or_missing_file() {
    let mut r = Rotation::new("2024030709");
    assert!(r.on_chunk("2024030709", true));
    r.opened(true);
    assert!(!r.on_chunk("2024030709", false));
    assert!(r.on_chunk("2024030710", false));
    r.opened(true);
    assert!(!r.on_chunk("2024030710", false));
    assert!(r.on_chunk("2024030710", true));
    r.opened(false);
    assert!(!r.on_chunk("2024030710", false));
    r.write_failed();
    assert!(r.on_chunk("2024030710", false));
}

#[test]
fn first_chunk_opens_a_file() {
    let mut r = Rotation::new("2024030709");
    assert!(r.on_chunk("2024030709", false));
    r.opened(false);
    assert!(r.on_chunk("2024030709", false));
}

#[test]
fn lines_split_like_text_lines() {
    assert_eq!(text_lines("a\nb\r\nc"), vec![s("a"), s("b"), s("c")]);
    assert_eq!(text_lines("a\n\nb\n"), vec![s("a"), s(""), s("b")]);
    assert_eq!(text_lines(""), Vec::<String>::new());
    assert_eq!(text_lines("\n"), vec![s("")]);
    assert_eq!(text_lines("tail\r"), vec![s("tail\r")]);
    for t in ["x\r\ny", "\r\n\r\n", "one", "a\rb\n"] {
        let want: Vec<String> = t.lines().map(|l| l.to_string()).collect();
        assert_eq!(text_lines(t), want);
    }
}

#[test]
fn log_buffer_keeps_the_newest() {
    let mut b = LogBuffer::new(3);
    for i in 0..5 {
        b.push(format!("m{}", i));
    }
    assert_eq!(b.get_logs(), vec![s("m2"), s("m3"), s("m4")]);
    assert!(b.get_logs().len() <= 3);
    assert_eq!(b.newest_first(), vec![s("m4"), s("m3"), s("m2")]);
    let mut none = LogBuffer::new(0);
    none.push(s("x"));
    assert!(none.get_logs().is_empty());
}

#[test]
fn host_and_web_address() {
    assert_eq!(host_name("example.com:8080"), "example.com");
    assert_eq!(host_name("example.com"), "example.com");
    assert_eq!(host_name(""), "");
    assert_eq!(fill_web_address("http://{HOST}:9000/{HOST}", "h"), "http://h:9000/h");
    assert_eq!(fill_web_address("http://fixed", "h"), "http://fixed");
}
