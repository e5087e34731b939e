use procd::status::{is_process_status, parse_i32, split_tokens, status_tgid};

#[test]
fn words_split_on_white_space() {
    assert_eq!(split_tokens("Tgid:\t 42  x"), vec!["Tgid:".to_string(), "42".to_string(), "x".to_string()]);
    assert_eq!(split_tokens("   "), Vec::<String>::new());
    assert_eq!(split_tokens("a\u{3000}b"), vec!["a".to_string(), "b".to_string()]);
    for t in ["", " a", "a ", "a  b\tc\n", "\u{A0}x\u{2003}y"] {
        let want: Vec<String> = t.split_whitespace().map(|w| w.to_string()).collect();
        assert_eq!(split_tokens(t), want);
    }
}

#[test]
fn decimal_i32_like_from_str() {
    for t in ["0", "42", "-7", "+9", "2147483647", "-2147483648", "2147483648", "-2147483649", "", "-", "+", "1a", " 1", "00012", "99999999999"] {
        assert_eq!(parse_i32(t), t.parse::<i32>().ok(), "{}", t);
    }
}

#[test]
fn tgid_from_status_text() {
    let text = "Name:\tsleep\nUmask:\t0022\nState:\tS (sleeping)\nTgid:\t4242\nNgid:\t0\nPid:\t4243\n";
    assert_eq!(status_tgid(text), Some(4242));
    assert!(is_process_status(text, 4242));
    assert!(!is_process_status(text, 4243));
    assert_eq!(status_tgid("Name:\tx\n"), None);
    assert_eq!(status_tgid("Tgid:\tbad\nTgid:\t7\n"), Some(7));
    assert!(!is_process_status("", 1));
}
