use distributed_kv::text::{decimal, is_whitespace, join, join_from, split_on, split_whitespace, trim};

fn strings(v: &[&str]) -> Vec<String> {
    v.iter().map(|s| s.to_string()).collect()
}

#[test]
fn whitespace_agrees_with_std_for_every_char() {
    for u in 0u32..0x11_0000 {
        if let Some(c) = char::from_u32(u) {
            assert_eq!(is_whitespace(c), c.is_whitespace(), "char {:#x}", u);
        }
    }
}

#[test]
fn split_whitespace_agrees_with_std() {
    let samples = [
        "",
        "   ",
        "get key",
        "  put  k   v1 v2  ",
        "ping\thello\nworld",
        "a\u{3000}b\u{a0}c",
        "é ü  ß",
    ];
    for s in samples {
        let expected: Vec<String> = s.split_whitespace().map(|w| w.to_string()).collect();
        assert_eq!(split_whitespace(s), expected, "sample {:?}", s);
    }
}

#[test]
fn split_on_agrees_with_std() {
    let samples = ["", ":", "n1:127.0.0.1:3001", "a::b", "nocolon", ":lead", "trail:"];
    for s in samples {
        let expected: Vec<String> = s.split(':').map(|w| w.to_string()).collect();
        assert_eq!(split_on(s, ':'), expected, "sample {:?}", s);
    }
}

#[test]
fn join_puts_separator_between_neighbours() {
    assert_eq!(join(&strings(&[]), " "), "");
    assert_eq!(join(&strings(&["a"]), " "), "a");
    assert_eq!(join(&strings(&["a", "b", "c"]), ", "), "a, b, c");
    assert_eq!(join_from(&strings(&["put", "k", "v1", "v2"]), 2, " "), "v1 v2");
    assert_eq!(join_from(&strings(&["x"]), 1, " "), "");
}

#[test]
fn join_of_split_gives_back_the_string() {
    for s in ["", "a:b", "::", "n1:127.0.0.1:3001"] {
        assert_eq!(join(&split_on(s, ':'), ":"), s);
    }
}

#[test]
fn trim_agrees_with_std() {
    for s in ["", "  ", " q ", "\tnodes\n", "get  k", "\u{2028}x\u{3000}"] {
        assert_eq!(trim(s), s.trim(), "sample {:?}", s);
    }
}

#[test]
fn decimal_agrees_with_to_string() {
    for n in [0u64, 7, 9, 10, 42, 3000, 65535, 1_000_000, u64::MAX] {
        assert_eq!(decimal(n), n.to_string());
    }
}
