use upsurge::text::{
    chars_of, i32_to_text, join_from, nat_to_text, parse_i32, parse_usize, split_pieces,
    split_words, string_of, white_space,
};

#[test]
fn parse_i32_reads_what_std_reads() {
    let cases = [
        "22", "+7", "-7", "0", "-0", "007", "2147483647", "-2147483648", "2147483648",
        "-2147483649", "", "-", "+", "1a", " 1", "1 ", "--1", "+-1", "99999999999999999999999",
        "١٢",
    ];
    for c in cases {
        assert_eq!(parse_i32(c), c.parse::<i32>().ok(), "case {:?}", c);
    }
}

#[test]
fn parse_usize_reads_what_std_reads() {
    let cases = ["0", "+3", "-0", "-3", "", "+", "12x", "18446744073709551615", "18446744073709551616", "42"];
    for c in cases {
        assert_eq!(parse_usize(c), c.parse::<usize>().ok(), "case {:?}", c);
    }
}

#[test]
fn decimal_texts_match_display() {
    for n in [0i32, 7, 10, 45, -45, 1000, i32::MAX, i32::MIN] {
        assert_eq!(i32_to_text(n), n.to_string());
    }
    for n in [0u64, 9, 10, 12345, u64::MAX] {
        assert_eq!(nat_to_text(n), n.to_string());
    }
}

#[test]
fn displayed_i32_reads_back() {
    for n in [0i32, 1, -1, 65002, i32::MAX, i32::MIN] {
        assert_eq!(parse_i32(&i32_to_text(n)), Some(n));
    }
}

#[test]
fn words_match_split_whitespace() {
    let cases = [
        "/add user 127.0.0.1 22",
        "  /exec   0  echo   hello \n",
        "",
        "   ",
        "a\tb\r\nc",
        "x\u{3000}y\u{2028}z\u{a0}w",
        "\u{85}lead",
        "héllo wörld",
    ];
    for c in cases {
        let expected: Vec<String> = c.split_whitespace().map(|s| s.to_string()).collect();
        assert_eq!(split_words(c), expected, "case {:?}", c);
    }
}

#[test]
fn white_space_matches_std() {
    for u in 0u32..0x3100 {
        if let Some(c) = char::from_u32(u) {
            assert_eq!(white_space(c), c.is_whitespace(), "char {:?}", c);
        }
    }
}

#[test]
fn pieces_match_split() {
    let cases = ["a,b", "a,,b", "", ",", "u@h:1,bad,v@w:2", "no comma", ",x,"];
    for c in cases {
        let expected: Vec<String> = c.split(',').map(|s| s.to_string()).collect();
        assert_eq!(split_pieces(c, ','), expected, "case {:?}", c);
    }
}

#[test]
fn pieces_join_back() {
    for c in ["a,b", "a,,b", "", ",", ",x,"] {
        assert_eq!(split_pieces(c, ',').join(","), c);
    }
}

#[test]
fn join_from_matches_join() {
    let parts: Vec<String> = vec!["/exec".into(), "0".into(), "echo".into(), "hello".into()];
    assert_eq!(join_from(&parts, 2, " "), "echo hello");
    assert_eq!(join_from(&parts, 4, " "), "");
    assert_eq!(join_from(&parts, 3, " "), "hello");
    assert_eq!(join_from(&parts, 0, "--"), "/exec--0--echo--hello");
}

#[test]
fn chars_and_substrings() {
    let cs = chars_of("héllo");
    assert_eq!(cs, vec!['h', 'é', 'l', 'l', 'o']);
    assert_eq!(string_of(&cs, 1, 4), "éll");
    assert_eq!(string_of(&cs, 2, 2), "");
}
