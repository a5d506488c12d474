use hvm::text::{find_str, parse_i32, parse_u32, parse_u64, push_dec, push_hex, push_hex_upper, push_signed_dec, replace_str, trim_str};

fn dec(n: u64) -> String {
    let mut s = String::new();
    push_dec(&mut s, n);
    s
}

#[test]
fn decimal_numerals() {
    for n in [0u64, 7, 9, 10, 99, 100, 1024, 4294967295, u64::MAX] {
        assert_eq!(dec(n), n.to_string());
    }
    for n in [0i64, -1, 5, -1024, i64::MIN, i64::MAX] {
        let mut s = "x".to_string();
        push_signed_dec(&mut s, n);
        assert_eq!(s, format!("x{n}"));
    }
}

#[test]
fn hexadecimal_numerals() {
    for n in [0u32, 9, 10, 15, 16, 255, 0xdeadbeef, u32::MAX] {
        let mut small = String::new();
        push_hex(&mut small, n);
        assert_eq!(small, format!("{n:x}"));
        let mut wide = String::new();
        push_hex_upper(&mut wide, n, 8);
        assert_eq!(wide, format!("{n:08X}"));
    }
}

#[test]
fn finding_and_replacing() {
    assert_eq!(find_str("one two two", "two"), Some(4));
    assert_eq!(find_str("é two", "two"), Some(2));
    assert_eq!(find_str("one", "two"), None);
    assert_eq!(find_str("one", ""), Some(0));
    for (s, pat, with) in [
        ("aaaa", "aa", "b"),
        ("it's Bob's", "'", "''"),
        ("", "x", "y"),
        ("xyx", "x", "xx"),
        ("—a—", "a", "ü"),
    ] {
        assert_eq!(replace_str(s, pat, with), s.replace(pat, with));
    }
}

#[test]
fn parsing_numerals() {
    for s in ["", "+", "-", "0", "+7", "-0", "-7", "12a", " 1", "4294967295", "4294967296", "007", "2147483647", "2147483648", "-2147483648", "-2147483649", "99999999999999999999999"] {
        assert_eq!(parse_u32(s), s.parse::<u32>().ok(), "{s}");
        assert_eq!(parse_i32(s), s.parse::<i32>().ok(), "{s}");
        assert_eq!(parse_u64(s, u64::MAX), s.parse::<u64>().ok(), "{s}");
    }
    assert_eq!(parse_u64("18446744073709551615", u64::MAX), Some(u64::MAX));
    assert_eq!(parse_u64("18446744073709551616", u64::MAX), None);
}

#[test]
fn trimming() {
    for code in 0..0x3100u32 {
        if let Some(c) = char::from_u32(code) {
            let s = format!("{c}a{c}b{c}{c}");
            assert_eq!(trim_str(&s), s.trim());
        }
    }
    assert_eq!(trim_str(" \t\r\n"), "");
}
