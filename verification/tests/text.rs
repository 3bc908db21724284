use rrpc::number::{i32_text, parse_i32, u32_text};
use rrpc::text::{char_index_at, contains_str, split, starts_with, trim, trim_nul};

fn chars(s: &str) -> Vec<char> {
    s.chars().collect()
}

fn string(v: &[char]) -> String {
    v.iter().collect()
}

#[test]
fn trims_like_str_trim() {
    for s in ["  a b \t\n", "", "   ", "\u{3000}x\u{a0}", "\0 x \0"] {
        assert_eq!(string(&trim(&chars(s))), s.trim());
        assert_eq!(string(&trim_nul(&chars(s))), s.trim_matches('\0'));
    }
}

#[test]
fn splits_like_str_split() {
    for s in ["a b  c", "", " ", "abc", "a\nb\n"] {
        for sep in [' ', '\n'] {
            let ours: Vec<String> = split(&chars(s), sep).iter().map(|p| string(p)).collect();
            let std: Vec<String> = s.split(sep).map(|p| p.to_string()).collect();
            assert_eq!(ours, std);
        }
    }
}

#[test]
fn prefixes_and_infixes() {
    assert!(starts_with(&chars("ENDENUMX"), &chars("ENDENUM")));
    assert!(!starts_with(&chars("END"), &chars("ENDENUM")));
    assert!(contains_str(&chars("  xENDFUNCTIONy"), "ENDFUNCTION"));
    assert!(!contains_str(&chars("ENDFUNC"), "ENDFUNCTION"));
    assert!(contains_str(&chars("abc"), ""));
}

#[test]
fn byte_offsets() {
    assert_eq!(char_index_at(&chars("ENUM x"), 4), Some(4));
    assert_eq!(char_index_at(&chars("\u{e9}NUM x"), 4), Some(3));
    assert_eq!(char_index_at(&chars("\u{20ac}NUM"), 4), Some(2));
    assert_eq!(char_index_at(&chars("a\u{20ac}NUM"), 2), None);
    assert_eq!(char_index_at(&chars("EN"), 4), None);
}

#[test]
fn integers_read_and_written() {
    for s in ["0", "42", "-17", "+8", "2147483647", "-2147483648", "0007"] {
        assert_eq!(parse_i32(&chars(s)), s.parse::<i32>().ok());
    }
    for s in ["", "+", "-", "2147483648", "-2147483649", "1a", " 1", "99999999999999999999", "\u{663}"] {
        assert_eq!(parse_i32(&chars(s)), None);
        assert!(s.parse::<i32>().is_err());
    }
    for v in [0, 7, -7, 10, i32::MAX, i32::MIN] {
        assert_eq!(string(&i32_text(v)), v.to_string());
        assert_eq!(parse_i32(&i32_text(v)), Some(v));
    }
    assert_eq!(string(&u32_text(u32::MAX)), u32::MAX.to_string());
}
