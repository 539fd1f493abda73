use ssh_panel::sorted::{compare_chars, insert_sorted, Comparison};
use ssh_panel::text::{is_whitespace, join_strings, push_decimal, split_chars, trim_chars};

fn chars(s: &str) -> Vec<char> {
    s.chars().collect()
}

#[test]
fn whitespace_matches_std() {
    for u in 0u32..0x3100 {
        if let Some(c) = char::from_u32(u) {
            assert_eq!(is_whitespace(c), c.is_whitespace(), "code point {:x}", u);
        }
    }
}

#[test]
fn trim_matches_std() {
    for s in ["", "  ", " a ", "\t\na b\r\n", "\u{3000}x\u{00A0}", "abc"] {
        let trimmed: String = trim_chars(&chars(s)).into_iter().collect();
        assert_eq!(trimmed, s.trim());
    }
}

#[test]
fn split_on_newlines_keeps_empty_pieces() {
    let pieces = split_chars(&chars("a\n\nb\n"), true);
    let pieces: Vec<String> = pieces.into_iter().map(|p| p.into_iter().collect()).collect();
    assert_eq!(pieces, vec!["a", "", "b", ""]);
}

#[test]
fn split_on_whitespace_nonempty_pieces_are_words() {
    let text = "  one two\tthree  ";
    let pieces = split_chars(&chars(text), false);
    let words: Vec<String> = pieces
        .into_iter()
        .filter(|p| !p.is_empty())
        .map(|p| p.into_iter().collect())
        .collect();
    let expected: Vec<String> = text.split_whitespace().map(|s| s.to_string()).collect();
    assert_eq!(words, expected);
}

#[test]
fn decimal_formatting() {
    for n in [0usize, 7, 10, 22, 2222, 65535, 1234567890] {
        let mut s = String::from("x");
        push_decimal(&mut s, n);
        assert_eq!(s, format!("x{}", n));
    }
}

#[test]
fn join_matches_std() {
    let parts: Vec<String> = vec!["/a".to_string(), "/b".to_string(), "/c".to_string()];
    assert_eq!(join_strings(&parts, ", "), parts.join(", "));
    assert_eq!(join_strings(&parts[..1].to_vec(), "\n"), "/a");
    assert_eq!(join_strings(&Vec::new(), ", "), "");
}

#[test]
fn comparison_matches_string_order() {
    let words = ["", "a", "b", "ab", "B", "é", "z", "aa"];
    for x in words {
        for y in words {
            let expected = x.cmp(y);
            let got = compare_chars(&chars(x), &chars(y));
            let same = match (got, expected) {
                (Comparison::Less, std::cmp::Ordering::Less) => true,
                (Comparison::Equal, std::cmp::Ordering::Equal) => true,
                (Comparison::Greater, std::cmp::Ordering::Greater) => true,
                _ => false,
            };
            assert!(same, "{:?} vs {:?}", x, y);
        }
    }
}

#[test]
fn sorted_insertion_keeps_a_set() {
    let mut v: Vec<Vec<char>> = Vec::new();
    for w in ["m", "c", "x", "c", "a", "m"] {
        insert_sorted(&mut v, chars(w));
    }
    let got: Vec<String> = v.into_iter().map(|p| p.into_iter().collect()).collect();
    assert_eq!(got, vec!["a", "c", "m", "x"]);
}
