use misfit_engine::text::{
    find_chars, from_chars, lex_less, matches_at, replace_text, same_text, to_chars, trim_chars,
};

fn chars(s: &str) -> Vec<char> {
    s.chars().collect()
}

#[test]
fn to_chars_and_back() {
    let v = to_chars("héllo ✓");
    assert_eq!(v, chars("héllo ✓"));
    assert_eq!(from_chars(&v), "héllo ✓");
}

#[test]
fn same_text_compares_contents() {
    assert!(same_text("abc", "abc"));
    assert!(!same_text("abc", "abd"));
    assert!(!same_text("abc", "ab"));
    assert!(same_text("", ""));
}

#[test]
fn trim_drops_whitespace_at_both_ends_only() {
    assert_eq!(trim_chars(&chars("  a b \t\n")), chars("a b"));
    assert_eq!(trim_chars(&chars("\u{a0}x\u{3000}")), chars("x"));
    assert_eq!(trim_chars(&chars("   ")), chars(""));
    assert_eq!(trim_chars(&chars("")), chars(""));
    assert_eq!(trim_chars(&chars("x")), chars("x"));
}

#[test]
fn find_gives_first_occurrence_from_start_index() {
    let text = chars("abcabcabc");
    let pat = chars("bc");
    assert_eq!(find_chars(&text, &pat, 0), Some(1));
    assert_eq!(find_chars(&text, &pat, 1), Some(1));
    assert_eq!(find_chars(&text, &pat, 2), Some(4));
    assert_eq!(find_chars(&text, &pat, 8), None);
    assert_eq!(find_chars(&text, &chars("x"), 0), None);
    assert_eq!(find_chars(&text, &chars(""), 0), Some(0));
    assert_eq!(find_chars(&text, &chars(""), 9), Some(9));
    assert_eq!(find_chars(&text, &chars(""), 10), None);
    assert_eq!(find_chars(&chars(""), &chars(""), 0), Some(0));
    assert_eq!(find_chars(&chars("ab"), &chars("abc"), 0), None);
}

#[test]
fn matches_at_checks_one_place() {
    let text = chars("hello");
    assert!(matches_at(&text, &chars("ell"), 1));
    assert!(!matches_at(&text, &chars("ell"), 0));
    assert!(!matches_at(&text, &chars("lo!"), 3));
    assert!(matches_at(&text, &chars(""), 5));
    assert!(!matches_at(&text, &chars(""), 6));
}

#[test]
fn replace_every_occurrence_without_overlap() {
    assert_eq!(replace_text("a-b-c", "-", "+"), "a+b+c");
    assert_eq!(replace_text("aaaa", "aa", "b"), "bb");
    assert_eq!(replace_text("aaa", "aa", "b"), "ba");
    assert_eq!(replace_text("abc", "x", "y"), "abc");
    assert_eq!(replace_text("", "x", "y"), "");
    assert_eq!(replace_text("xx", "x", ""), "");
    assert_eq!(replace_text("{{K}} and {{K}}", "{{K}}", "v"), "v and v");
}

#[test]
fn replace_is_not_applied_to_what_it_inserted() {
    assert_eq!(replace_text("ab", "a", "aa"), "aab");
    assert_eq!(replace_text("abab", "ab", "abab"), "abababab");
}

#[test]
fn replace_with_empty_pattern_inserts_around_every_character() {
    assert_eq!(replace_text("abc", "", "-"), "-a-b-c-");
    assert_eq!(replace_text("", "", "-"), "-");
    assert_eq!("abc".replace("", "-"), replace_text("abc", "", "-"));
}

#[test]
fn replace_agrees_with_std_on_samples() {
    let samples = [
        ("hello world", "o", "0"),
        ("aXbXc", "X", "--"),
        ("ababab", "aba", "x"),
        ("日本語日本", "日本", "J"),
        ("tail", "l", ""),
    ];
    for (text, pat, rep) in samples {
        assert_eq!(replace_text(text, pat, rep), text.replace(pat, rep));
    }
}

#[test]
fn lexicographic_order_is_that_of_strings() {
    let samples = ["", "a", "ab", "b", "backup_20240101_000000", "backup_20231231_235959", "é", "z"];
    for a in samples {
        for b in samples {
            assert_eq!(lex_less(&chars(a), &chars(b)), a < b, "{:?} < {:?}", a, b);
        }
    }
}
