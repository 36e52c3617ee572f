use sd::replacer::Replacer;

fn replacer(
    find: &str,
    replace_with: &str,
    literal: bool,
    flags: Option<&str>,
    cap: Option<usize>,
) -> Replacer {
    Replacer::new(
        find.to_string(),
        replace_with.to_string(),
        literal,
        flags.map(|f| f.to_string()),
        cap,
    )
    .unwrap()
}

fn replace(r: &Replacer, input: &str) -> String {
    String::from_utf8(r.replace(input.as_bytes())).unwrap()
}

const MARK_ON: &str = "\u{1b}[32m";
const MARK_OFF: &str = "\u{1b}[0m";

#[test]
fn stdin() {
    let r = replacer("abc\\d+", "", false, None, None);
    assert_eq!(replace(&r, "abc123def"), "def");
}

#[test]
fn in_place() {
    let r = replacer("abc\\d+", "", false, None, None);
    assert_eq!(replace(&r, "abc123def"), "def");
}

#[test]
fn in_place_with_empty_result_file() {
    let r = replacer("a\\dc", "", false, None, None);
    assert_eq!(replace(&r, "a7c"), "");
}

#[test]
fn replace_into_stdout() {
    let r = replacer("abc\\d+", "", false, None, None);
    let preview = String::from_utf8(r.replace_preview("abc123def".as_bytes())).unwrap();
    assert_eq!(preview, format!("{}{}def", MARK_ON, MARK_OFF));
    assert_eq!(replace(&r, "abc123def"), "def");
}

#[test]
fn no_match_leaves_buffer_unchanged() {
    let r = replacer("xyz", "Q", false, None, None);
    assert_eq!(replace(&r, "hello world"), "hello world");
    assert!(!r.has_matches("hello world".as_bytes()));
}

#[test]
fn no_match_on_arbitrary_bytes() {
    let r = replacer("xyz", "Q", false, None, None);
    let bytes: Vec<u8> = vec![0, 159, 146, 150, 255, 10];
    assert_eq!(r.replace(&bytes), bytes);
    assert_eq!(r.replace_preview(&bytes), bytes);
}

#[test]
fn preview_stripped_of_markers_is_replace() {
    let r = replacer("(\\w+)@(\\w+)", "$2.$1", false, None, None);
    let input = "mail: a@b, c@d; done";
    let preview = String::from_utf8(r.replace_preview(input.as_bytes())).unwrap();
    let stripped = preview.replace(MARK_ON, "").replace(MARK_OFF, "");
    assert_eq!(stripped, replace(&r, input));
    assert_eq!(replace(&r, input), "mail: b.a, d.c; done");
}

#[test]
fn cap_limits_substitutions() {
    let r = replacer("a", "b", false, None, Some(2));
    assert_eq!(replace(&r, "aaaa"), "bbaa");
}

#[test]
fn cap_of_zero_substitutes_nothing() {
    let r = replacer("a", "b", false, None, Some(0));
    assert_eq!(replace(&r, "aaaa"), "aaaa");
}

#[test]
fn unset_cap_substitutes_every_match() {
    let r = replacer("a", "b", false, None, None);
    assert_eq!(replace(&r, "aaaa"), "bbbb");
}

#[test]
fn cap_larger_than_match_count() {
    let r = replacer("a", "b", false, None, Some(10));
    assert_eq!(replace(&r, "aaa"), "bbb");
}

#[test]
fn literal_mode_dot_is_not_a_wildcard() {
    let r = replacer("a.c", "X", true, None, None);
    assert_eq!(replace(&r, "a.c a.c"), "X X");
    let r = replacer("a.c", "X", true, None, None);
    assert_eq!(replace(&r, "abc"), "abc");
}

#[test]
fn literal_mode_inserts_template_verbatim() {
    let r = replacer("x", "$1", true, None, None);
    assert_eq!(replace(&r, "axb"), "a$1b");
}

#[test]
fn whole_word_flag_skips_embedded_matches() {
    let r = replacer("cat", "dog", false, Some("w"), None);
    assert_eq!(replace(&r, "concatenate cat"), "concatenate dog");
}

#[test]
fn whole_word_flag_with_literal_mode() {
    let r = replacer("a.c", "X", true, Some("w"), None);
    assert_eq!(replace(&r, "a.c abcc"), "X abcc");
}

#[test]
fn capture_references_expand() {
    let r = replacer("(\\w+) (\\w+)", "$2 $1", false, None, None);
    assert_eq!(replace(&r, "hello world"), "world hello");
}

#[test]
fn unmatched_group_expands_to_empty() {
    let r = replacer("(a)|(b)", "[$2]", false, None, None);
    assert_eq!(replace(&r, "a"), "[]");
}

#[test]
fn case_insensitive_flag() {
    let r = replacer("HELLO", "bye", false, Some("i"), None);
    assert_eq!(replace(&r, "hello"), "bye");
}

#[test]
fn last_case_flag_wins() {
    let r = replacer("HELLO", "bye", false, Some("ic"), None);
    assert_eq!(replace(&r, "hello"), "hello");
    let r = replacer("HELLO", "bye", false, Some("ci"), None);
    assert_eq!(replace(&r, "hello"), "bye");
}

#[test]
fn multi_line_flag_enables_line_anchors() {
    let r = replacer("^b", "X", false, Some("m"), None);
    assert_eq!(replace(&r, "a\nb"), "a\nX");
    let r = replacer("^b", "X", false, None, None);
    assert_eq!(replace(&r, "a\nb"), "a\nb");
    let r = replacer("^b", "X", false, Some("me"), None);
    assert_eq!(replace(&r, "a\nb"), "a\nb");
}

#[test]
fn dot_matches_newline_flag() {
    let r = replacer("a.b", "X", false, Some("s"), None);
    assert_eq!(replace(&r, "a\nb"), "X");
    let r = replacer("a.b", "X", false, None, None);
    assert_eq!(replace(&r, "a\nb"), "a\nb");
}

#[test]
fn empty_match_advances_and_terminates() {
    let r = replacer("x*", "-", false, None, None);
    assert_eq!(replace(&r, "abc"), "-a-b-c-");
}

#[test]
fn empty_pattern_on_empty_buffer() {
    let r = replacer("", "-", false, None, None);
    assert_eq!(replace(&r, ""), "-");
}

#[test]
fn malformed_pattern_is_a_pattern_error() {
    let r = Replacer::new("(".to_string(), "".to_string(), false, None, None);
    assert!(matches!(r, Err(sd::outcome::Error::Pattern(_))));
}

#[test]
fn literal_mode_accepts_metacharacters() {
    let r = replacer("(", "[", true, None, None);
    assert_eq!(replace(&r, "a(b"), "a[b");
}

#[test]
fn has_matches_stops_at_first_match() {
    let r = replacer("\\d", "", false, None, None);
    assert!(r.has_matches("a1".as_bytes()));
    assert!(!r.has_matches("ab".as_bytes()));
}

#[test]
fn replaces_in_bytes_that_are_not_text() {
    let r = replacer("b", "XY", false, None, None);
    let mut input: Vec<u8> = vec![0, 255, 254];
    input.extend_from_slice(b"b");
    input.push(0);
    let expected: Vec<u8> = vec![0, 255, 254, b'X', b'Y', 0];
    assert_eq!(r.replace(&input), expected);
}
