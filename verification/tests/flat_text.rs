use ncd::{extract_pattern, extract_whitespace, NCDFlatConfig, NCDFlatSource, NCDValueSource};

fn do_test_extract_whitespace(line: &str, index: usize, key: &str, value: &str) {
    let (cmp_key, cmp_value) = extract_whitespace(index, line);
    assert_eq!(cmp_key, key);
    assert_eq!(cmp_value, value);
}

fn do_test_extract_pattern(line: &str, pattern: &str, index: usize, key: &str, value: &str) {
    let (cmp_key, cmp_value) = extract_pattern(pattern, index, line);
    assert_eq!(cmp_key, key);
    assert_eq!(cmp_value, value);
}

#[test]
fn test_extract_whitespace() {
    do_test_extract_whitespace("hello world", 1, "hello", "world");
    do_test_extract_whitespace("hello world today", 2, "hello world", "today");
    do_test_extract_whitespace("hello    world", 1, "hello", "world");
    do_test_extract_whitespace("hello  world    today", 2, "hello  world", "today");
    do_test_extract_whitespace("  hello world", 1, "", "hello world");
    do_test_extract_whitespace("  hello world", 2, "  hello", "world");
    do_test_extract_whitespace("  hello world  ", 2, "  hello", "world  ");
    do_test_extract_whitespace("  hello", 2, "  hello", "");
    do_test_extract_whitespace("  hello  ", 2, "  hello", "");
    do_test_extract_whitespace("", 2, "", "");
    do_test_extract_whitespace("", 1, "", "");
}

#[test]
fn test_extract_pattern() {
    do_test_extract_pattern("hello world", " ", 1, "hello", "world");
    do_test_extract_pattern("hello world today", " ", 1, "hello", "world today");
    do_test_extract_pattern("hello  world", " ", 1, "hello", " world");
    do_test_extract_pattern("hello world today", " ", 2, "hello world", "today");
    do_test_extract_pattern("hello  world", " ", 2, "hello ", "world");
    do_test_extract_pattern("hello world", "o", 2, "hello w", "rld");
    do_test_extract_pattern("hello world", "or", 1, "hello w", "ld");
    do_test_extract_pattern(" hello world", " ", 1, "", "hello world");
    do_test_extract_pattern("  hello world", " ", 1, "", " hello world");
    do_test_extract_pattern("  hello world", " ", 2, " ", "hello world");
    do_test_extract_whitespace("", 2, "", "");
    do_test_extract_whitespace("", 1, "", "");
}

fn string_lines(lines: &[&str]) -> Vec<String> {
    lines.iter().map(|l| l.to_string()).collect()
}

fn do_test_flat_config(
    lines: &[&str],
    config: &NCDFlatConfig,
    values: &[(&[u8], &[u8])],
    pass_in: bool,
) {
    let mut pass = true;
    let source = NCDFlatSource::new(string_lines(lines), config);
    let got_values = source.pairs().unwrap();
    for (given, got) in values.iter().zip(got_values.iter()) {
        if given.0 != got.0 {
            pass = false;
        }
        if given.1 != got.1 {
            pass = false;
        }
    }
    if values.len() != got_values.len() {
        pass = false;
    }
    assert_eq!(pass, pass_in);
}

const FLAT_LINES: &[&str] = &["hello world", "x y", "a b", "123 456"];
const FLAT_COMMENT_LINES: &[&str] = &["// leading comment", "hello world   ", "123 456"];
const FLAT_COMMENT_INLINE_LINES: &[&str] = &["hello world // note", "123 456"];

#[test]
fn test_flat_config() {
    let simple_config = NCDFlatConfig::new();
    let notrim_config = simple_config.trim_tail(false);
    let comment_config = simple_config.comment_char(Some("//".to_string()));
    let inline_comment_config = comment_config.inline_comments(true);
    do_test_flat_config(
        FLAT_LINES,
        &simple_config,
        &[(b"hello", b"world"), (b"x", b"y"), (b"a", b"b"), (b"123", b"456")],
        true,
    );
    do_test_flat_config(
        FLAT_COMMENT_LINES,
        &comment_config,
        &[(b"hello", b"world"), (b"123", b"456")],
        true,
    );
    do_test_flat_config(
        FLAT_COMMENT_LINES,
        &simple_config,
        &[(b"hello", b"world"), (b"123", b"456")],
        false,
    );
    do_test_flat_config(
        FLAT_COMMENT_LINES,
        &notrim_config,
        &[(b"hello", b"world   "), (b"123", b"456")],
        false,
    );
    do_test_flat_config(
        FLAT_COMMENT_INLINE_LINES,
        &inline_comment_config,
        &[(b"hello", b"world"), (b"123", b"456")],
        true,
    );
    do_test_flat_config(
        FLAT_COMMENT_INLINE_LINES,
        &comment_config,
        &[(b"hello", b"world"), (b"123", b"456")],
        false,
    );
}

#[test]
fn test_flat_separator() {
    let config = NCDFlatConfig::new().separator(Some("=".to_string())).skip_blank(true);
    let source = NCDFlatSource::new(string_lines(&["a=b", "", "key=val=ue"]), &config);
    let pairs = source.pairs().unwrap();
    assert_eq!(2, pairs.len());
    assert_eq!(&(b"a".to_vec(), b"b".to_vec()), &pairs[0]);
    assert_eq!(&(b"key".to_vec(), b"val=ue".to_vec()), &pairs[1]);
}
