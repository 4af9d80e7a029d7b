use audit_stats::tokenizer::{find_next_split, split_index, token_slices, tokenize};

fn chars(text: &str) -> Vec<char> {
    text.chars().collect()
}

fn strings(tokens: &[&str]) -> Vec<String> {
    tokens.iter().map(|t| t.to_string()).collect()
}

#[test]
fn split_skips_spaces_inside_round_brackets() {
    assert_eq!(find_next_split("a=(1 2) b=3"), 7);
    assert_eq!(tokenize("a=(1 2) b=3"), strings(&["a=(1 2)", "b=3"]));
}

#[test]
fn split_is_the_first_plain_space() {
    assert_eq!(find_next_split("pid=42 uid=0 gid=0"), 6);
    assert_eq!(find_next_split("a b"), 1);
}

#[test]
fn split_is_zero_without_any_space() {
    assert_eq!(find_next_split(""), 0);
    assert_eq!(find_next_split("pid=42"), 0);
}

#[test]
fn split_is_zero_for_a_leading_space() {
    assert_eq!(find_next_split(" a b"), 0);
}

#[test]
fn split_skips_spaces_inside_double_quotes() {
    assert_eq!(find_next_split("msg=\"a b\" x=1"), 9);
}

#[test]
fn split_skips_spaces_inside_single_quotes() {
    assert_eq!(find_next_split("msg='a b' x=1"), 9);
}

#[test]
fn split_is_zero_inside_an_unterminated_quote() {
    assert_eq!(find_next_split("msg=\"a b c"), 0);
    assert_eq!(find_next_split("msg='a b c"), 0);
}

#[test]
fn split_is_zero_inside_an_open_round_bracket() {
    assert_eq!(find_next_split("a=(1 2 b=3"), 0);
}

#[test]
fn a_negative_depth_blocks_every_split() {
    assert_eq!(find_next_split("a=1) b=2 c=3"), 0);
    // The closing bracket takes the depth to -1 and the opening one brings it back to 0.
    assert_eq!(find_next_split("a=) b=( c=3 d"), 7);
}

#[test]
fn a_quote_inside_the_other_kind_is_plain_text() {
    assert_eq!(find_next_split("a=\"it's b\" c"), 10);
    assert_eq!(find_next_split("a='say \"x y' c"), 12);
}

#[test]
fn a_quote_inside_round_brackets_is_plain_text() {
    // The quote at depth 1 opens nothing, so the space after the bracket splits.
    assert_eq!(find_next_split("a=(\"b) c=\"d e\""), 6);
}

#[test]
fn a_round_bracket_inside_quotes_is_plain_text() {
    assert_eq!(find_next_split("a=\"(\" b=1"), 5);
}

#[test]
fn split_counts_characters_not_bytes() {
    assert_eq!(find_next_split("k=\u{e9}\u{e9} x=1"), 4);
    assert_eq!(tokenize("k=\u{e9}\u{e9} x=1"), strings(&["k=\u{e9}\u{e9}", "x=1"]));
}

#[test]
fn split_index_agrees_with_find_next_split() {
    for line in ["", "a", "a b", " a", "a=(1 2) b=3", "x='1 2' y", "q=\"1 2", ") a b"] {
        assert_eq!(split_index(&chars(line)), find_next_split(line));
    }
}

#[test]
fn tokenize_keeps_the_last_token() {
    assert_eq!(tokenize("pid=notanumber"), strings(&["pid=notanumber"]));
    assert_eq!(
        tokenize("file=\"/etc/passwd\" pid=42 uid=0"),
        strings(&["file=\"/etc/passwd\"", "pid=42", "uid=0"])
    );
}

#[test]
fn tokenize_trims_the_line_and_each_token() {
    assert_eq!(tokenize("  a=1   b=2\t c=3 \r\n"), strings(&["a=1", "b=2", "c=3"]));
}

#[test]
fn tokenize_gives_nothing_for_a_blank_line() {
    assert_eq!(tokenize(""), Vec::<String>::new());
    assert_eq!(tokenize(" \t  "), Vec::<String>::new());
}

#[test]
fn tokenize_keeps_an_unterminated_rest_as_one_token() {
    assert_eq!(tokenize("a=1 msg=\"x y z"), strings(&["a=1", "msg=\"x y z"]));
}

#[test]
fn token_slices_are_parts_of_the_line() {
    let line = chars("a=(1 2) b=3");
    let found: Vec<String> = token_slices(&line).iter().map(|t| t.iter().collect()).collect();
    assert_eq!(found, strings(&["a=(1 2)", "b=3"]));
}
