use dotenv_buildpack::parse::{parse_env_file, EnvEntry};

fn pairs(content: &str) -> Vec<(String, String)> {
    parse_env_file(content).into_iter().map(|e| (e.name, e.value)).collect()
}

fn pair(name: &str, value: &str) -> (String, String) {
    (name.to_string(), value.to_string())
}

#[test]
fn round_trip_example() {
    let content = "FOO=bar\nBAZ=\"qux quux\"\n# comment\n\nBROKEN_LINE_NO_EQUALS";
    assert_eq!(pairs(content), vec![pair("FOO", "bar"), pair("BAZ", "qux quux")]);
}

#[test]
fn parsing_twice_yields_the_same_ordered_pairs() {
    let content = "A=1\nB=2\nA=3\n# c\nD='x y'\n";
    let first: Vec<EnvEntry> = parse_env_file(content);
    let second: Vec<EnvEntry> = parse_env_file(content);
    assert_eq!(first, second);
    assert_eq!(
        pairs(content),
        vec![pair("A", "1"), pair("B", "2"), pair("A", "3"), pair("D", "x y")]
    );
}

#[test]
fn whitespace_is_trimmed_around_name_and_unquoted_value() {
    assert_eq!(pairs("  FOO  =  bar baz  "), vec![pair("FOO", "bar baz")]);
}

#[test]
fn double_quotes_strip_escapes() {
    assert_eq!(pairs("A=\"a\\\"b\""), vec![pair("A", "a\"b")]);
    assert_eq!(pairs("B=\"l1\\nl2\""), vec![pair("B", "l1\nl2")]);
    assert_eq!(pairs("C=\"col\\tumn\""), vec![pair("C", "col\tumn")]);
    assert_eq!(pairs("D=\"back\\\\slash\""), vec![pair("D", "back\\slash")]);
    assert_eq!(pairs("E=\"oth\\zer\""), vec![pair("E", "othzer")]);
}

#[test]
fn single_quotes_take_contents_literally() {
    assert_eq!(pairs("A='a \"b\" \\n'"), vec![pair("A", "a \"b\" \\n")]);
}

#[test]
fn malformed_lines_are_skipped_silently() {
    let content = "NOEQUALS\nA=1\n=novalue\nB=\"unclosed\nC='x' trailing\nGOOD=ok";
    assert_eq!(pairs(content), vec![pair("A", "1"), pair("GOOD", "ok")]);
}

#[test]
fn empty_values_are_kept() {
    assert_eq!(pairs("A=\nB=\"\"\nC=''"), vec![pair("A", ""), pair("B", ""), pair("C", "")]);
}

#[test]
fn duplicate_names_stay_in_file_order() {
    assert_eq!(pairs("A=1\nA=2"), vec![pair("A", "1"), pair("A", "2")]);
}

#[test]
fn comments_and_blank_lines_yield_nothing() {
    assert_eq!(pairs("# only a comment\n\n   \n\t\n"), Vec::new());
    assert_eq!(pairs(""), Vec::new());
}

#[test]
fn carriage_returns_are_trimmed() {
    assert_eq!(pairs("A=1\r\nB=2\r\n"), vec![pair("A", "1"), pair("B", "2")]);
}

#[test]
fn concatenation_keeps_file_order() {
    let first = "A=1\nB=2";
    let second = "C=3\n# note\nD=4";
    let joined = format!("{first}\n{second}");
    let mut expected = pairs(first);
    expected.extend(pairs(second));
    assert_eq!(pairs(&joined), expected);
}

#[test]
fn value_may_contain_equals_signs() {
    assert_eq!(pairs("URL=http://x/?a=1&b=2"), vec![pair("URL", "http://x/?a=1&b=2")]);
}
