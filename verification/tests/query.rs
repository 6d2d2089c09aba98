use akela::query::tags_from_query;
use akela::TagSet;

fn sorted(set: &TagSet) -> Vec<String> {
    let mut v = set.to_vec();
    v.sort();
    v
}

fn parse(q: &str) -> Vec<String> {
    sorted(&tags_from_query(Some(q.to_string())))
}

fn owned(values: &[&str]) -> Vec<String> {
    values.iter().map(|value| value.to_string()).collect()
}

#[test]
fn missing_query_names_no_tags() {
    assert!(tags_from_query(None).is_empty());
    assert!(parse("").is_empty());
}

#[test]
fn comma_separated_tags() {
    assert_eq!(parse("vip,beta"), owned(&["beta", "vip"]));
    assert_eq!(parse("vip"), owned(&["vip"]));
}

#[test]
fn pieces_are_trimmed_and_empty_ones_dropped() {
    assert_eq!(parse(" vip , beta ,, ,"), owned(&["beta", "vip"]));
    assert_eq!(parse(",,,"), Vec::<String>::new());
    assert_eq!(parse("  \t "), Vec::<String>::new());
}

#[test]
fn inner_spaces_are_kept() {
    assert_eq!(parse(" gold member ,vip"), owned(&["gold member", "vip"]));
}

#[test]
fn repeated_tags_collapse() {
    assert_eq!(parse("vip,vip, vip"), owned(&["vip"]));
}

#[test]
fn unicode_white_space_is_trimmed() {
    assert_eq!(parse("\u{3000}vip\u{a0},\u{2003}beta\u{85}"), owned(&["beta", "vip"]));
    assert_eq!(parse("\u{1680}\u{2028}"), Vec::<String>::new());
}

#[test]
fn other_characters_are_not_white_space() {
    assert_eq!(parse("\u{200b}vip"), owned(&["\u{200b}vip"]));
    assert_eq!(parse("_vip_"), owned(&["_vip_"]));
}

#[test]
fn parsing_agrees_with_std_split_and_trim() {
    let samples = [
        "a,b,c",
        " a ,, b\n,\tc ",
        "x",
        ",x,",
        "\u{a0}z\u{a0}",
        "é, ü ,ß",
    ];
    for q in samples {
        let mut expected: Vec<String> = q
            .split(',')
            .map(str::trim)
            .filter(|t| !t.is_empty())
            .map(str::to_string)
            .collect();
        expected.sort();
        expected.dedup();
        assert_eq!(parse(q), expected, "query {:?}", q);
    }
}
