use cczuni::strutil::{
    chars_eq_str, clean_pieces_exec, dec_of_exec, from_chars, join_comma_exec, parse_small_u32,
    split2_chars_exec, split_chars_exec, to_chars, trim_chars,
};
use cczuni::iccard::ICCardApplication;

fn chars(s: &str) -> Vec<char> {
    s.chars().collect()
}

fn strings(parts: Vec<Vec<char>>) -> Vec<String> {
    parts.iter().map(|p| p.iter().collect()).collect()
}

#[test]
fn splitting_keeps_empty_pieces() {
    let parts = split_chars_exec(&chars("a/b//c"), '/');
    assert_eq!(strings(parts), vec!["a", "b", "", "c"]);
    let parts = split_chars_exec(&chars(""), '/');
    assert_eq!(strings(parts), vec![""]);
}

#[test]
fn two_character_separator_split() {
    let parts = split2_chars_exec(&chars("张老师,/赵老师"), ',', '/');
    assert_eq!(strings(parts), vec!["张老师", "赵老师"]);
    let parts = split2_chars_exec(&chars("a,b/c"), ',', '/');
    assert_eq!(strings(parts), vec!["a,b/c"]);
}

#[test]
fn trimming_and_cleaning() {
    assert_eq!(strings(vec![trim_chars(&chars("  数学\t"))]), vec!["数学"]);
    let cleaned = clean_pieces_exec(&split_chars_exec(&chars(" a / / b "), '/'));
    assert_eq!(strings(cleaned), vec!["a", "b"]);
}

#[test]
fn small_number_parsing() {
    assert_eq!(parse_small_u32(&chars("7")), Some(7));
    assert_eq!(parse_small_u32(&chars("9999")), Some(9999));
    assert_eq!(parse_small_u32(&chars("")), None);
    assert_eq!(parse_small_u32(&chars("12345")), None);
    assert_eq!(parse_small_u32(&chars("1a")), None);
}

#[test]
fn decimal_printing() {
    assert_eq!(from_chars(&dec_of_exec(0)), "0");
    assert_eq!(from_chars(&dec_of_exec(7)), "7");
    assert_eq!(from_chars(&dec_of_exec(19)), "19");
    assert_eq!(from_chars(&dec_of_exec(120)), "120");
}

#[test]
fn joining_with_commas() {
    assert_eq!(join_comma_exec(&Vec::new()), "");
    assert_eq!(join_comma_exec(&vec!["1-4".to_string()]), "1-4");
    assert_eq!(
        join_comma_exec(&vec!["1-4".to_string(), "9-12".to_string()]),
        "1-4,9-12"
    );
}

#[test]
fn character_comparison() {
    assert!(chars_eq_str(&chars("单"), "单"));
    assert!(!chars_eq_str(&chars("双"), "单"));
}

#[test]
fn endpoint_building() {
    let app = ICCardApplication { root: "http://wxxy.cczu.edu.cn".to_string() };
    assert_eq!(
        app.endpoint("wechat/callinterface/queryElecBuilding.html"),
        "http://wxxy.cczu.edu.cn/wechat/callinterface/queryElecBuilding.html"
    );
}
