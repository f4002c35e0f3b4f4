use fancy_regex::Regex;
use rai_toolkit::{find_cap_ref, replace_all, CaptureRef};

#[test]
fn test_replace() {
    assert_eq!(replace_all(&Regex::new(r"(?:floor|fl) #?\d{1,3}").unwrap(), "123 main st", "").unwrap(), "123 main st");
    assert_eq!(replace_all(&Regex::new(r"(?:apartment|apt|bldg|building|rm|room|unit) #?(?:[A-Z]|\d+|[A-Z]\d+|\d+[A-Z]|\d+-\d+[A-Z]?)").unwrap(), "123 main st apt #5 washington dc", "").unwrap(), "123 main st  washington dc");
    assert_eq!(replace_all(&Regex::new(r"(?:floor|fl) #?\d{1,3}").unwrap(), "123 main st floor 5", "").unwrap(), "123 main st ");
    assert_eq!(replace_all(&Regex::new(r"\d{1,3}(?:st|nd|rd|th) (?:floor|fl)").unwrap(), "5th floor", "").unwrap(), "");
    assert_eq!(replace_all(&Regex::new(r"[１1]丁目").unwrap(), "1丁目 意思", "一丁目").unwrap(), "一丁目 意思");

    assert_eq!(replace_all(&Regex::new(r"([a-z]+)vagen").unwrap(), "123 main st", "$1v").unwrap(), "123 main st");
    assert_eq!(replace_all(&Regex::new(r"([a-z]+)vagen").unwrap(), "amanuensvagen 5 stockholm sweden", "$1v").unwrap(), "amanuensv 5 stockholm sweden");
    assert_eq!(replace_all(&Regex::new(r"([a-z]+)vagen").unwrap(), "amanuensvagen 5 stockholm sweden gutenvagen", "$1v").unwrap(), "amanuensv 5 stockholm sweden gutenv");
    assert_eq!(replace_all(&Regex::new(r"([^ ]+)(strasse|straße|str)").unwrap(), "wilhelmstraße 3", "$1 str").unwrap(), "wilhelm str 3");
    assert_eq!(replace_all(&Regex::new(r"(foo) (bar)").unwrap(), "foo bar", "$2 $1").unwrap(), "bar foo");
}

#[test]
fn find_cap_ref3() {
    assert_eq!(Some(CaptureRef { cap: 0, end: 2 }), find_cap_ref("$0".as_bytes()));
}

#[test]
fn find_cap_ref4() {
    assert_eq!(Some(CaptureRef { cap: 5, end: 2 }), find_cap_ref("$5".as_bytes()));
}

#[test]
fn find_cap_ref5() {
    assert_eq!(Some(CaptureRef { cap: 10, end: 3 }), find_cap_ref("$10".as_bytes()));
}

#[test]
fn find_cap_ref6() {
    assert_eq!(Some(CaptureRef { cap: 42, end: 3 }), find_cap_ref("$42a".as_bytes()));
}

#[test]
fn find_cap_ref7() {
    assert_eq!(None, find_cap_ref("${42}a".as_bytes()));
}

#[test]
fn find_cap_ref8() {
    assert_eq!(None, find_cap_ref("${42".as_bytes()));
}

#[test]
fn find_cap_ref9() {
    assert_eq!(None, find_cap_ref("${42 ".as_bytes()));
}

#[test]
fn find_cap_ref1() {
    assert_eq!(None, find_cap_ref("$foo".as_bytes()));
}

#[test]
fn find_cap_ref2() {
    assert_eq!(None, find_cap_ref("${foo}".as_bytes()));
}

#[test]
fn find_cap_ref10() {
    assert_eq!(None, find_cap_ref(" $0 ".as_bytes()));
}

#[test]
fn find_cap_ref11() {
    assert_eq!(None, find_cap_ref("$".as_bytes()));
}

#[test]
fn find_cap_ref12() {
    assert_eq!(None, find_cap_ref("$$".as_bytes()));
}

#[test]
fn find_cap_ref13() {
    assert_eq!(None, find_cap_ref(" ".as_bytes()));
}

#[test]
fn find_cap_ref14() {
    assert_eq!(None, find_cap_ref("".as_bytes()));
}
