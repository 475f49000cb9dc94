use hyro::text::{between, byte_len, char_len, tail};
use hyro::{Extract, Grow, Pattern, Shape};

#[test]
fn char_prefix() {
    assert_eq!('/'.find_c("/a"), Some(1));
    assert_eq!('/'.find_c("a/"), None);
    assert_eq!('/'.find_c(""), None);
    assert_eq!('\u{e9}'.find_c("\u{e9}t\u{e9}"), Some(2));
    assert_eq!('\u{4e16}'.find_c("\u{4e16}"), Some(3));
    assert_eq!('\u{1f600}'.find_c("\u{1f600}\u{1f600}"), Some(4));
    assert_eq!('e'.find_c("\u{e9}"), None);
}

#[test]
fn char_whole() {
    assert!('/'.complete("/"));
    assert!(!'/'.complete("//"));
    assert!(!'/'.complete(""));
    assert!(!'/'.complete("a"));
    assert!('\u{e9}'.complete("\u{e9}"));
    assert!(!'\u{e9}'.complete("\u{e9}e"));
}

#[test]
fn char_first_place() {
    assert_eq!('.'.find_start("edit.json"), 4);
    assert_eq!('.'.find_start(".json"), 0);
    assert_eq!('.'.find_start("json"), 4);
    assert_eq!('.'.find_start(""), 0);
    assert_eq!('.'.find_start("a.b.c"), 1);
    assert_eq!('b'.find_start("\u{e9}\u{4e16}b"), 5);
}

#[test]
fn literal_prefix() {
    assert_eq!("/foo".find_c("/foo/bar"), Some(4));
    assert_eq!("/foo".find_c("/foo"), Some(4));
    assert_eq!("/foo".find_c("/fo"), None);
    assert_eq!("/foo".find_c("/fox"), None);
    assert_eq!("".find_c("/foo"), Some(0));
    assert_eq!("".find_c(""), Some(0));
    assert_eq!("a".find_c(""), None);
    assert_eq!("\u{e9}t".find_c("\u{e9}t\u{e9}"), Some(3));
}

#[test]
fn literal_whole() {
    assert!("/foo".complete("/foo"));
    assert!(!"/foo".complete("/foo/"));
    assert!(!"/foo".complete("/fo"));
    assert!(!"/foo".complete("/fox"));
    assert!("".complete(""));
    assert!(!"".complete("a"));
}

#[test]
fn literal_first_place() {
    assert_eq!("=>".find_start("a=>b=>c"), 1);
    assert_eq!("=>".find_start("a=b>c"), 5);
    assert_eq!("".find_start("abc"), 0);
    assert_eq!("".find_start(""), 0);
    assert_eq!("abc".find_start("abc"), 0);
    assert_eq!("abcd".find_start("abc"), 3);
    assert_eq!("c".find_start("abc"), 2);
    assert_eq!("\u{754c}".find_start("\u{4e16}\u{754c}"), 3);
}

#[test]
fn predicate_prefix() {
    let digit = |c: char| c.is_ascii_digit();
    assert_eq!(digit.find_c("123abc"), Some(3));
    assert_eq!(digit.find_c("123"), Some(3));
    assert_eq!(digit.find_c("abc"), None);
    assert_eq!(digit.find_c(""), None);
    assert_eq!(char::is_alphabetic.find_c("\u{e9}t\u{e9}!"), Some(5));
}

#[test]
fn predicate_whole() {
    let digit = |c: char| c.is_ascii_digit();
    assert!(digit.complete("123"));
    assert!(!digit.complete("123a"));
    assert!(!digit.complete("a123"));
    assert!(digit.complete(""));
}

#[test]
fn predicate_first_place() {
    let digit = |c: char| c.is_ascii_digit();
    assert_eq!(digit.find_start("abc123"), 3);
    assert_eq!(digit.find_start("123"), 0);
    assert_eq!(digit.find_start("abc"), 3);
    assert_eq!(digit.find_start(""), 0);
    assert_eq!(digit.find_start("\u{e9}\u{1f600}7"), 6);
}

#[test]
fn width_of_a_character() {
    assert_eq!(char_len('a'), 1);
    assert_eq!(char_len('\u{7f}'), 1);
    assert_eq!(char_len('\u{80}'), 2);
    assert_eq!(char_len('\u{7ff}'), 2);
    assert_eq!(char_len('\u{800}'), 3);
    assert_eq!(char_len('\u{ffff}'), 3);
    assert_eq!(char_len('\u{10000}'), 4);
    assert_eq!(char_len('\u{10ffff}'), 4);
    for c in ['a', '\u{e9}', '\u{4e16}', '\u{1f600}'] {
        assert_eq!(char_len(c), c.len_utf8());
    }
}

#[test]
fn parts_of_a_text() {
    let s = "a\u{e9}\u{4e16}\u{1f600}z";
    assert_eq!(byte_len(s), 11);
    assert_eq!(byte_len(""), 0);
    assert_eq!(tail(s, 0), s);
    assert_eq!(tail(s, 3), "\u{4e16}\u{1f600}z");
    assert_eq!(tail(s, 11), "");
    assert_eq!(between(s, 1, 6), "\u{e9}\u{4e16}");
    assert_eq!(between(s, 6, 6), "");
    assert_eq!(between(s, 0, 11), s);
}

#[test]
fn tuples_of_captures_grow_by_one() {
    let none = ();
    let one = none.push(0, 2);
    assert_eq!(one, ((0, 2),));
    let two = one.push(3, 7);
    assert_eq!(two, ((0, 2), (3, 7)));
    let three = two.push(7, 7);
    assert_eq!(three, ((0, 2), (3, 7), (7, 7)));
    assert_eq!(three.carry(), three);
    assert_eq!(none.carry(), ());
}

#[test]
fn tuples_of_captures_cut_the_path() {
    let path = "42/edit.json";
    assert_eq!(((0, 2),).slices(path), ("42",));
    assert_eq!(((0, 2), (3, 7)).slices(path), ("42", "edit"));
    assert_eq!(((3, 7), (0, 2), (8, 12)).slices(path), ("edit", "42", "json"));
    assert_eq!(((12, 12), (0, 12)).slices(path), ("", path));
}
