//! The comment matcher: which lines carry a marker, and what they yield.

use fixme_report::parser::{match_comment, Marker};

#[test]
fn matches_todo_with_space() {
    let r = match_comment("// TODO: fix this");
    assert_eq!(r, Some((Marker::Todo, String::from("fix this"))));
}

#[test]
fn matches_fixme_without_space() {
    let r = match_comment("//FIXME: broken");
    assert_eq!(r, Some((Marker::FixMe, String::from("broken"))));
}

#[test]
fn matches_with_leading_whitespace() {
    let r = match_comment("    \t// TODO: indented");
    assert_eq!(r, Some((Marker::Todo, String::from("indented"))));
}

#[test]
fn matches_with_tab_after_slashes() {
    let r = match_comment("//\tFIXME: tabbed");
    assert_eq!(r, Some((Marker::FixMe, String::from("tabbed"))));
}

#[test]
fn details_keep_trailing_text_verbatim() {
    let r = match_comment("// TODO:   spaced   out  ");
    assert_eq!(r, Some((Marker::Todo, String::from("spaced   out  "))));
}

#[test]
fn whitespace_only_details_keep_last_character() {
    let r = match_comment("// TODO:   ");
    assert_eq!(r, Some((Marker::Todo, String::from(" "))));
}

#[test]
fn no_match_on_block_comment() {
    assert_eq!(match_comment("/* TODO: in a block */"), None);
}

#[test]
fn no_match_on_marker_mid_line() {
    assert_eq!(match_comment("let x = 1; // TODO: late"), None);
}

#[test]
fn no_match_on_missing_colon() {
    assert_eq!(match_comment("// TODO fix this"), None);
}

#[test]
fn no_match_on_wrong_keyword() {
    assert_eq!(match_comment("// NOTE: something"), None);
}

#[test]
fn no_match_on_lowercase_keyword() {
    assert_eq!(match_comment("// todo: lowercase"), None);
}

#[test]
fn no_match_on_two_spaces_before_keyword() {
    assert_eq!(match_comment("//  TODO: gap"), None);
}

#[test]
fn no_match_on_empty_details() {
    assert_eq!(match_comment("// TODO:"), None);
}

#[test]
fn no_match_on_empty_line() {
    assert_eq!(match_comment(""), None);
}
