//! Texts, tables and messages.
use kirie_scene::error::{joined_message, SceneError, SceneLoadError};
use kirie_scene::json::{decimal_int_text, decimal_text};
use kirie_scene::parse_error;
use kirie_scene::table::Table;
use kirie_scene::text::{
    comes_before, contains_char, join, replace_char, same, split_on, starts_with, trim,
};
use kirie_scene::value::VecError;

#[test]
fn texts_are_taken_apart_and_joined() {
    let parts = split_on("a,,b", ',');
    assert_eq!(parts, ["a", "", "b"]);
    assert_eq!(join(&parts, ','), "a,,b");
    assert_eq!(replace_char("a\\b", '\\', '/'), "a/b");
    assert_eq!(trim("\t x y \u{a0}\n"), "x y");
    assert!(contains_char("a.b", '.') && !contains_char("ab", '.'));
    assert!(starts_with("_rt_x", "_rt_") && !starts_with("_r", "_rt_"));
    assert!(same("\u{e9}", "\u{e9}") && !same("e", "\u{e9}"));
    assert!(comes_before("a", "b") && comes_before("a", "ab") && !comes_before("b", "a"));
}

#[test]
fn tables_are_ordered_maps() {
    let mut t = Table::new();
    t.insert("b", 1);
    t.insert("a", 2);
    t.insert("b", 3);
    assert_eq!(t.len(), 2);
    assert_eq!(t.get("b"), Some(&3));
    assert_eq!(t.get("c"), None);
    assert_eq!(t.position("a"), Some(0));
    assert_eq!(t.position("b"), Some(1));
}

#[test]
fn numbers_as_text() {
    assert_eq!(decimal_text(0), "0");
    assert_eq!(decimal_text(18446744073709551615), "18446744073709551615");
    assert_eq!(decimal_int_text(-9223372036854775808), "-9223372036854775808");
}

#[test]
fn messages_name_what_failed() {
    assert_eq!(joined_message("a ", "b"), "a b");
    let size = SceneError::BadProjection {
        width: 0,
        height: 7,
    };
    assert!(size.message().contains("0") && size.message().contains("7"));
    let all = [
        SceneLoadError::Pkg("p".to_owned()),
        SceneLoadError::SceneJson("s".to_owned()),
        SceneLoadError::Parse("q".to_owned()),
        SceneLoadError::Build(SceneError::NoRenderableObjects),
    ];
    for e in &all {
        assert!(!e.message().is_empty());
    }
    assert!(all[0].message().ends_with("p"));
    let parse = [
        parse_error::SceneError::Json("bad".to_owned()),
        parse_error::SceneError::NotAnObject,
        parse_error::SceneError::MissingSection("camera".to_owned()),
        parse_error::SceneError::MissingCameraField("eye".to_owned()),
        parse_error::SceneError::CameraVec {
            field: "up".to_owned(),
            source: VecError::ComponentCount {
                expected: 3,
                found: 2,
            },
        },
    ];
    for e in &parse {
        assert!(!e.message().is_empty());
    }
    assert!(parse[2].message().contains("camera"));
    assert!(parse[4].message().contains("up"));
}
