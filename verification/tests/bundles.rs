//! The descriptors by which prepared scenes are found.
use kirie_scene::bundle::{bundle_source, push_bytes, try_load_model, StoreAnswer};

#[test]
fn assets_dir_identity_is_part_of_the_key() {
    let none = bundle_source(b"p", None, None);
    let a = bundle_source(b"p", None, Some(b"/opt/we/assets"));
    let b = bundle_source(b"p", None, Some(b"/mnt/we/assets"));
    assert_ne!(none, a);
    assert_ne!(a, b);
}

#[test]
fn source_content_is_part_of_the_key() {
    assert_ne!(
        bundle_source(b"pkg-1", Some(b"proj"), None),
        bundle_source(b"pkg-2", Some(b"proj"), None)
    );
    assert_ne!(
        bundle_source(b"pkg", Some(b"proj-1"), None),
        bundle_source(b"pkg", Some(b"proj-2"), None)
    );
    assert_ne!(
        bundle_source(b"pkg", Some(b"proj"), None),
        bundle_source(b"pkg", None, None)
    );
}

#[test]
fn the_digest_of_the_package_is_in_the_key() {
    // The digest of no bytes at all.
    let empty: [u8; 32] = [
        0xaf, 0x13, 0x49, 0xb9, 0xf5, 0xf9, 0xa1, 0xa6, 0xa0, 0x40, 0x4d, 0xea, 0x36, 0xdc, 0xc9,
        0x49, 0x9b, 0xcb, 0x25, 0xc9, 0xad, 0xc1, 0x12, 0xb7, 0xcc, 0x9a, 0x93, 0xca, 0xe4, 0x1f,
        0x32, 0x62,
    ];
    let source = bundle_source(b"", None, None);
    assert!(source.windows(32).any(|w| w == empty));
    assert!(!bundle_source(b"x", None, None).windows(32).any(|w| w == empty));
}

#[test]
fn parts_are_framed_by_their_length() {
    let mut out = Vec::new();
    push_bytes(&mut out, b"abc");
    assert_eq!(out, [3, 0, 0, 0, b'a', b'b', b'c']);
}

#[test]
fn a_damaged_bundle_is_removed() {
    assert_eq!(try_load_model(StoreAnswer::Held(7)), (Some(7), false));
    assert_eq!(try_load_model(StoreAnswer::<i32>::Damaged), (None, true));
    assert_eq!(try_load_model(StoreAnswer::<i32>::Absent), (None, false));
    assert_eq!(try_load_model(StoreAnswer::<i32>::Unavailable), (None, false));
}
