use farol::assets::{asset_url, hashed_name, hex, should_hash};
use farol::hash::Hasher;

#[test]
fn same_input_same_hash() {
    assert_eq!(farol::hash::Hash::of(b"hello"), farol::hash::Hash::of(b"hello"));
    assert_ne!(farol::hash::Hash::of(b"hello"), farol::hash::Hash::of(b"world"));
}

#[test]
fn hex_is_64_chars() {
    assert_eq!(farol::hash::Hash::of(b"x").hex().len(), 64);
}

#[test]
fn hasher_matches_single_of() {
    let a = Hasher::new().update(b"hello").finish();
    let b = farol::hash::Hash::of(b"hello");
    assert_eq!(a, b);
}

#[test]
fn tags_separate_streams() {
    let a = Hasher::new().tag("a").update(b"x").finish();
    let b = Hasher::new().tag("b").update(b"x").finish();
    assert_ne!(a, b);
}

#[test]
fn known_digest() {
    assert_eq!(
        farol::hash::Hash::of(b"abc").hex(),
        "ba7816bf8f01cfea414140de5dae2223b00361a396177a9cb410ff61f20015ad"
    );
}

#[test]
fn hashed_asset_names() {
    assert!(should_hash("css/Site.CSS"));
    assert!(!should_hash("fonts/a.woff2"));
    assert!(!should_hash("README"));
    assert_eq!(hex(&[0x0f, 0xa0]), "0fa0");
    // sha256("abc") starts with ba7816bf.
    assert_eq!(hashed_name("css/site.css", b"abc"), "css/site.ba7816bf.css");
    assert_eq!(hashed_name("LICENSE", b"abc"), "LICENSE.ba7816bf");
    assert_eq!(asset_url("img\\a.png"), "/img/a.png");
}
