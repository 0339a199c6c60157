//! Tests for the composition helper and the combining-mark table.

use kbdmap::compose::{compose_vec, CompositionMap};

#[test]
fn empty() {
    assert_eq!(compose_vec(vec![]), vec![]);
}

#[test]
fn nop() {
    assert_eq!(compose_vec(vec!['a']), vec!['a']);
}

#[test]
fn many_no_compose() {
    assert_eq!(compose_vec(vec!['a', 'b', 'c']), vec!['a', 'b', 'c']);
}

#[test]
fn simple() {
    assert_eq!(compose_vec(vec!['α', '\u{304}']), vec!['ᾱ']);
}

#[test]
fn cant_compose() {
    assert_eq!(compose_vec(vec!['ξ', '\u{304}']), vec!['ξ', '\u{304}']);
}

#[test]
fn half_compose() {
    assert_eq!(
        compose_vec(vec!['α', '\u{304}', '\u{313}']),
        vec!['ᾱ', '\u{313}']
    );
}

#[test]
fn many() {
    assert_eq!(
        compose_vec(vec!['α', '\u{304}', 'ι', '\u{304}', 'υ', '\u{304}']),
        vec!['ᾱ', 'ῑ', 'ῡ']
    );
}

#[test]
fn double() {
    assert_eq!(
        compose_vec(vec!['α', '\u{313}', '\u{301}', 'ρ', 'χ', 'ω']),
        vec!['ἄ', 'ρ', 'χ', 'ω']
    );
}

#[test]
fn iota() {
    assert_eq!(compose_vec(vec!['α', '\u{345}']), vec!['ᾳ'])
}

#[test]
fn rough() {
    assert_eq!(compose_vec(vec!['α', '\u{314}']), vec!['ἁ'])
}

#[test]
fn diaresis() {
    assert_eq!(
        compose_vec(vec!['υ', '\u{304}', '\u{308}']),
        vec!['ῡ', '\u{308}']
    );
}

#[test]
fn mark_table_lookup() {
    let compositions = CompositionMap::new();
    assert_eq!(compositions.above("macron"), '\u{304}');
    assert_eq!(compositions.above("acute"), '\u{301}');
    assert_eq!(compositions.above("iota"), '\u{345}');
    assert_eq!(compositions.above("reversed comma"), '\u{314}');
}

#[test]
fn compose_through_table() {
    let compositions = CompositionMap::new();
    let composed = compose_vec(vec!['a', compositions.above("macron")]);
    assert_eq!(composed, vec!['ā']);
}
