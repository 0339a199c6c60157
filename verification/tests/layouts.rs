//! End-to-end tests: the layout producers feed the automaton and the
//! renderers, with the real composition and case-mapping crates linked.

use kbdmap::automaton::Automaton;
use kbdmap::kbdlayout::{greek, latin, russian, Layout};
use kbdmap::kbdwriter::{
    emacs::EmacsKbdWriter, graphviz::GraphVizKbdWriter, list::ListKbdWriter, vimfn::VimFnKbdWriter,
    Format, KbdMap, KbdMetaData, KbdWriter,
};

#[test]
fn latin_macrons_and_breves() {
    let mut kbd = KbdWriter::new();
    latin::gen(&mut kbd, true);
    assert_eq!(kbd.sections.len(), 2);
    assert_eq!(kbd.sections[0].0, "macrons".to_string());
    assert_eq!(kbd.sections[1].0, "breve".to_string());
    let (automaton, _, conflicts) = Automaton::from_writer(&kbd);
    assert!(conflicts.is_empty());
    assert_eq!(automaton.run("a;"), Some("ā".to_string()));
    assert_eq!(automaton.run("A;"), Some("Ā".to_string()));
    assert_eq!(automaton.run("u-"), Some("ŭ".to_string()));
    assert_eq!(automaton.run("E-"), Some("Ĕ".to_string()));
    assert_eq!(automaton.run("a"), None);
}

#[test]
fn latin_prefix_variant() {
    let mut kbd = KbdWriter::new();
    latin::gen(&mut kbd, false);
    let (automaton, _, _) = Automaton::from_writer(&kbd);
    assert_eq!(automaton.run(";a"), Some("ā".to_string()));
    assert_eq!(automaton.run("a;"), None);
}

#[test]
fn russian_sections_and_matches() {
    let mut kbd = KbdWriter::new();
    russian::gen(&mut kbd);
    let names: Vec<&String> = kbd.sections.iter().map(|s| &s.0).collect();
    assert_eq!(
        names,
        vec![
            "consonants",
            "vowels",
            "soft vowels",
            "acute hard vowels",
            "acute soft vowels",
            "signs"
        ]
    );
    let (automaton, ranges, conflicts) = Automaton::from_writer(&kbd);
    assert!(conflicts.is_empty());
    assert_eq!(ranges.len(), 6);
    assert_eq!(automaton.run("b"), Some("б".to_string()));
    assert_eq!(automaton.run("B"), Some("Б".to_string()));
    assert_eq!(automaton.run("sch"), Some("щ".to_string()));
    assert_eq!(automaton.run("SCH"), Some("Щ".to_string()));
    assert_eq!(automaton.run("a"), Some("а".to_string()));
    assert_eq!(automaton.run("ja"), Some("я".to_string()));
    assert_eq!(automaton.run("JA"), Some("Я".to_string()));
    assert_eq!(automaton.run("Ja"), Some("Я".to_string()));
    assert_eq!(automaton.run("qs"), Some("ь".to_string()));
    assert_eq!(automaton.run("qS"), Some("ь".to_string()));
    assert_eq!(automaton.run("qh"), Some("ъ".to_string()));
}

#[test]
fn russian_exact_recall() {
    let mut kbd = KbdWriter::new();
    russian::gen(&mut kbd);
    let (automaton, _, conflicts) = Automaton::from_writer(&kbd);
    assert!(conflicts.is_empty());
    for (_, map) in kbd.sections.iter() {
        for (k, v) in map.iter() {
            assert_eq!(automaton.run(k), Some(v.clone()));
        }
    }
}

#[test]
fn greek_sections_and_matches() {
    let mut kbd = KbdWriter::new();
    greek::gen(&mut kbd);
    assert_eq!(kbd.sections.len(), 8);
    assert_eq!(kbd.sections[0].0, "consonants".to_string());
    assert_eq!(kbd.sections[7].0, "rough breathing".to_string());
    let (automaton, ranges, _) = Automaton::from_writer(&kbd);
    assert_eq!(ranges.len(), 8);
    assert_eq!(automaton.run("b"), Some("β".to_string()));
    assert_eq!(automaton.run("th"), Some("θ".to_string()));
    assert_eq!(automaton.run("TH"), Some("Θ".to_string()));
    assert_eq!(automaton.run("s "), Some("ς".to_string()));
    assert_eq!(automaton.run("q."), Some("·".to_string()));
    assert_eq!(automaton.run("a"), Some("α".to_string()));
    assert_eq!(automaton.run("a;"), Some("ά".to_string()));
    assert_eq!(automaton.run("a["), Some("ᾶ".to_string()));
    assert_eq!(automaton.run("a]"), Some("ᾳ".to_string()));
    assert_eq!(automaton.run("a:"), Some("ἀ".to_string()));
    assert_eq!(automaton.run("a\""), Some("ἁ".to_string()));
    assert_eq!(automaton.run("i{"), Some("ϊ".to_string()));
    assert_eq!(automaton.run("a}"), Some("ᾰ".to_string()));
    assert_eq!(automaton.run("aw"), Some("ᾱ".to_string()));
}

#[test]
fn layout_and_format_names() {
    assert_eq!(Layout::Greek.name(), "Greek".to_string());
    assert_eq!(Layout::all().len(), 3);
    assert_eq!(Format::default(), Format::List);
    assert_eq!(Format::GraphViz.name(), "GraphViz".to_string());
    assert_eq!(Format::all().len(), 4);
}

fn small_writer() -> KbdWriter {
    let mut kbd = KbdWriter::new();
    kbd.set_metadata(KbdMetaData::new(
        "My Lang".to_string(),
        "ML".to_string(),
        "A language".to_string(),
    ));
    let mut map = KbdMap::new();
    map.add("ab".to_string(), "x".to_string());
    map.add("c".to_string(), "yz".to_string());
    kbd.write_section("pairs".to_string(), map);
    kbd
}

#[test]
fn list_renders_exactly() {
    let kbd = small_writer();
    let out = ListKbdWriter::new(&kbd).render();
    let expected = "My Lang (ML)\n\
                    A language\n\
                    ----------------\n\
                    \x20 pairs\n\
                    \x20   〈ab〉 → 〈x〉\n\
                    \x20   〈c〉 → 〈yz〉\n";
    assert_eq!(out, expected);
}

#[test]
fn list_defaults_metadata() {
    let mut kbd = KbdWriter::new();
    kbd.write_section("s".to_string(), KbdMap::new());
    let out = ListKbdWriter::new(&kbd).render();
    assert!(out.starts_with("ERROR: Unknown (???)\n"));
}

#[test]
fn emacs_renders_exactly() {
    let kbd = small_writer();
    let out = EmacsKbdWriter::new(&kbd).render();
    let expected = "(quail-define-package\n\
                    \x20 \"my-lang\"\n\
                    \x20 \"ml\"\n\
                    \x20 \"My Lang\"\n\
                    \x20 t\n\
                    \x20 \"A language\"\n\
                    \x20 nil t nil nil nil nil nil nil nil nil t\n\
                    )\n\
                    (quail-define-rules\n\
                    \x20 ;; pairs\n\
                    \x20 (\"ab\", ?x)\n\
                    \x20 (\"c\", ?\"yz\")\n\
                    )\n";
    assert_eq!(out, expected);
}

#[test]
fn emacs_escapes_quotes_in_both_fields() {
    let mut kbd = KbdWriter::new();
    let mut map = KbdMap::new();
    map.add("a\"b".to_string(), "say \"hi\"".to_string());
    map.add("k".to_string(), "\"".to_string());
    kbd.write_section("quoted".to_string(), map);
    let out = EmacsKbdWriter::new(&kbd).render();
    assert!(out.contains("  (\"a\\\"b\", ?\"say \\\"hi\\\"\")\n"));
    assert!(out.contains("  (\"k\", ?\\\")\n"));
}

#[test]
fn vimfn_encodes_structural_characters() {
    let mut kbd = KbdWriter::new();
    let mut map = KbdMap::new();
    map.add("s ".to_string(), "x y".to_string());
    map.add("a<b".to_string(), "c|d".to_string());
    kbd.write_section("special".to_string(), map);
    let out = VimFnKbdWriter::new(&kbd).render();
    assert!(out.contains("   imap s<Space> x<Space>y\n"));
    assert!(out.contains("   imap a<lt>b c<Bar>d\n"));
}

#[test]
fn vimfn_encodes_greek_final_sigma_key() {
    let mut kbd = KbdWriter::new();
    greek::gen(&mut kbd);
    let out = VimFnKbdWriter::new(&kbd).render();
    assert!(out.contains("   imap s<Space> ς\n"));
    assert!(!out.contains("   imap s  ς\n"));
}

#[test]
fn vimfn_renders_exactly() {
    let kbd = small_writer();
    let out = VimFnKbdWriter::new(&kbd).render();
    let expected = "\" My Lang (ML)\n\
                    \" A language\n\
                    function kbdmap_my_lang()\n\
                    \x20  \" pairs\n\
                    \x20  imap ab x\n\
                    \x20  imap c yz\n\
                    endfunction\n";
    assert_eq!(out, expected);
}

#[test]
fn graphviz_writer_builds_and_renders() {
    let kbd = small_writer();
    let out = GraphVizKbdWriter::new(&kbd).render();
    assert!(out.starts_with("digraph G {\n"));
    assert!(out.ends_with("}\n"));
    assert!(out.contains("label=\"pairs\""));
    assert!(out.contains("[label=\"x\"]"));
    assert!(out.contains("  1 ->   2"));
}
