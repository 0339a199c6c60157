//! Tests for the automaton builder, the matcher, the conflict handling,
//! and the two automaton serializers.

use kbdmap::automaton::Automaton;
use kbdmap::kbdwriter::{KbdMap, KbdMetaData, KbdWriter};

fn writer_of(sections: Vec<(&str, Vec<(&str, &str)>)>) -> KbdWriter {
    let mut kbd = KbdWriter::new();
    for (name, pairs) in sections {
        let mut map = KbdMap::new();
        for (k, v) in pairs {
            map.add(k.to_string(), v.to_string());
        }
        kbd.write_section(name.to_string(), map);
    }
    kbd
}

#[test]
fn single_mapping() {
    let kbd = writer_of(vec![("only", vec![("a", "X")])]);
    let (automaton, _, conflicts) = Automaton::from_writer(&kbd);
    assert_eq!(automaton.run("a"), Some("X".to_string()));
    assert_eq!(automaton.run("b"), None);
    assert_eq!(automaton.run(""), None);
    assert!(conflicts.is_empty());
}

#[test]
fn merged_sections_share_prefix() {
    let kbd = writer_of(vec![("first", vec![("ab", "Y")]), ("second", vec![("ac", "Z")])]);
    let (automaton, ranges, conflicts) = Automaton::from_writer(&kbd);
    assert_eq!(automaton.run("ab"), Some("Y".to_string()));
    assert_eq!(automaton.run("ac"), Some("Z".to_string()));
    assert_eq!(automaton.run("a"), None);
    assert!(conflicts.is_empty());
    // The shared prefix "a" created one state reused by both sections:
    // start, "a", "ab", "ac" and nothing else.
    assert_eq!(automaton.states.len(), 4);
    assert_eq!(ranges, vec![2, 3]);
}

#[test]
fn conflict_keeps_first_registration() {
    let kbd = writer_of(vec![("first", vec![("m", "1")]), ("second", vec![("m", "2")])]);
    let (automaton, _, conflicts) = Automaton::from_writer(&kbd);
    assert_eq!(automaton.run("m"), Some("1".to_string()));
    assert_eq!(conflicts.len(), 1);
    assert_eq!(conflicts[0].sequence, "m".to_string());
    assert_eq!(conflicts[0].kept, "1".to_string());
    assert_eq!(conflicts[0].rejected, "2".to_string());
}

#[test]
fn equal_reregistration_is_silent() {
    let kbd = writer_of(vec![("first", vec![("m", "1")]), ("second", vec![("m", "1")])]);
    let (automaton, _, conflicts) = Automaton::from_writer(&kbd);
    assert_eq!(automaton.run("m"), Some("1".to_string()));
    assert!(conflicts.is_empty());
}

#[test]
fn empty_output_is_distinct_from_no_match() {
    let kbd = writer_of(vec![("only", vec![("k", "")])]);
    let (automaton, _, _) = Automaton::from_writer(&kbd);
    assert_eq!(automaton.run("k"), Some(String::new()));
    assert_eq!(automaton.run("x"), None);
}

#[test]
fn unknown_subgraph_is_not_found() {
    let kbd = writer_of(vec![("known", vec![("a", "X")])]);
    assert!(kbd.subsection_writer(&"unknown".to_string()).is_none());
}

#[test]
fn subgraph_selects_one_section() {
    let kbd = writer_of(vec![("first", vec![("a", "X")]), ("second", vec![("b", "Y")])]);
    let sub = kbd.subsection_writer(&"second".to_string()).unwrap();
    assert_eq!(sub.sections.len(), 1);
    assert_eq!(sub.sections[0].0, "second".to_string());
    let (automaton, _, _) = Automaton::from_writer(&sub);
    assert_eq!(automaton.run("b"), Some("Y".to_string()));
    assert_eq!(automaton.run("a"), None);
}

#[test]
fn build_is_deterministic() {
    let sections = vec![
        ("one", vec![("ab", "1"), ("cd", "2")]),
        ("two", vec![("ae", "3"), ("cf", "4")]),
    ];
    let kbd1 = writer_of(sections.clone());
    let kbd2 = writer_of(sections);
    let (a1, r1, c1) = Automaton::from_writer(&kbd1);
    let (a2, r2, c2) = Automaton::from_writer(&kbd2);
    assert_eq!(r1, r2);
    assert_eq!(c1.len(), c2.len());
    for input in ["", "a", "ab", "cd", "ae", "cf", "zz", "abc"] {
        assert_eq!(a1.run(input), a2.run(input));
    }
}

#[test]
fn exact_recall_of_registered_pairs() {
    let kbd = writer_of(vec![
        ("one", vec![("ab", "1"), ("cd", "2"), ("a", "5")]),
        ("two", vec![("ae", "3"), ("abx", "4")]),
    ]);
    let (automaton, _, conflicts) = Automaton::from_writer(&kbd);
    assert!(conflicts.is_empty());
    for (_, map) in kbd.sections.iter() {
        for (k, v) in map.iter() {
            assert_eq!(automaton.run(k), Some(v.clone()));
        }
    }
}

#[test]
fn ranges_are_strictly_increasing() {
    let kbd = writer_of(vec![
        ("one", vec![("ab", "1")]),
        ("two", vec![("ac", "2")]),
        ("three", vec![("b", "3")]),
    ]);
    let (_, ranges, _) = Automaton::from_writer(&kbd);
    assert_eq!(ranges, vec![2, 3, 4]);
    assert!(ranges[0] > 0);
    assert!(ranges[0] < ranges[1] && ranges[1] < ranges[2]);
}

#[test]
fn duplicate_add_is_rejected() {
    let mut map = KbdMap::new();
    assert!(map.add("x".to_string(), "P".to_string()));
    assert!(!map.add("x".to_string(), "Q".to_string()));
    assert_eq!(map.iter().len(), 1);
    assert_eq!(map.iter()[0].1, "P".to_string());
}

#[test]
fn from_section_matches_single_section_build() {
    let mut map = KbdMap::new();
    map.add("ab".to_string(), "Y".to_string());
    let (automaton, cnt, conflicts) = Automaton::from_section(&map);
    assert_eq!(cnt, 2);
    assert!(conflicts.is_empty());
    assert_eq!(automaton.run("ab"), Some("Y".to_string()));
    assert_eq!(automaton.run("a"), None);
}

#[test]
fn start_state_exists_and_is_labelled() {
    let kbd = writer_of(vec![("only", vec![("a", "X")])]);
    let (automaton, _, _) = Automaton::from_writer(&kbd);
    assert_eq!(automaton.start_state, 0);
    assert_eq!(automaton.states[0].state_num, 0);
    assert_eq!(automaton.states[0].label, "start".to_string());
    assert!(automaton.states[0].accepting.is_none());
}

#[test]
fn empty_writer_builds_start_state_only() {
    let kbd = KbdWriter::new();
    let (automaton, ranges, conflicts) = Automaton::from_writer(&kbd);
    assert_eq!(automaton.states.len(), 1);
    assert!(ranges.is_empty());
    assert!(conflicts.is_empty());
    assert_eq!(automaton.run(""), None);
    assert_eq!(automaton.run("a"), None);
}

#[test]
fn empty_sequence_registers_start_state() {
    let kbd = writer_of(vec![("only", vec![("", "S"), ("a", "X")])]);
    let (automaton, _, _) = Automaton::from_writer(&kbd);
    assert_eq!(automaton.run(""), Some("S".to_string()));
    assert_eq!(automaton.run("a"), Some("X".to_string()));
}

#[test]
fn json_codegen_renders_table() {
    let kbd = writer_of(vec![("only", vec![("a", "X")])]);
    let (automaton, _, _) = Automaton::from_writer(&kbd);
    let mut out = String::new();
    automaton.json_codegen(&mut out);
    let expected = "let automaton = [\n\
                    \x20   {l: \"start\", a: null, t: new Map([[\"a\", 1]])},\n\
                    \x20   {l: \"a\", a: \"X\", t: null}\n\
                    ];\n";
    assert_eq!(out, expected);
}

#[test]
fn json_codegen_escapes_quotes() {
    let kbd = writer_of(vec![("only", vec![("\"", "say \"hi\""), ("\"x", "t")])]);
    let (automaton, _, _) = Automaton::from_writer(&kbd);
    let mut out = String::new();
    automaton.json_codegen(&mut out);
    assert!(out.contains("[\"\\\"\", 1]"));
    assert!(out.contains("a: \"say \\\"hi\\\"\""));
}

#[test]
fn graphviz_write_renders_graph() {
    let kbd = writer_of(vec![("only", vec![("a", "X")])]);
    let (automaton, ranges, _) = Automaton::from_writer(&kbd);
    let style = Default::default();
    let mut out = String::new();
    automaton.write(&mut out, &ranges, &kbd, &style);
    let expected = "digraph G {\n\
        \tsubgraph cluster_0 {\n\
        \t\tstyle=filled;\n\
        \t\tbgcolor=aliceblue;\n\
        \t\tnode [style=filled,shape=circle,fillcolor=white,fontcolor=black];\n\
        \t\tlabel=\"only\";\n\
        \t\t  1 [label=\"X\"];\n\
        \t}\n\
        \tnode [style=filled,fillcolor=black,fontcolor=white,shape=circle];\n\
        \t  0 [style=filled,fillcolor=white,fontcolor=black,shape=ellipse,label=\"start\"]\n\
        \t  0 ->   1\t[label=\"a\"];\n\
        }\n";
    assert_eq!(out, expected);
}

#[test]
fn graphviz_space_edge_is_spelled_out() {
    let kbd = writer_of(vec![("only", vec![("a b", "X")])]);
    let (automaton, ranges, _) = Automaton::from_writer(&kbd);
    let style = Default::default();
    let mut out = String::new();
    automaton.write(&mut out, &ranges, &kbd, &style);
    assert!(out.contains("[label=\"space\"]"));
}

#[test]
fn metadata_is_kept_by_subsection() {
    let mut kbd = writer_of(vec![("sec", vec![("a", "X")])]);
    kbd.set_metadata(KbdMetaData::new(
        "Lang".to_string(),
        "lg".to_string(),
        "Desc".to_string(),
    ));
    let sub = kbd.subsection_writer(&"sec".to_string()).unwrap();
    match &sub.metadata {
        Some(m) => {
            assert_eq!(m.language, "Lang".to_string());
            assert_eq!(m.language_code, "lg".to_string());
            assert_eq!(m.description, "Desc".to_string());
        }
        None => panic!("metadata lost"),
    }
}
