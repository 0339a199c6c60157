//! The section store: named sections of `input sequence -> output string`
//! rules, collected in order by a writer together with layout metadata, and
//! consumed by the automaton builder and the serializers.

pub mod emacs;
pub mod graphviz;
pub mod list;
pub mod vimfn;

use vstd::prelude::*;

use crate::textops::str_eq;

verus! {

/// The output formats a keyboard description can be rendered in.
#[derive(Clone, Copy, Debug, PartialEq, Eq, Structural)]
pub enum Format {
    List,
    EmacsQuail,
    VimFn,
    GraphViz,
}

impl Default for Format {
    fn default() -> (r: Self)
        ensures
            r == Format::List,
    {
        Format::List
    }
}

impl Format {
    /// Every format, in declaration order.
    pub fn all() -> (r: Vec<Format>)
        ensures
            r@ == seq![Format::List, Format::EmacsQuail, Format::VimFn, Format::GraphViz],
    {
        let mut v: Vec<Format> = Vec::new();
        v.push(Format::List);
        v.push(Format::EmacsQuail);
        v.push(Format::VimFn);
        v.push(Format::GraphViz);
        proof {
            assert(v@ =~= seq![Format::List, Format::EmacsQuail, Format::VimFn, Format::GraphViz]);
        }
        v
    }

    /// The name of the format's variant.
    pub open spec fn spec_name(self) -> Seq<char> {
        match self {
            Format::List => "List"@,
            Format::EmacsQuail => "EmacsQuail"@,
            Format::VimFn => "VimFn"@,
            Format::GraphViz => "GraphViz"@,
        }
    }

    /// The name of the format's variant, as a fresh string.
    pub fn name(&self) -> (r: String)
        ensures
            r@ == self.spec_name(),
    {
        match self {
            Format::List => String::from_str("List"),
            Format::EmacsQuail => String::from_str("EmacsQuail"),
            Format::VimFn => String::from_str("VimFn"),
            Format::GraphViz => String::from_str("GraphViz"),
        }
    }
}

/// The mathematical value of a [`KbdMetaData`]: its three fields as
/// character sequences.
#[verifier::ext_equal]
pub struct KbdMetaModel {
    pub language: Seq<char>,
    pub language_code: Seq<char>,
    pub description: Seq<char>,
}

/// Descriptive data for one keyboard layout.
pub struct KbdMetaData {
    pub language: String,
    pub language_code: String,
    pub description: String,
}

impl View for KbdMetaData {
    type V = KbdMetaModel;

    open spec fn view(&self) -> KbdMetaModel {
        KbdMetaModel {
            language: self.language@,
            language_code: self.language_code@,
            description: self.description@,
        }
    }
}

impl KbdMetaData {
    pub fn new(language: String, language_code: String, description: String) -> (r: Self)
        ensures
            r@.language == language@,
            r@.language_code == language_code@,
            r@.description == description@,
    {
        Self { language, language_code, description }
    }
}

impl Default for KbdMetaData {
    fn default() -> (r: Self)
        ensures
            r@.language == "ERROR: Unknown"@,
            r@.language_code == "???"@,
            r@.description == "ERROR: Unknown"@,
    {
        Self {
            language: String::from_str("ERROR: Unknown"),
            language_code: String::from_str("???"),
            description: String::from_str("ERROR: Unknown"),
        }
    }
}

impl Clone for KbdMetaData {
    fn clone(&self) -> (r: Self)
        ensures
            r@ == self@,
    {
        Self {
            language: self.language.clone(),
            language_code: self.language_code.clone(),
            description: self.description.clone(),
        }
    }
}

/// An ordered mapping from input key sequences to output strings.
/// Within one map each input sequence occurs at most once; a duplicate
/// insertion is rejected rather than allowed to overwrite.
pub struct KbdMap {
    keymap: Vec<(String, String)>,
}

/// Whether the pair list `m` holds an entry whose key is `k`.
pub open spec fn map_has_key(m: Seq<(Seq<char>, Seq<char>)>, k: Seq<char>) -> bool {
    exists|i: int| 0 <= i < m.len() && m[i].0 == k
}

/// Whether the keys of the pair list `m` are pairwise distinct.
pub open spec fn keys_distinct(m: Seq<(Seq<char>, Seq<char>)>) -> bool {
    forall|i: int, j: int| 0 <= i < j < m.len() ==> m[i].0 != m[j].0
}

/// `m` with `p` registered: appended when its key is new, unchanged when
/// the key is already present -- exactly what [`KbdMap::add`] does.
pub open spec fn add_one(
    m: Seq<(Seq<char>, Seq<char>)>,
    p: (Seq<char>, Seq<char>),
) -> Seq<(Seq<char>, Seq<char>)> {
    if map_has_key(m, p.0) {
        m
    } else {
        m.push(p)
    }
}

/// `m` with every candidate of `cands` registered in order, later
/// duplicates dropped.
pub open spec fn add_all(
    m: Seq<(Seq<char>, Seq<char>)>,
    cands: Seq<(Seq<char>, Seq<char>)>,
) -> Seq<(Seq<char>, Seq<char>)>
    decreases cands.len(),
{
    if cands.len() == 0 {
        m
    } else {
        add_one(add_all(m, cands.drop_last()), cands.last())
    }
}

/// Registering a single candidate.
pub proof fn lemma_add_all_one(m: Seq<(Seq<char>, Seq<char>)>, e: (Seq<char>, Seq<char>))
    ensures
        add_all(m, seq![e]) == add_one(m, e),
{
    assert(seq![e].drop_last() =~= Seq::<(Seq<char>, Seq<char>)>::empty());
    assert(seq![e].last() == e);
    assert(add_all(m, Seq::<(Seq<char>, Seq<char>)>::empty()) == m);
}

/// Registering two candidates in order.
pub proof fn lemma_add_all_two(
    m: Seq<(Seq<char>, Seq<char>)>,
    e1: (Seq<char>, Seq<char>),
    e2: (Seq<char>, Seq<char>),
)
    ensures
        add_all(m, seq![e1, e2]) == add_one(add_one(m, e1), e2),
{
    lemma_add_all_one(m, e1);
    assert(seq![e1, e2].drop_last() =~= seq![e1]);
    assert(seq![e1, e2].last() == e2);
}

/// Registering three candidates in order.
pub proof fn lemma_add_all_three(
    m: Seq<(Seq<char>, Seq<char>)>,
    e1: (Seq<char>, Seq<char>),
    e2: (Seq<char>, Seq<char>),
    e3: (Seq<char>, Seq<char>),
)
    ensures
        add_all(m, seq![e1, e2, e3]) == add_one(add_one(add_one(m, e1), e2), e3),
{
    lemma_add_all_two(m, e1, e2);
    assert(seq![e1, e2, e3].drop_last() =~= seq![e1, e2]);
    assert(seq![e1, e2, e3].last() == e3);
}

/// Registration distributes over concatenation of candidate lists.
pub proof fn lemma_add_all_concat(
    m: Seq<(Seq<char>, Seq<char>)>,
    xs: Seq<(Seq<char>, Seq<char>)>,
    ys: Seq<(Seq<char>, Seq<char>)>,
)
    ensures
        add_all(m, xs + ys) == add_all(add_all(m, xs), ys),
    decreases ys.len(),
{
    if ys.len() == 0 {
        assert(xs + ys =~= xs);
    } else {
        assert((xs + ys).drop_last() =~= xs + ys.drop_last());
        assert((xs + ys).last() == ys.last());
        lemma_add_all_concat(m, xs, ys.drop_last());
    }
}

impl View for KbdMap {
    type V = Seq<(Seq<char>, Seq<char>)>;

    closed spec fn view(&self) -> Seq<(Seq<char>, Seq<char>)> {
        self.keymap@.map_values(|p: (String, String)| (p.0@, p.1@))
    }
}

impl KbdMap {
    /// A map is well formed when no input sequence occurs twice.
    pub open spec fn wf(self) -> bool {
        keys_distinct(self@)
    }

    pub fn new() -> (r: Self)
        ensures
            r@ == Seq::<(Seq<char>, Seq<char>)>::empty(),
            r.wf(),
    {
        let r = Self { keymap: Vec::new() };
        proof {
            assert(r@ =~= Seq::<(Seq<char>, Seq<char>)>::empty());
        }
        r
    }

    /// Registers `key_sequence -> mapped_value` and reports whether it was
    /// new.  A sequence already present keeps its earlier value, and the
    /// rejection is this map's duplicate diagnostic.
    pub fn add(&mut self, key_sequence: String, mapped_value: String) -> (r: bool)
        ensures
            r == !map_has_key(old(self)@, key_sequence@),
            r ==> final(self)@ == old(self)@.push((key_sequence@, mapped_value@)),
            !r ==> final(self)@ == old(self)@,
            old(self).wf() ==> final(self).wf(),
    {
        let n = self.keymap.len();
        let mut i: usize = 0;
        while i < n
            invariant
                n == self.keymap.len(),
                i <= n,
                forall|j: int| 0 <= j < i ==> self@[j].0 != key_sequence@,
            decreases n - i,
        {
            if str_eq(self.keymap[i].0.as_str(), key_sequence.as_str()) {
                proof {
                    assert(self@[i as int].0 == key_sequence@);
                }
                return false;
            }
            i += 1;
        }
        proof {
            assert(!map_has_key(self@, key_sequence@));
        }
        let ghost pre = self@;
        self.keymap.push((key_sequence, mapped_value));
        proof {
            assert(final(self)@ =~= pre.push((key_sequence@, mapped_value@)));
        }
        true
    }

    /// The registered pairs, in registration order.
    pub fn iter(&self) -> (r: &Vec<(String, String)>)
        ensures
            r@.len() == self@.len(),
            forall|i: int|
                0 <= i < r@.len() ==> (#[trigger] r@[i]).0@ == self@[i].0 && r@[i].1@
                    == self@[i].1,
    {
        &self.keymap
    }
}

impl Clone for KbdMap {
    fn clone(&self) -> (r: Self)
        ensures
            r@ == self@,
    {
        let mut keymap: Vec<(String, String)> = Vec::new();
        let n = self.keymap.len();
        let mut i: usize = 0;
        while i < n
            invariant
                n == self.keymap.len(),
                i <= n,
                keymap@.len() == i,
                forall|j: int|
                    0 <= j < i ==> (#[trigger] keymap@[j]).0@ == self@[j].0 && keymap@[j].1@
                        == self@[j].1,
            decreases n - i,
        {
            let key = self.keymap[i].0.clone();
            let value = self.keymap[i].1.clone();
            keymap.push((key, value));
            i += 1;
        }
        let r = Self { keymap };
        proof {
            assert(r@ =~= self@);
        }
        r
    }
}

/// The mathematical value of a [`KbdWriter`]: the metadata, if set, and the
/// named sections in the order they were written.
#[verifier::ext_equal]
pub struct KbdWriterModel {
    pub metadata: Option<KbdMetaModel>,
    pub sections: Seq<(Seq<char>, Seq<(Seq<char>, Seq<char>)>)>,
}

/// The metadata a renderer falls back on when none was set.
pub open spec fn meta_or_default(m: Option<KbdMetaModel>) -> KbdMetaModel {
    match m {
        Some(x) => x,
        None => KbdMetaModel {
            language: "ERROR: Unknown"@,
            language_code: "???"@,
            description: "ERROR: Unknown"@,
        },
    }
}

/// An ordered collection of named sections, each a [`KbdMap`], together
/// with optional layout metadata.
pub struct KbdWriter {
    pub metadata: Option<KbdMetaData>,
    pub sections: Vec<(String, KbdMap)>,
}

impl View for KbdWriter {
    type V = KbdWriterModel;

    open spec fn view(&self) -> KbdWriterModel {
        KbdWriterModel {
            metadata: match self.metadata {
                Some(m) => Some(m@),
                None => None,
            },
            sections: self.sections@.map_values(|s: (String, KbdMap)| (s.0@, s.1@)),
        }
    }
}

impl KbdWriter {
    /// A writer is well formed when each of its sections' maps is.
    pub open spec fn wf(self) -> bool {
        forall|i: int| 0 <= i < self@.sections.len() ==> keys_distinct(#[trigger] self@.sections[i].1)
    }

    pub fn new() -> (r: Self)
        ensures
            r@.metadata is None,
            r@.sections == Seq::<(Seq<char>, Seq<(Seq<char>, Seq<char>)>)>::empty(),
            r.wf(),
    {
        let r = Self { metadata: None, sections: Vec::new() };
        proof {
            assert(r@.sections =~= Seq::<(Seq<char>, Seq<(Seq<char>, Seq<char>)>)>::empty());
        }
        r
    }

    pub fn set_metadata(&mut self, metadata: KbdMetaData)
        ensures
            final(self)@.metadata == Some(metadata@),
            final(self)@.sections == old(self)@.sections,
            final(self).wf() == old(self).wf(),
    {
        self.metadata = Some(metadata);
    }

    pub fn write_section(&mut self, title: String, keymap: KbdMap)
        ensures
            final(self)@.metadata == old(self)@.metadata,
            final(self)@.sections == old(self)@.sections.push((title@, keymap@)),
            old(self).wf() && keymap.wf() ==> final(self).wf(),
    {
        let ghost pre = self@.sections;
        self.sections.push((title, keymap));
        proof {
            assert(self@.sections =~= pre.push((title@, keymap@)));
        }
    }

    /// A new writer holding only the first section named `section`, with the
    /// same metadata; `None` when no section has that name.
    pub fn subsection_writer(&self, section: &String) -> (r: Option<KbdWriter>)
        ensures
            match r {
                Some(w) => {
                    &&& exists|i: int|
                        0 <= i < self@.sections.len() && (#[trigger] self@.sections[i]).0
                            == section@ && w@.sections == seq![self@.sections[i]] && (forall|j: int|
                            0 <= j < i ==> (#[trigger] self@.sections[j]).0 != section@)
                    &&& w@.metadata == self@.metadata
                    &&& self.wf() ==> w.wf()
                },
                None => forall|i: int|
                    0 <= i < self@.sections.len() ==> (#[trigger] self@.sections[i]).0 != section@,
            },
    {
        let n = self.sections.len();
        let mut i: usize = 0;
        while i < n
            invariant
                n == self.sections.len(),
                i <= n,
                forall|j: int| 0 <= j < i ==> (#[trigger] self@.sections[j]).0 != section@,
            decreases n - i,
        {
            if str_eq(self.sections[i].0.as_str(), section.as_str()) {
                let mut new_writer = KbdWriter::new();
                let name = self.sections[i].0.clone();
                let map = self.sections[i].1.clone();
                new_writer.write_section(name, map);
                match &self.metadata {
                    Some(metadata) => {
                        new_writer.set_metadata(metadata.clone());
                    },
                    None => {},
                }
                proof {
                    assert(self@.sections[i as int].0 == section@);
                    assert(new_writer@.sections =~= seq![self@.sections[i as int]]);
                }
                return Some(new_writer);
            }
            i += 1;
        }
        None
    }
}

} // verus!
