//! Canonical composition of adjacent combining marks: a pure string
//! transform used by the layout producers before their rules reach the
//! automaton builder.  The pairwise composition itself comes from the
//! `unicode_normalization` crate; the fold over a sequence is verified
//! here against it.

use vstd::prelude::*;

use crate::textops::str_eq;

verus! {

/// What `unicode_normalization::char::compose` returns for a pair of
/// characters: the canonical composition, if one exists.  A pure table
/// lookup (plus Hangul arithmetic), a function of the two characters
/// alone.
pub uninterp spec fn compose_of(a: char, b: char) -> Option<char>;

/// Relies on unicode_normalization::char::compose: canonical composition
/// of two characters, depending on the characters alone.
#[verifier::external_body]
fn compose_chars(a: char, b: char) -> (r: Option<char>)
    ensures
        r == compose_of(a, b),
{
    unicode_normalization::char::compose(a, b)
}

/// One step of the composition fold: `c` either composes into the last
/// character accumulated so far, or is appended unchanged.
pub open spec fn compose_step(acc: Seq<char>, c: char) -> Seq<char> {
    if acc.len() > 0 && compose_of(acc.last(), c) is Some {
        acc.update(acc.len() - 1, compose_of(acc.last(), c)->0)
    } else {
        acc.push(c)
    }
}

/// The left-to-right composition fold over a whole sequence.
pub open spec fn compose_fold(s: Seq<char>) -> Seq<char>
    decreases s.len(),
{
    if s.len() == 0 {
        Seq::empty()
    } else {
        compose_step(compose_fold(s.drop_last()), s.last())
    }
}

/// Folds adjacent canonical compositions into `seq`, left to right: each
/// character after the first is composed into the last character of the
/// output built so far whenever Unicode defines a composition for the
/// pair, and appended unchanged otherwise.  Order is preserved and only
/// adjacent pairs are considered.  An empty input yields an empty output.
pub fn compose_vec(seq: Vec<char>) -> (r: Vec<char>)
    ensures
        r@ == compose_fold(seq@),
{
    let mut acc: Vec<char> = Vec::new();
    let n = seq.len();
    let mut i: usize = 0;
    proof {
        assert(seq@.take(0) =~= Seq::<char>::empty());
    }
    while i < n
        invariant
            n == seq@.len(),
            i <= n,
            acc@ == compose_fold(seq@.take(i as int)),
        decreases n - i,
    {
        let c = seq[i];
        proof {
            assert(seq@.take(i + 1).drop_last() =~= seq@.take(i as int));
            assert(seq@.take(i + 1).last() == seq@[i as int]);
        }
        if acc.len() > 0 {
            let last = acc[acc.len() - 1];
            match compose_chars(last, c) {
                Some(out) => {
                    let idx = acc.len() - 1;
                    acc[idx] = out;
                },
                None => {
                    acc.push(c);
                },
            }
        } else {
            acc.push(c);
        }
        i += 1;
        proof {
            assert(acc@ =~= compose_fold(seq@.take(i as int)));
        }
    }
    proof {
        assert(seq@.take(n as int) =~= seq@);
    }
    acc
}

/// The named combining marks the layouts use, each with the combining
/// character placed above (or, for the iota subscript, below) its base.
pub struct CompositionMap {
    above: Vec<(String, char)>,
}

/// The combining-mark table: each mark name with its combining character.
pub open spec fn above_table() -> Seq<(Seq<char>, char)> {
    seq![
        ("grave"@, '\u{300}'),
        ("acute"@, '\u{301}'),
        ("circumflex"@, '\u{302}'),
        ("tilde"@, '\u{303}'),
        ("macron"@, '\u{304}'),
        ("overline"@, '\u{305}'),
        ("breve"@, '\u{306}'),
        ("dot above"@, '\u{307}'),
        ("diaresis"@, '\u{308}'),
        ("turned comma"@, '\u{312}'),
        ("comma"@, '\u{313}'),
        ("reversed comma"@, '\u{314}'),
        ("periposmeni"@, '\u{342}'),
        ("iota"@, '\u{345}'),
    ]
}

/// Whether `name` is one of the known combining-mark names.
pub open spec fn known_mark(name: Seq<char>) -> bool {
    ||| name == "grave"@
    ||| name == "acute"@
    ||| name == "circumflex"@
    ||| name == "tilde"@
    ||| name == "macron"@
    ||| name == "overline"@
    ||| name == "breve"@
    ||| name == "dot above"@
    ||| name == "diaresis"@
    ||| name == "turned comma"@
    ||| name == "comma"@
    ||| name == "reversed comma"@
    ||| name == "periposmeni"@
    ||| name == "iota"@
}

/// The combining character registered for `name`.
pub open spec fn mark_of(name: Seq<char>) -> char {
    if name == "grave"@ { '\u{300}' }
    else if name == "acute"@ { '\u{301}' }
    else if name == "circumflex"@ { '\u{302}' }
    else if name == "tilde"@ { '\u{303}' }
    else if name == "macron"@ { '\u{304}' }
    else if name == "overline"@ { '\u{305}' }
    else if name == "breve"@ { '\u{306}' }
    else if name == "dot above"@ { '\u{307}' }
    else if name == "diaresis"@ { '\u{308}' }
    else if name == "turned comma"@ { '\u{312}' }
    else if name == "comma"@ { '\u{313}' }
    else if name == "reversed comma"@ { '\u{314}' }
    else if name == "periposmeni"@ { '\u{342}' }
    else { '\u{345}' }
}

impl View for CompositionMap {
    type V = Seq<(Seq<char>, char)>;

    closed spec fn view(&self) -> Seq<(Seq<char>, char)> {
        self.above@.map_values(|p: (String, char)| (p.0@, p.1))
    }
}

impl CompositionMap {
    pub fn new() -> (r: Self)
        ensures
            r@ == above_table(),
    {
        let mut above: Vec<(String, char)> = Vec::new();
        above.push((String::from_str("grave"), '\u{300}'));
        above.push((String::from_str("acute"), '\u{301}'));
        above.push((String::from_str("circumflex"), '\u{302}'));
        above.push((String::from_str("tilde"), '\u{303}'));
        above.push((String::from_str("macron"), '\u{304}'));
        above.push((String::from_str("overline"), '\u{305}'));
        above.push((String::from_str("breve"), '\u{306}'));
        above.push((String::from_str("dot above"), '\u{307}'));
        above.push((String::from_str("diaresis"), '\u{308}'));
        above.push((String::from_str("turned comma"), '\u{312}'));
        above.push((String::from_str("comma"), '\u{313}'));
        above.push((String::from_str("reversed comma"), '\u{314}'));
        above.push((String::from_str("periposmeni"), '\u{342}'));
        above.push((String::from_str("iota"), '\u{345}'));
        let r = Self { above };
        proof {
            assert(r@ =~= above_table());
        }
        r
    }

    /// The combining character for a known mark name.
    pub fn above(&self, name: &str) -> (r: char)
        requires
            known_mark(name@),
        ensures
            r == mark_of(name@),
    {
        if str_eq(name, "grave") { '\u{300}' }
        else if str_eq(name, "acute") { '\u{301}' }
        else if str_eq(name, "circumflex") { '\u{302}' }
        else if str_eq(name, "tilde") { '\u{303}' }
        else if str_eq(name, "macron") { '\u{304}' }
        else if str_eq(name, "overline") { '\u{305}' }
        else if str_eq(name, "breve") { '\u{306}' }
        else if str_eq(name, "dot above") { '\u{307}' }
        else if str_eq(name, "diaresis") { '\u{308}' }
        else if str_eq(name, "turned comma") { '\u{312}' }
        else if str_eq(name, "comma") { '\u{313}' }
        else if str_eq(name, "reversed comma") { '\u{314}' }
        else if str_eq(name, "periposmeni") { '\u{342}' }
        else if str_eq(name, "iota") { '\u{345}' }
        else { vstd::pervasive::unreached() }
    }
}

} // verus!
