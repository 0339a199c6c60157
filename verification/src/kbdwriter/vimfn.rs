//! The editor-function rendering: a comment from the metadata, then one
//! insert-mode mapping per rule inside a function definition.

use vstd::prelude::*;

use crate::kbdwriter::{meta_or_default, KbdMetaData, KbdWriter};
use crate::textops::push_char;

verus! {

/// What `convert_case` produces for snake_case: lowercase words joined by
/// underscores; a function of the characters alone.
pub uninterp spec fn snake_of(s: Seq<char>) -> Seq<char>;

/// Relies on convert_case's Casing::to_case with the snake case: the
/// result depends on the characters alone.
#[verifier::external_body]
fn to_snake(s: &str) -> (r: String)
    ensures
        r@ == snake_of(s@),
{
    convert_case::Casing::to_case(&s, convert_case::Case::Snake)
}

/// One character of an imap argument: the characters the command line
/// treats specially -- the space that separates the arguments, the `<`
/// that opens key notation, and the `|` that ends a command -- are
/// encoded in key notation; every other character stands for itself.
pub open spec fn vim_encode_char(c: char) -> Seq<char> {
    if c == ' ' {
        "<Space>"@
    } else if c == '<' {
        "<lt>"@
    } else if c == '|' {
        "<Bar>"@
    } else {
        seq![c]
    }
}

/// A string as an imap argument, character by character.
pub open spec fn vim_encode(s: Seq<char>) -> Seq<char>
    decreases s.len(),
{
    if s.len() == 0 {
        Seq::empty()
    } else {
        vim_encode(s.drop_last()) + vim_encode_char(s.last())
    }
}

/// Appends `s` to `out` encoded as an imap argument.
fn append_vim_encoded(out: &mut String, s: &str)
    ensures
        final(out)@ == old(out)@ + vim_encode(s@),
{
    let len = s.unicode_len();
    let mut i: usize = 0;
    proof {
        assert(s@.take(0) =~= Seq::<char>::empty());
        assert(out@ =~= old(out)@ + vim_encode(s@.take(0)));
    }
    while i < len
        invariant
            len == s@.len(),
            i <= len,
            out@ == old(out)@ + vim_encode(s@.take(i as int)),
        decreases len - i,
    {
        let c = s.get_char(i);
        if c == ' ' {
            out.append("<Space>");
        } else if c == '<' {
            out.append("<lt>");
        } else if c == '|' {
            out.append("<Bar>");
        } else {
            push_char(out, c);
        }
        i += 1;
        proof {
            assert(s@.take(i as int).drop_last() =~= s@.take(i - 1));
            assert(s@.take(i as int).last() == s@[i - 1]);
            assert(out@ =~= old(out)@ + vim_encode(s@.take(i as int)));
        }
    }
    proof {
        assert(s@.take(len as int) =~= s@);
    }
}

/// One mapping line, both fields encoded as imap arguments.
pub open spec fn vim_pair_line(p: (Seq<char>, Seq<char>)) -> Seq<char> {
    "   imap "@ + vim_encode(p.0) + " "@ + vim_encode(p.1) + "\n"@
}

/// The first `k` mapping lines of a section.
pub open spec fn vim_pairs(ps: Seq<(Seq<char>, Seq<char>)>, k: int) -> Seq<char>
    decreases k,
{
    if k <= 0 {
        Seq::empty()
    } else {
        vim_pairs(ps, k - 1) + vim_pair_line(ps[k - 1])
    }
}

/// One section: a comment with its name, then its mappings.
pub open spec fn vim_section(sec: (Seq<char>, Seq<(Seq<char>, Seq<char>)>)) -> Seq<char> {
    "   \" "@ + sec.0 + "\n"@ + vim_pairs(sec.1, sec.1.len() as int)
}

/// The first `k` sections.
pub open spec fn vim_sections(
    secs: Seq<(Seq<char>, Seq<(Seq<char>, Seq<char>)>)>,
    k: int,
) -> Seq<char>
    decreases k,
{
    if k <= 0 {
        Seq::empty()
    } else {
        vim_sections(secs, k - 1) + vim_section(secs[k - 1])
    }
}

/// The whole editor-function document.
pub open spec fn vim_doc(w: crate::kbdwriter::KbdWriterModel) -> Seq<char> {
    let meta = meta_or_default(w.metadata);
    "\" "@ + meta.language + " ("@ + meta.language_code + ")\n"@ + "\" "@ + meta.description
        + "\n"@ + "function kbdmap_"@ + snake_of(meta.language) + "()\n"@ + vim_sections(
        w.sections,
        w.sections.len() as int,
    ) + "endfunction\n"@
}

/// Renders a [`KbdWriter`] as an editor function.
pub struct VimFnKbdWriter<'a> {
    pub kbd: &'a KbdWriter,
}

impl<'a> VimFnKbdWriter<'a> {
    pub fn new(kbd: &'a KbdWriter) -> (r: Self)
        ensures
            r.kbd == kbd,
    {
        Self { kbd }
    }

    /// The rendered document.
    pub fn render(&self) -> (r: String)
        ensures
            r@ == vim_doc(self.kbd@),
    {
        let meta = match &self.kbd.metadata {
            Some(m) => m.clone(),
            None => KbdMetaData::default(),
        };
        proof {
            assert(meta@ == meta_or_default(self.kbd@.metadata));
        }
        let mut o = String::new();
        o.append("\" ");
        o.append(meta.language.as_str());
        o.append(" (");
        o.append(meta.language_code.as_str());
        o.append(")\n");
        o.append("\" ");
        o.append(meta.description.as_str());
        o.append("\n");
        o.append("function kbdmap_");
        o.append(to_snake(meta.language.as_str()).as_str());
        o.append("()\n");
        let ghost base = o@;
        let n = self.kbd.sections.len();
        let mut i: usize = 0;
        proof {
            assert(o@ =~= base + vim_sections(self.kbd@.sections, 0));
        }
        while i < n
            invariant
                n == self.kbd.sections@.len(),
                i <= n,
                o@ == base + vim_sections(self.kbd@.sections, i as int),
            decreases n - i,
        {
            let ghost sec_start = o@;
            o.append("   \" ");
            o.append(self.kbd.sections[i].0.as_str());
            o.append("\n");
            let pairs = self.kbd.sections[i].1.iter();
            let ghost ps = self.kbd@.sections[i as int].1;
            let pn = pairs.len();
            let mut j: usize = 0;
            let ghost pairs_start = o@;
            proof {
                assert(pairs@.len() == ps.len());
                assert(o@ =~= pairs_start + vim_pairs(ps, 0));
            }
            while j < pn
                invariant
                    pn == pairs@.len(),
                    ps.len() == pn,
                    forall|t: int|
                        0 <= t < pn ==> (#[trigger] pairs@[t]).0@ == ps[t].0 && pairs@[t].1@
                            == ps[t].1,
                    j <= pn,
                    o@ == pairs_start + vim_pairs(ps, j as int),
                decreases pn - j,
            {
                o.append("   imap ");
                append_vim_encoded(&mut o, pairs[j].0.as_str());
                o.append(" ");
                append_vim_encoded(&mut o, pairs[j].1.as_str());
                o.append("\n");
                j += 1;
                proof {
                    assert(o@ =~= pairs_start + vim_pairs(ps, j as int));
                }
            }
            i += 1;
            proof {
                assert(o@ =~= sec_start + vim_section(self.kbd@.sections[i - 1]));
                assert(o@ =~= base + vim_sections(self.kbd@.sections, i as int));
            }
        }
        o.append("endfunction\n");
        proof {
            assert(o@ =~= vim_doc(self.kbd@));
        }
        o
    }
}

} // verus!
