//! The plain-list rendering: metadata, then every section with its rules,
//! one per line.

use vstd::prelude::*;

use crate::kbdwriter::{meta_or_default, KbdMetaData, KbdWriter};

verus! {

/// One rule line.
pub open spec fn list_pair_line(p: (Seq<char>, Seq<char>)) -> Seq<char> {
    "    〈"@ + p.0 + "〉 → 〈"@ + p.1 + "〉\n"@
}

/// The first `k` rule lines of a section.
pub open spec fn list_pairs(ps: Seq<(Seq<char>, Seq<char>)>, k: int) -> Seq<char>
    decreases k,
{
    if k <= 0 {
        Seq::empty()
    } else {
        list_pairs(ps, k - 1) + list_pair_line(ps[k - 1])
    }
}

/// One section: its name, then its rules.
pub open spec fn list_section(sec: (Seq<char>, Seq<(Seq<char>, Seq<char>)>)) -> Seq<char> {
    "  "@ + sec.0 + "\n"@ + list_pairs(sec.1, sec.1.len() as int)
}

/// The first `k` sections.
pub open spec fn list_sections(
    secs: Seq<(Seq<char>, Seq<(Seq<char>, Seq<char>)>)>,
    k: int,
) -> Seq<char>
    decreases k,
{
    if k <= 0 {
        Seq::empty()
    } else {
        list_sections(secs, k - 1) + list_section(secs[k - 1])
    }
}

/// The whole plain-list document.
pub open spec fn list_doc(w: crate::kbdwriter::KbdWriterModel) -> Seq<char> {
    let meta = meta_or_default(w.metadata);
    meta.language + " ("@ + meta.language_code + ")\n"@ + meta.description + "\n"@
        + "----------------\n"@ + list_sections(w.sections, w.sections.len() as int)
}

/// Renders a [`KbdWriter`] as a plain list.
pub struct ListKbdWriter<'a> {
    pub kbd: &'a KbdWriter,
}

impl<'a> ListKbdWriter<'a> {
    pub fn new(kbd: &'a KbdWriter) -> (r: Self)
        ensures
            r.kbd == kbd,
    {
        Self { kbd }
    }

    /// The rendered document.
    pub fn render(&self) -> (r: String)
        ensures
            r@ == list_doc(self.kbd@),
    {
        let meta = match &self.kbd.metadata {
            Some(m) => m.clone(),
            None => KbdMetaData::default(),
        };
        proof {
            assert(meta@ == meta_or_default(self.kbd@.metadata));
        }
        let mut o = String::new();
        o.append(meta.language.as_str());
        o.append(" (");
        o.append(meta.language_code.as_str());
        o.append(")\n");
        o.append(meta.description.as_str());
        o.append("\n");
        o.append("----------------\n");
        let ghost base = o@;
        let n = self.kbd.sections.len();
        let mut i: usize = 0;
        proof {
            assert(o@ =~= base + list_sections(self.kbd@.sections, 0));
        }
        while i < n
            invariant
                n == self.kbd.sections@.len(),
                i <= n,
                o@ == base + list_sections(self.kbd@.sections, i as int),
            decreases n - i,
        {
            let ghost sec_start = o@;
            o.append("  ");
            o.append(self.kbd.sections[i].0.as_str());
            o.append("\n");
            let pairs = self.kbd.sections[i].1.iter();
            let ghost ps = self.kbd@.sections[i as int].1;
            let pn = pairs.len();
            let mut j: usize = 0;
            let ghost pairs_start = o@;
            proof {
                assert(pairs@.len() == ps.len());
                assert(o@ =~= pairs_start + list_pairs(ps, 0));
            }
            while j < pn
                invariant
                    pn == pairs@.len(),
                    ps.len() == pn,
                    forall|t: int|
                        0 <= t < pn ==> (#[trigger] pairs@[t]).0@ == ps[t].0 && pairs@[t].1@
                            == ps[t].1,
                    j <= pn,
                    o@ == pairs_start + list_pairs(ps, j as int),
                decreases pn - j,
            {
                o.append("    〈");
                o.append(pairs[j].0.as_str());
                o.append("〉 → 〈");
                o.append(pairs[j].1.as_str());
                o.append("〉\n");
                j += 1;
                proof {
                    assert(o@ =~= pairs_start + list_pairs(ps, j as int));
                }
            }
            i += 1;
            proof {
                assert(o@ =~= sec_start + list_section(self.kbd@.sections[i - 1]));
                assert(o@ =~= base + list_sections(self.kbd@.sections, i as int));
            }
        }
        proof {
            assert(o@ =~= list_doc(self.kbd@));
        }
        o
    }
}

} // verus!
