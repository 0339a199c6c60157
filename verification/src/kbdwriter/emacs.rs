//! The editor-macro rendering: a package definition from the metadata,
//! then every rule as a quail rule form.

use vstd::prelude::*;

use crate::kbdwriter::{meta_or_default, KbdMetaData, KbdWriter};
use crate::textops::{append_escaped, escape_quotes, push_char};

verus! {

/// What `convert_case` produces for kebab-case: lowercase words joined by
/// hyphens; a function of the characters alone.
pub uninterp spec fn kebab_of(s: Seq<char>) -> Seq<char>;

/// What `convert_case` produces for lower-case: lowercase words joined by
/// spaces; a function of the characters alone.
pub uninterp spec fn lower_of(s: Seq<char>) -> Seq<char>;

/// Relies on convert_case's Casing::to_case with the kebab case: the
/// result depends on the characters alone.
#[verifier::external_body]
fn to_kebab(s: &str) -> (r: String)
    ensures
        r@ == kebab_of(s@),
{
    convert_case::Casing::to_case(&s, convert_case::Case::Kebab)
}

/// Relies on convert_case's Casing::to_case with the lower case: the
/// result depends on the characters alone.
#[verifier::external_body]
fn to_lower(s: &str) -> (r: String)
    ensures
        r@ == lower_of(s@),
{
    convert_case::Casing::to_case(&s, convert_case::Case::Lower)
}

/// One rule form: the key and the output both quote-escaped, the output
/// as a character constant or, for longer outputs, as a string.
pub open spec fn emacs_pair_line(p: (Seq<char>, Seq<char>)) -> Seq<char> {
    if p.1.len() != 1 {
        "  (\""@ + escape_quotes(p.0) + "\", ?\""@ + escape_quotes(p.1) + "\")\n"@
    } else {
        "  (\""@ + escape_quotes(p.0) + "\", ?"@ + escape_quotes(p.1) + ")\n"@
    }
}

/// The first `k` rule forms of a section.
pub open spec fn emacs_pairs(ps: Seq<(Seq<char>, Seq<char>)>, k: int) -> Seq<char>
    decreases k,
{
    if k <= 0 {
        Seq::empty()
    } else {
        emacs_pairs(ps, k - 1) + emacs_pair_line(ps[k - 1])
    }
}

/// One section: a comment with its name, then its rule forms.
pub open spec fn emacs_section(sec: (Seq<char>, Seq<(Seq<char>, Seq<char>)>)) -> Seq<char> {
    "  ;; "@ + sec.0 + "\n"@ + emacs_pairs(sec.1, sec.1.len() as int)
}

/// The first `k` sections.
pub open spec fn emacs_sections(
    secs: Seq<(Seq<char>, Seq<(Seq<char>, Seq<char>)>)>,
    k: int,
) -> Seq<char>
    decreases k,
{
    if k <= 0 {
        Seq::empty()
    } else {
        emacs_sections(secs, k - 1) + emacs_section(secs[k - 1])
    }
}

/// The whole editor-macro document.
pub open spec fn emacs_doc(w: crate::kbdwriter::KbdWriterModel) -> Seq<char> {
    let meta = meta_or_default(w.metadata);
    "(quail-define-package\n"@ + "  \""@ + kebab_of(meta.language) + "\"\n"@ + "  \""@ + lower_of(
        meta.language_code,
    ) + "\"\n"@ + "  \""@ + meta.language + "\"\n"@ + "  t\n"@ + "  \""@ + meta.description
        + "\"\n"@ + "  nil t nil nil nil nil nil nil nil nil t\n"@ + ")\n"@
        + "(quail-define-rules\n"@ + emacs_sections(w.sections, w.sections.len() as int) + ")\n"@
}

/// Renders a [`KbdWriter`] as editor macros.
pub struct EmacsKbdWriter<'a> {
    pub kbd: &'a KbdWriter,
}

impl<'a> EmacsKbdWriter<'a> {
    pub fn new(kbd: &'a KbdWriter) -> (r: Self)
        ensures
            r.kbd == kbd,
    {
        Self { kbd }
    }

    /// The rendered document.
    #[verifier::rlimit(30)]
    pub fn render(&self) -> (r: String)
        ensures
            r@ == emacs_doc(self.kbd@),
    {
        let meta = match &self.kbd.metadata {
            Some(m) => m.clone(),
            None => KbdMetaData::default(),
        };
        proof {
            assert(meta@ == meta_or_default(self.kbd@.metadata));
        }
        let mut o = String::new();
        o.append("(quail-define-package\n");
        o.append("  \"");
        o.append(to_kebab(meta.language.as_str()).as_str());
        o.append("\"\n");
        o.append("  \"");
        o.append(to_lower(meta.language_code.as_str()).as_str());
        o.append("\"\n");
        o.append("  \"");
        o.append(meta.language.as_str());
        o.append("\"\n");
        o.append("  t\n");
        o.append("  \"");
        o.append(meta.description.as_str());
        o.append("\"\n");
        o.append("  nil t nil nil nil nil nil nil nil nil t\n");
        o.append(")\n");
        o.append("(quail-define-rules\n");
        let ghost base = o@;
        let n = self.kbd.sections.len();
        let mut i: usize = 0;
        proof {
            assert(o@ =~= base + emacs_sections(self.kbd@.sections, 0));
        }
        while i < n
            invariant
                n == self.kbd.sections@.len(),
                i <= n,
                o@ == base + emacs_sections(self.kbd@.sections, i as int),
            decreases n - i,
        {
            let ghost sec_start = o@;
            o.append("  ;; ");
            o.append(self.kbd.sections[i].0.as_str());
            o.append("\n");
            let pairs = self.kbd.sections[i].1.iter();
            let ghost ps = self.kbd@.sections[i as int].1;
            let pn = pairs.len();
            let mut j: usize = 0;
            let ghost pairs_start = o@;
            proof {
                assert(pairs@.len() == ps.len());
                assert(o@ =~= pairs_start + emacs_pairs(ps, 0));
            }
            while j < pn
                invariant
                    pn == pairs@.len(),
                    ps.len() == pn,
                    forall|t: int|
                        0 <= t < pn ==> (#[trigger] pairs@[t]).0@ == ps[t].0 && pairs@[t].1@
                            == ps[t].1,
                    j <= pn,
                    o@ == pairs_start + emacs_pairs(ps, j as int),
                decreases pn - j,
            {
                o.append("  (\"");
                append_escaped(&mut o, pairs[j].0.as_str());
                if pairs[j].1.as_str().unicode_len() != 1 {
                    o.append("\", ?\"");
                    append_escaped(&mut o, pairs[j].1.as_str());
                    o.append("\")\n");
                } else {
                    o.append("\", ?");
                    append_escaped(&mut o, pairs[j].1.as_str());
                    o.append(")\n");
                }
                j += 1;
                proof {
                    assert(o@ =~= pairs_start + emacs_pairs(ps, j as int));
                }
            }
            i += 1;
            proof {
                assert(o@ =~= sec_start + emacs_section(self.kbd@.sections[i - 1]));
                assert(o@ =~= base + emacs_sections(self.kbd@.sections, i as int));
            }
        }
        o.append(")\n");
        proof {
            assert(o@ =~= emacs_doc(self.kbd@));
        }
        o
    }
}

} // verus!
