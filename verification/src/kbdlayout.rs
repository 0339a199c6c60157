//! The layout producers: each fills a [`crate::kbdwriter::KbdWriter`] with
//! named sections of `input sequence -> output string` rules.

pub mod greek;
pub mod latin;
pub mod russian;

use vstd::prelude::*;

verus! {

/// The keyboard layouts this library can generate.
#[derive(Clone, Copy, Debug, PartialEq, Eq, Structural)]
pub enum Layout {
    Greek,
    Latin,
    Russian,
}

impl Layout {
    /// Every layout, in declaration order.
    pub fn all() -> (r: Vec<Layout>)
        ensures
            r@ == seq![Layout::Greek, Layout::Latin, Layout::Russian],
    {
        let mut v: Vec<Layout> = Vec::new();
        v.push(Layout::Greek);
        v.push(Layout::Latin);
        v.push(Layout::Russian);
        proof {
            assert(v@ =~= seq![Layout::Greek, Layout::Latin, Layout::Russian]);
        }
        v
    }

    /// The name of the layout's variant.
    pub open spec fn spec_name(self) -> Seq<char> {
        match self {
            Layout::Greek => "Greek"@,
            Layout::Latin => "Latin"@,
            Layout::Russian => "Russian"@,
        }
    }

    /// The name of the layout's variant, as a fresh string.
    pub fn name(&self) -> (r: String)
        ensures
            r@ == self.spec_name(),
    {
        match self {
            Layout::Greek => String::from_str("Greek"),
            Layout::Latin => String::from_str("Latin"),
            Layout::Russian => String::from_str("Russian"),
        }
    }
}

} // verus!
