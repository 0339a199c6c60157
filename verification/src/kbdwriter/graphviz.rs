//! The diagnostic-graph rendering: builds the merged automaton from the
//! writer's sections and renders it with the default style.

use vstd::prelude::*;

use crate::automaton::{
    default_style, gv_doc, lemma_build_from_props, lemma_init_model_wf, section_pairs, spec_build,
    Automaton, AutomatonStyle,
};
use crate::kbdwriter::KbdWriter;

verus! {

/// Renders a [`KbdWriter`] as a diagnostic graph of its automaton.
pub struct GraphVizKbdWriter<'a> {
    pub kbd: &'a KbdWriter,
}

impl<'a> GraphVizKbdWriter<'a> {
    pub fn new(kbd: &'a KbdWriter) -> (r: Self)
        ensures
            r.kbd == kbd,
    {
        Self { kbd }
    }

    /// The rendered document: the graph of the automaton built from the
    /// writer's sections, with the section names as cluster labels and
    /// the default style.
    pub fn render(&self) -> (r: String)
        ensures
            r@ == gv_doc(
                spec_build(section_pairs(self.kbd@.sections)).0,
                crate::automaton::section_names(self.kbd@.sections),
                spec_build(section_pairs(self.kbd@.sections)).1,
                default_style(),
            ),
    {
        let (automaton, ranges, _conflicts) = Automaton::from_writer(self.kbd);
        proof {
            lemma_init_model_wf();
            lemma_build_from_props(crate::automaton::init_model(), section_pairs(self.kbd@.sections));
            assert forall|i: int| 0 <= i < ranges@.len() implies (#[trigger] ranges@[i])
                < automaton.states@.len() by {
                assert(crate::automaton::usizes(ranges@)[i] == ranges@[i] as int);
            }
        }
        let style = AutomatonStyle::default();
        let mut output = String::new();
        automaton.write(&mut output, &ranges, self.kbd, &style);
        output
    }
}

} // verus!
