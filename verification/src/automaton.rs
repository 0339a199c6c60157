//! The shared-prefix automaton: a deterministic state graph built
//! incrementally from sections of `input sequence -> output string` rules,
//! a matcher that evaluates input strings against it, and serializers that
//! render it.
//!
//! States are numbered densely from `0` (the start state, shared by every
//! section).  Each state owns its outgoing edges, one per distinct input
//! character; the edge lists are the single source of truth for the
//! transition relation.  Matching follows the single-path discipline: the
//! construction guarantees at most one transition per state and character,
//! so the matcher keeps one current state and fails as soon as a character
//! has no transition.  The whole build is pinned, state by state, to the
//! functional description [`spec_build`], which is what the matching and
//! conflict-resolution laws are proved about.

use vstd::prelude::*;

use crate::kbdwriter::{KbdMap, KbdWriter};
use crate::textops::{
    append_escaped, append_usize, append_usize_pad, dec_str, dec_str_pad, escape_quotes, push_char,
    str_eq,
};

verus! {

/// The boundary list as mathematical integers.
pub open spec fn usizes(v: Seq<usize>) -> Seq<int> {
    v.map_values(|x: usize| x as int)
}

/// The mathematical value of one [`State`]: its outgoing edges in creation
/// order, its diagnostic label, and its accept value if any.
#[verifier::ext_equal]
pub struct StateModel {
    pub edges: Seq<(char, int)>,
    pub label: Seq<char>,
    pub accepting: Option<Seq<char>>,
}

/// The mathematical value of an [`Automaton`]: its states, indexed by id.
/// The start state is id `0`.
#[verifier::ext_equal]
pub struct AutoModel {
    pub states: Seq<StateModel>,
}

/// The target of the first edge in `edges` labelled `c`, if any.
pub open spec fn edge_lookup(edges: Seq<(char, int)>, c: char) -> Option<int>
    decreases edges.len(),
{
    if edges.len() == 0 {
        None
    } else if edges[0].0 == c {
        Some(edges[0].1)
    } else {
        edge_lookup(edges.drop_first(), c)
    }
}

impl AutoModel {
    pub open spec fn in_range(self, s: int) -> bool {
        0 <= s < self.states.len()
    }

    /// The deterministic transition function: the state reached from `s` on
    /// input character `c`, if a transition exists.
    pub open spec fn step(self, s: int, c: char) -> Option<int> {
        if self.in_range(s) {
            edge_lookup(self.states[s].edges, c)
        } else {
            None
        }
    }

    /// The state reached from `s` after consuming all of `cs`, if every
    /// character has a transition.
    pub open spec fn walk_from(self, s: int, cs: Seq<char>) -> Option<int>
        decreases cs.len(),
    {
        if cs.len() == 0 {
            Some(s)
        } else {
            match self.step(s, cs[0]) {
                Some(t) => self.walk_from(t, cs.drop_first()),
                None => None,
            }
        }
    }

    /// The state reached from the start state after consuming `cs`.
    pub open spec fn walk(self, cs: Seq<char>) -> Option<int> {
        self.walk_from(0, cs)
    }

    pub open spec fn accept_of(self, s: int) -> Option<Seq<char>>
        recommends
            self.in_range(s),
    {
        self.states[s].accepting
    }

    /// What matching `cs` yields: the accept value of the state the walk
    /// ends in, or nothing when the walk falls off the graph or ends in a
    /// non-accepting state.
    pub open spec fn match_result(self, cs: Seq<char>) -> Option<Seq<char>> {
        match self.walk(cs) {
            Some(t) => self.accept_of(t),
            None => None,
        }
    }

    /// Every edge of state `s` stays inside the graph and leads strictly
    /// forward, and no two of its edges carry the same character.
    pub open spec fn state_ok(self, s: int) -> bool {
        let es = self.states[s].edges;
        &&& forall|i: int| 0 <= i < es.len() ==> s < (#[trigger] es[i]).1 < self.states.len()
        &&& forall|i: int, j: int| #![trigger es[i], es[j]] 0 <= i < j < es.len() ==> es[i].0 != es[j].0
    }

    /// Well-formedness: the start state exists and every state's edges are
    /// in order.
    pub open spec fn wf(self) -> bool {
        &&& self.states.len() >= 1
        &&& forall|s: int| 0 <= s < self.states.len() ==> self.state_ok(s)
    }
}

/// One node of the automaton.
pub struct State {
    /// This state's id; equal to its index in the automaton's state list.
    pub state_num: usize,
    /// Outgoing edges `(character, target id)`, in creation order.
    pub next: Vec<(char, usize)>,
    /// The input characters consumed on the way here, for diagnostics and
    /// serialization (`"start"` for the start state).
    pub label: String,
    /// The output attached here, present exactly when some complete input
    /// sequence ends in this state.
    pub accepting: Option<String>,
}

impl View for State {
    type V = StateModel;

    open spec fn view(&self) -> StateModel {
        StateModel {
            edges: self.next@.map_values(|e: (char, usize)| (e.0, e.1 as int)),
            label: self.label@,
            accepting: match self.accepting {
                Some(ref s) => Some(s@),
                None => None,
            },
        }
    }
}

/// The deterministic shared-prefix automaton.
pub struct Automaton {
    /// All states, indexed by id.
    pub states: Vec<State>,
    /// The id of the start state; always `0`.
    pub start_state: usize,
}

impl View for Automaton {
    type V = AutoModel;

    open spec fn view(&self) -> AutoModel {
        AutoModel { states: self.states@.map_values(|st: State| st@) }
    }
}

impl Automaton {
    /// Well-formedness of the executable representation: the model is well
    /// formed, the start state is `0`, and each state records its own index
    /// as its id.
    pub open spec fn wf(self) -> bool {
        &&& self@.wf()
        &&& self.start_state == 0
        &&& forall|i: int|
            0 <= i < self.states@.len() ==> (#[trigger] self.states@[i]).state_num == i
    }
}

/// The mathematical value of one [`MapConflict`].
#[verifier::ext_equal]
pub struct ConflictModel {
    pub sequence: Seq<char>,
    pub kept: Seq<char>,
    pub rejected: Seq<char>,
}

/// A build-time diagnostic: `sequence` was registered a second time with a
/// different output.  The earlier `kept` output stays in force and the new
/// `rejected` one is dropped.  Conflicts never stop a build; callers decide
/// how to report them.
pub struct MapConflict {
    pub sequence: String,
    pub kept: String,
    pub rejected: String,
}

impl View for MapConflict {
    type V = ConflictModel;

    open spec fn view(&self) -> ConflictModel {
        ConflictModel { sequence: self.sequence@, kept: self.kept@, rejected: self.rejected@ }
    }
}

/// The conflict list as mathematical values.
pub open spec fn conflicts_of(v: Seq<MapConflict>) -> Seq<ConflictModel> {
    v.map_values(|c: MapConflict| c@)
}

/// `m` with the accept value of state `s` set to `out`.
pub open spec fn set_accept(m: AutoModel, s: int, out: Seq<char>) -> AutoModel {
    AutoModel {
        states: m.states.update(
            s,
            StateModel { accepting: Some(out), ..m.states[s] },
        ),
    }
}

/// `m` extended with a fresh state reached from `s` on `c` and labelled
/// `label`.  The new state takes the next free id, `m.states.len()`.
pub open spec fn add_state(m: AutoModel, s: int, c: char, label: Seq<char>) -> AutoModel {
    let t = m.states.len() as int;
    AutoModel {
        states: m.states.update(
            s,
            StateModel { edges: m.states[s].edges.push((c, t)), ..m.states[s] },
        ).push(StateModel { edges: Seq::empty(), label, accepting: None }),
    }
}

/// One registration step of the builder, part way through a sequence:
/// from state `s`, having already consumed `prefix`, consume `rest` --
/// reusing existing transitions and allocating fresh states where none
/// exists -- and then attach `out` to the final state.  An accept value
/// already present is never overwritten: an equal value is accepted
/// silently, a different one yields a conflict naming both.
pub open spec fn spec_insert_from(
    m: AutoModel,
    s: int,
    prefix: Seq<char>,
    rest: Seq<char>,
    out: Seq<char>,
) -> (AutoModel, Option<ConflictModel>)
    decreases rest.len(),
{
    if rest.len() == 0 {
        match m.states[s].accepting {
            None => (set_accept(m, s, out), None),
            Some(v) => if v == out {
                (m, None)
            } else {
                (m, Some(ConflictModel { sequence: prefix, kept: v, rejected: out }))
            },
        }
    } else {
        let c = rest[0];
        match m.step(s, c) {
            Some(t) => spec_insert_from(m, t, prefix.push(c), rest.drop_first(), out),
            None => spec_insert_from(
                add_state(m, s, c, prefix.push(c)),
                m.states.len() as int,
                prefix.push(c),
                rest.drop_first(),
                out,
            ),
        }
    }
}

/// Registration of one complete `seq -> out` rule, from the start state.
pub open spec fn spec_insert(m: AutoModel, seq: Seq<char>, out: Seq<char>) -> (
    AutoModel,
    Option<ConflictModel>,
) {
    spec_insert_from(m, 0, Seq::empty(), seq, out)
}

/// The conflict of one insertion as a (possibly empty) list.
pub open spec fn conflict_seq(c: Option<ConflictModel>) -> Seq<ConflictModel> {
    match c {
        None => Seq::empty(),
        Some(x) => seq![x],
    }
}

/// Folding one section's pairs into the automaton, in order, collecting
/// the conflicts they raise.
pub open spec fn spec_join(m: AutoModel, pairs: Seq<(Seq<char>, Seq<char>)>) -> (
    AutoModel,
    Seq<ConflictModel>,
)
    decreases pairs.len(),
{
    if pairs.len() == 0 {
        (m, Seq::empty())
    } else {
        let step = spec_insert(m, pairs[0].0, pairs[0].1);
        let restr = spec_join(step.0, pairs.drop_first());
        (restr.0, conflict_seq(step.1) + restr.1)
    }
}

/// Folding a whole section list into the automaton, in order.  Besides the
/// final automaton and the conflicts, yields one boundary per section: the
/// highest state id allocated once that section was folded in.
pub open spec fn spec_build_from(m: AutoModel, secs: Seq<Seq<(Seq<char>, Seq<char>)>>) -> (
    AutoModel,
    Seq<int>,
    Seq<ConflictModel>,
)
    decreases secs.len(),
{
    if secs.len() == 0 {
        (m, Seq::empty(), Seq::empty())
    } else {
        let step = spec_join(m, secs[0]);
        let restr = spec_build_from(step.0, secs.drop_first());
        (restr.0, seq![step.0.states.len() - 1] + restr.1, step.1 + restr.2)
    }
}

/// The whole build: the section list folded into the initial automaton.
pub open spec fn spec_build(secs: Seq<Seq<(Seq<char>, Seq<char>)>>) -> (
    AutoModel,
    Seq<int>,
    Seq<ConflictModel>,
) {
    spec_build_from(init_model(), secs)
}

/// The pair lists of a writer's sections, with the names dropped: what the
/// build consumes.
pub open spec fn section_pairs(secs: Seq<(Seq<char>, Seq<(Seq<char>, Seq<char>)>)>) -> Seq<
    Seq<(Seq<char>, Seq<char>)>,
> {
    secs.map_values(|s: (Seq<char>, Seq<(Seq<char>, Seq<char>)>)| s.1)
}

/// An edge lookup misses exactly when no edge carries the character.
pub proof fn lemma_edge_lookup_none(es: Seq<(char, int)>, c: char)
    ensures
        edge_lookup(es, c) is None <==> (forall|k: int| 0 <= k < es.len() ==> (#[trigger] es[k]).0
            != c),
    decreases es.len(),
{
    if es.len() > 0 {
        lemma_edge_lookup_none(es.drop_first(), c);
        assert(forall|k: int|
            1 <= k < es.len() ==> (#[trigger] es[k]) == es.drop_first()[k - 1]);
    }
}

/// Setting an accept value keeps the automaton well formed: no edge moves.
pub proof fn lemma_set_accept_wf(m: AutoModel, s: int, out: Seq<char>)
    requires
        m.wf(),
        m.in_range(s),
    ensures
        set_accept(m, s, out).wf(),
        set_accept(m, s, out).states.len() == m.states.len(),
{
    let m2 = set_accept(m, s, out);
    assert forall|t: int| 0 <= t < m2.states.len() implies m2.state_ok(t) by {
        assert(m.state_ok(t));
        assert(m2.states[t].edges == m.states[t].edges);
    }
}

/// Allocating a fresh state keeps the automaton well formed, provided the
/// source state had no edge on the character yet.
pub proof fn lemma_add_state_wf(m: AutoModel, s: int, c: char, label: Seq<char>)
    requires
        m.wf(),
        m.in_range(s),
        m.step(s, c) is None,
    ensures
        add_state(m, s, c, label).wf(),
        add_state(m, s, c, label).states.len() == m.states.len() + 1,
{
    let m2 = add_state(m, s, c, label);
    let t_new = m.states.len() as int;
    lemma_edge_lookup_none(m.states[s].edges, c);
    assert forall|t: int| 0 <= t < m2.states.len() implies m2.state_ok(t) by {
        if t == t_new {
            assert(m2.states[t].edges =~= Seq::<(char, int)>::empty());
        } else if t == s {
            assert(m.state_ok(t));
            let es = m2.states[t].edges;
            assert(es =~= m.states[s].edges.push((c, t_new)));
            assert(forall|i: int| 0 <= i < es.len() - 1 ==> (#[trigger] es[i]) == m.states[s].edges[i]);
        } else {
            assert(m.state_ok(t));
            assert(m2.states[t].edges == m.states[t].edges);
        }
    }
}

/// A hit in an edge list is still a hit, with the same target, after an
/// edge is appended.
pub proof fn lemma_edge_lookup_push_some(es: Seq<(char, int)>, e: (char, int), c: char)
    requires
        edge_lookup(es, c) is Some,
    ensures
        edge_lookup(es.push(e), c) == edge_lookup(es, c),
    decreases es.len(),
{
    if es.len() > 0 {
        if es[0].0 == c {
            assert(es.push(e)[0] == es[0]);
        } else {
            lemma_edge_lookup_push_some(es.drop_first(), e, c);
            assert(es.push(e).drop_first() =~= es.drop_first().push(e));
        }
    }
}

/// Appending an edge on a character the list missed makes lookups on that
/// character find it.
pub proof fn lemma_edge_lookup_push_new(es: Seq<(char, int)>, e: (char, int))
    requires
        edge_lookup(es, e.0) is None,
    ensures
        edge_lookup(es.push(e), e.0) == Some(e.1),
    decreases es.len(),
{
    if es.len() > 0 {
        lemma_edge_lookup_push_new(es.drop_first(), e);
        assert(es.push(e).drop_first() =~= es.drop_first().push(e));
    } else {
        assert(es.push(e).drop_first() =~= Seq::<(char, int)>::empty());
    }
}

/// A lookup on any other character is unaffected by an appended edge.
pub proof fn lemma_edge_lookup_push_other(es: Seq<(char, int)>, e: (char, int), c: char)
    requires
        c != e.0,
    ensures
        edge_lookup(es.push(e), c) == edge_lookup(es, c),
    decreases es.len(),
{
    if es.len() > 0 {
        lemma_edge_lookup_push_other(es.drop_first(), e, c);
        assert(es.push(e)[0] == es[0]);
        assert(es.push(e).drop_first() =~= es.drop_first().push(e));
    } else {
        assert(es.push(e)[0] == e);
        assert(es.push(e).drop_first() =~= Seq::<(char, int)>::empty());
        assert(edge_lookup(Seq::<(char, int)>::empty(), c) is None);
        assert(edge_lookup(es.push(e), c) is None);
        assert(edge_lookup(es, c) is None);
    }
}

/// No two edges anywhere in the automaton share a target: every state is
/// reached by at most one transition, so the graph is a tree rooted in
/// the start state.  The builder only ever creates fresh targets, so this
/// holds of everything it produces.
pub open spec fn tree_ok(m: AutoModel) -> bool {
    forall|s1: int, i1: int, s2: int, i2: int|
        #![trigger m.states[s1].edges[i1], m.states[s2].edges[i2]]
        0 <= s1 < m.states.len() && 0 <= i1 < m.states[s1].edges.len() && 0 <= s2
            < m.states.len() && 0 <= i2 < m.states[s2].edges.len() && (s1 != s2 || i1 != i2)
            ==> m.states[s1].edges[i1].1 != m.states[s2].edges[i2].1
}

/// `m2` extends `m1` when everything `m1` established still holds in `m2`:
/// no state disappears, no existing transition moves, and no accept value
/// already present changes.  The builder only ever extends its automaton.
pub open spec fn extends(m2: AutoModel, m1: AutoModel) -> bool {
    &&& m2.states.len() >= m1.states.len()
    &&& forall|u: int, c: char|
        m1.step(u, c) is Some ==> #[trigger] m2.step(u, c) == m1.step(u, c)
    &&& forall|u: int|
        0 <= u < m1.states.len() && m1.accept_of(u) is Some ==> #[trigger] m2.accept_of(u)
            == m1.accept_of(u)
}

pub proof fn lemma_extends_refl(m: AutoModel)
    ensures
        extends(m, m),
{
}

pub proof fn lemma_extends_trans(m3: AutoModel, m2: AutoModel, m1: AutoModel)
    requires
        extends(m3, m2),
        extends(m2, m1),
    ensures
        extends(m3, m1),
{
}

/// A walk that succeeded keeps its exact endpoint in any extension: the
/// extension cannot move or remove the transitions the walk used.
pub proof fn lemma_extends_walk(m2: AutoModel, m1: AutoModel, u: int, cs: Seq<char>)
    requires
        extends(m2, m1),
        m1.walk_from(u, cs) is Some,
    ensures
        m2.walk_from(u, cs) == m1.walk_from(u, cs),
    decreases cs.len(),
{
    if cs.len() > 0 {
        let t = m1.step(u, cs[0])->0;
        lemma_extends_walk(m2, m1, t, cs.drop_first());
    }
}

/// A match that succeeded keeps its exact result in any extension.
pub proof fn lemma_extends_match(m2: AutoModel, m1: AutoModel, cs: Seq<char>)
    requires
        extends(m2, m1),
        m1.wf(),
        m1.match_result(cs) is Some,
    ensures
        m2.match_result(cs) == m1.match_result(cs),
{
    lemma_extends_walk(m2, m1, 0, cs);
    lemma_walk_in_range(m1, 0, cs);
}

/// A successful walk from a state inside the graph ends inside the graph.
pub proof fn lemma_walk_in_range(m: AutoModel, u: int, cs: Seq<char>)
    requires
        m.wf(),
        m.in_range(u),
        m.walk_from(u, cs) is Some,
    ensures
        m.in_range(m.walk_from(u, cs)->0),
    decreases cs.len(),
{
    if cs.len() > 0 {
        let t = m.step(u, cs[0])->0;
        lemma_step_in_range(m, u, cs[0]);
        lemma_walk_in_range(m, t, cs.drop_first());
    }
}

/// A transition that exists leads to a state inside the graph.
pub proof fn lemma_step_in_range(m: AutoModel, u: int, c: char)
    requires
        m.wf(),
        m.step(u, c) is Some,
    ensures
        m.in_range(m.step(u, c)->0),
{
    lemma_edge_lookup_in_edges(m.states[u].edges, c);
    assert(m.state_ok(u));
}

/// A successful lookup returns the target of some edge in the list.
pub proof fn lemma_edge_lookup_in_edges(es: Seq<(char, int)>, c: char)
    requires
        edge_lookup(es, c) is Some,
    ensures
        exists|k: int| 0 <= k < es.len() && (#[trigger] es[k]) == (c, edge_lookup(es, c)->0),
    decreases es.len(),
{
    if es.len() > 0 {
        if es[0].0 == c {
            assert(es[0] == (c, edge_lookup(es, c)->0));
        } else {
            lemma_edge_lookup_in_edges(es.drop_first(), c);
            let k = choose|k: int|
                0 <= k < es.drop_first().len() && (#[trigger] es.drop_first()[k]) == (
                    c,
                    edge_lookup(es.drop_first(), c)->0,
                );
            assert(es[k + 1] == es.drop_first()[k]);
        }
    }
}

/// What one registration does, in full: the automaton is extended, the
/// registered sequence is walkable afterwards, a conflict-free
/// registration leaves the sequence accepting `out`, and a conflict names
/// the sequence, the value kept (which stays in force) and the value
/// rejected.  A sequence that was not yet walkable allocates at least one
/// state and never conflicts.
pub proof fn lemma_insert_from_props(
    m: AutoModel,
    s: int,
    prefix: Seq<char>,
    rest: Seq<char>,
    out: Seq<char>,
)
    requires
        m.wf(),
        m.in_range(s),
    ensures
        ({
            let r = spec_insert_from(m, s, prefix, rest, out);
            &&& r.0.wf()
            &&& extends(r.0, m)
            &&& r.0.walk_from(s, rest) is Some
            &&& r.0.in_range(r.0.walk_from(s, rest)->0)
            &&& (r.1 is None ==> r.0.accept_of(r.0.walk_from(s, rest)->0) == Some(out))
            &&& (r.1 is Some ==> {
                let cm = r.1->0;
                &&& cm.sequence == prefix + rest
                &&& cm.rejected == out
                &&& cm.kept != out
                &&& r.0.accept_of(r.0.walk_from(s, rest)->0) == Some(cm.kept)
                &&& m.walk_from(s, rest) is Some
                &&& m.accept_of(m.walk_from(s, rest)->0) == Some(cm.kept)
            })
            &&& (m.walk_from(s, rest) is None ==> r.0.states.len() > m.states.len() && r.1
                is None)
            &&& (m.walk_from(s, rest) is Some ==> r.0.walk_from(s, rest) == m.walk_from(s, rest))
            &&& (r.0.states.len() == m.states.len() ==> forall|u: int, c: char|
                #[trigger] r.0.step(u, c) == m.step(u, c))
            &&& (tree_ok(m) ==> tree_ok(r.0))
            &&& (forall|u: int, c2: char|
                0 <= u < m.states.len() && #[trigger] r.0.step(u, c2) != m.step(u, c2) ==> (
                m.step(u, c2) is None && r.0.step(u, c2) is Some && r.0.step(u, c2)->0
                    >= m.states.len()))
            &&& (forall|u: int|
                0 <= u < r.0.states.len() && u != r.0.walk_from(s, rest)->0
                    ==> #[trigger] r.0.accept_of(u) == (if u < m.states.len() {
                    m.accept_of(u)
                } else {
                    None
                }))
        }),
    decreases rest.len(),
{
    let r = spec_insert_from(m, s, prefix, rest, out);
    if rest.len() == 0 {
        match m.states[s].accepting {
            None => {
                lemma_set_accept_wf(m, s, out);
                let m2 = set_accept(m, s, out);
                assert(forall|u: int|
                    0 <= u < m.states.len() ==> (#[trigger] m2.states[u]).edges == m.states[u].edges);
                assert(extends(m2, m));
                assert(forall|u: int, c: char| #[trigger] m2.step(u, c) == m.step(u, c));
                if tree_ok(m) {
                    assert forall|s1: int, i1: int, s2: int, i2: int|
                        0 <= s1 < m2.states.len() && 0 <= i1 < m2.states[s1].edges.len() && 0 <= s2
                            < m2.states.len() && 0 <= i2 < m2.states[s2].edges.len() && (s1 != s2
                            || i1 != i2) implies #[trigger] m2.states[s1].edges[i1].1
                        != #[trigger] m2.states[s2].edges[i2].1 by {
                        assert(m2.states[s1].edges == m.states[s1].edges);
                        assert(m2.states[s2].edges == m.states[s2].edges);
                    }
                }
                assert(forall|u: int|
                    0 <= u < m2.states.len() && u != s ==> #[trigger] m2.accept_of(u)
                        == m.accept_of(u));
            },
            Some(v) => {
                lemma_extends_refl(m);
                assert(prefix + rest =~= prefix);
            },
        }
    } else {
        let c = rest[0];
        assert(prefix.push(c) + rest.drop_first() =~= prefix + rest);
        match m.step(s, c) {
            Some(t) => {
                lemma_step_in_range(m, s, c);
                lemma_insert_from_props(m, t, prefix.push(c), rest.drop_first(), out);
                let r2 = spec_insert_from(m, t, prefix.push(c), rest.drop_first(), out);
                assert(r2.0.step(s, c) == Some(t));
                assert(r.0.walk_from(s, rest) == r2.0.walk_from(t, rest.drop_first()));
                assert(r.0.walk_from(s, rest)->0 == r2.0.walk_from(t, rest.drop_first())->0);
                if m.walk_from(s, rest) is Some {
                    assert(m.walk_from(t, rest.drop_first()) is Some);
                }
            },
            None => {
                let t_new = m.states.len() as int;
                let lbl = prefix.push(c);
                let m1 = add_state(m, s, c, lbl);
                lemma_add_state_wf(m, s, c, lbl);
                assert(forall|u: int|
                    0 <= u < m.states.len() && u != s ==> (#[trigger] m1.states[u]).edges
                        == m.states[u].edges);
                assert(m1.states[s].edges == m.states[s].edges.push((c, t_new)));
                assert forall|u: int, c2: char| m.step(u, c2) is Some implies #[trigger] m1.step(
                    u,
                    c2,
                ) == m.step(u, c2) by {
                    if u == s {
                        lemma_edge_lookup_push_some(m.states[s].edges, (c, t_new), c2);
                    }
                }
                assert(forall|u: int|
                    0 <= u < m.states.len() ==> (#[trigger] m1.states[u]).accepting
                        == m.states[u].accepting);
                assert(extends(m1, m));
                lemma_edge_lookup_push_new(m.states[s].edges, (c, t_new));
                assert(m1.step(s, c) == Some(t_new));
                lemma_insert_from_props(m1, t_new, lbl, rest.drop_first(), out);
                let r2 = spec_insert_from(m1, t_new, lbl, rest.drop_first(), out);
                lemma_extends_trans(r2.0, m1, m);
                assert(r2.0.step(s, c) == Some(t_new));
                assert(r.0.walk_from(s, rest) == r2.0.walk_from(t_new, rest.drop_first()));
                assert(m1.walk_from(t_new, rest.drop_first()) is None ==> r2.0.states.len()
                    > m1.states.len());
                if m1.walk_from(t_new, rest.drop_first()) is Some {
                    assert(r2.0.states.len() >= m1.states.len());
                }
                assert(r.0.states.len() > m.states.len());

                // The fresh state is nobody else's target, so the tree shape
                // survives the added edge.
                if tree_ok(m) {
                    assert forall|s1: int, i1: int, s2: int, i2: int|
                        0 <= s1 < m1.states.len() && 0 <= i1 < m1.states[s1].edges.len() && 0 <= s2
                            < m1.states.len() && 0 <= i2 < m1.states[s2].edges.len() && (s1 != s2
                            || i1 != i2) implies #[trigger] m1.states[s1].edges[i1].1
                        != #[trigger] m1.states[s2].edges[i2].1 by {
                        assert(m.wf());
                        if s1 < m.states.len() && (s1 != s || i1 < m.states[s].edges.len()) {
                            assert(m1.states[s1].edges[i1] == m.states[s1].edges[i1]);
                            assert(m.state_ok(s1));
                            assert(m1.states[s1].edges[i1].1 < m.states.len());
                        } else {
                            assert(s1 == s && i1 == m.states[s].edges.len());
                            assert(m1.states[s1].edges[i1] == (c, t_new));
                        }
                        if s2 < m.states.len() && (s2 != s || i2 < m.states[s].edges.len()) {
                            assert(m1.states[s2].edges[i2] == m.states[s2].edges[i2]);
                            assert(m.state_ok(s2));
                            assert(m1.states[s2].edges[i2].1 < m.states.len());
                        } else {
                            assert(s2 == s && i2 == m.states[s].edges.len());
                            assert(m1.states[s2].edges[i2] == (c, t_new));
                        }
                    }
                    assert(tree_ok(m1));
                }

                // The one transition the allocation added is the only way a
                // step can differ from `m`, and it leads to the fresh state.
                assert forall|u: int, c2: char|
                    0 <= u < m.states.len() && #[trigger] m1.step(u, c2) != m.step(u, c2) implies (
                m.step(u, c2) is None && m1.step(u, c2) == Some(t_new) && u == s && c2 == c) by {
                    if u != s {
                        assert(m1.states[u].edges == m.states[u].edges);
                    } else if c2 != c {
                        lemma_edge_lookup_push_other(m.states[s].edges, (c, t_new), c2);
                    }
                }
                assert forall|u: int, c2: char|
                    0 <= u < m.states.len() && #[trigger] r.0.step(u, c2) != m.step(u, c2) implies (
                m.step(u, c2) is None && r.0.step(u, c2) is Some && r.0.step(u, c2)->0
                    >= m.states.len()) by {
                    if m1.step(u, c2) == m.step(u, c2) {
                        assert(r.0.step(u, c2) != m1.step(u, c2));
                        assert(u < m1.states.len());
                    } else {
                        assert(u == s && c2 == c);
                        assert(r.0.step(s, c) == Some(t_new));
                    }
                }

                // Accept values changed nowhere but at the endpoint.
                let e_final = r.0.walk_from(s, rest)->0;
                assert(e_final == r2.0.walk_from(t_new, rest.drop_first())->0);
                assert forall|u: int|
                    0 <= u < r.0.states.len() && u != e_final implies #[trigger] r.0.accept_of(u)
                    == (if u < m.states.len() {
                    m.accept_of(u)
                } else {
                    None
                }) by {
                    assert(r.0.accept_of(u) == (if u < m1.states.len() {
                        m1.accept_of(u)
                    } else {
                        None
                    }));
                    if u < m.states.len() {
                        assert(m1.accept_of(u) == m.accept_of(u));
                    } else if u == t_new {
                        assert(m1.accept_of(u) is None);
                    }
                }
            },
        }
    }
}

/// Walks depend on the transition function alone: two automata that agree
/// on every transition agree on every walk.
pub proof fn lemma_walk_congruence(m1: AutoModel, m2: AutoModel, u: int, cs: Seq<char>)
    requires
        forall|v: int, c: char| #[trigger] m1.step(v, c) == m2.step(v, c),
    ensures
        m1.walk_from(u, cs) == m2.walk_from(u, cs),
    decreases cs.len(),
{
    if cs.len() > 0 {
        match m1.step(u, cs[0]) {
            Some(t) => lemma_walk_congruence(m1, m2, t, cs.drop_first()),
            None => {},
        }
    }
}

/// A transition always leads strictly forward, so a walk never moves
/// backwards and a nonempty walk ends strictly past its start.
pub proof fn lemma_walk_from_increases(m: AutoModel, u: int, cs: Seq<char>)
    requires
        m.wf(),
        m.in_range(u),
        m.walk_from(u, cs) is Some,
    ensures
        m.walk_from(u, cs)->0 >= u,
        cs.len() > 0 ==> m.walk_from(u, cs)->0 > u,
    decreases cs.len(),
{
    if cs.len() > 0 {
        let w = m.step(u, cs[0])->0;
        lemma_edge_lookup_in_edges(m.states[u].edges, cs[0]);
        assert(m.state_ok(u));
        assert(w > u);
        lemma_step_in_range(m, u, cs[0]);
        lemma_walk_from_increases(m, w, cs.drop_first());
    }
}

/// In a well-formed tree automaton the walk is injective: two inputs
/// that reach the very same state are the same input.
pub proof fn lemma_walk_injective(m: AutoModel, x: Seq<char>, z: Seq<char>)
    requires
        m.wf(),
        tree_ok(m),
        m.walk(x) is Some,
        m.walk(z) is Some,
        m.walk(x) == m.walk(z),
    ensures
        x == z,
    decreases x.len() + z.len(),
{
    let t = m.walk(x)->0;
    if x.len() == 0 {
        if z.len() > 0 {
            lemma_walk_from_increases(m, 0, z);
        }
        assert(x =~= z);
    } else if z.len() == 0 {
        lemma_walk_from_increases(m, 0, x);
    } else {
        assert(x =~= x.drop_last() + seq![x.last()]);
        lemma_walk_append(m, 0, x.drop_last(), seq![x.last()]);
        assert(z =~= z.drop_last() + seq![z.last()]);
        lemma_walk_append(m, 0, z.drop_last(), seq![z.last()]);
        assert(m.walk(x) == m.walk_from(0, x.drop_last() + seq![x.last()]));
        assert(m.walk(z) == m.walk_from(0, z.drop_last() + seq![z.last()]));
        let p1 = m.walk(x.drop_last())->0;
        let p2 = m.walk(z.drop_last())->0;
        assert(m.walk(x.drop_last()) is Some);
        assert(m.walk(z.drop_last()) is Some);
        assert(m.walk_from(p1, seq![x.last()]) == Some(t));
        assert(m.walk_from(p2, seq![z.last()]) == Some(t));
        assert(seq![x.last()].drop_first() =~= Seq::<char>::empty());
        assert(seq![z.last()].drop_first() =~= Seq::<char>::empty());
        assert(seq![x.last()][0] == x.last());
        assert(seq![z.last()][0] == z.last());
        assert(m.step(p1, x.last()) is Some);
        assert(m.walk_from(m.step(p1, x.last())->0, Seq::<char>::empty()) == Some(
            m.step(p1, x.last())->0,
        ));
        assert(m.step(p1, x.last()) == Some(t));
        assert(m.step(p2, z.last()) is Some);
        assert(m.walk_from(m.step(p2, z.last())->0, Seq::<char>::empty()) == Some(
            m.step(p2, z.last())->0,
        ));
        assert(m.step(p2, z.last()) == Some(t));
        lemma_walk_in_range(m, 0, x.drop_last());
        lemma_walk_in_range(m, 0, z.drop_last());
        lemma_edge_lookup_in_edges(m.states[p1].edges, x.last());
        lemma_edge_lookup_in_edges(m.states[p2].edges, z.last());
        let k1 = choose|k: int|
            0 <= k < m.states[p1].edges.len() && (#[trigger] m.states[p1].edges[k]) == (
            x.last(),
            t,
        );
        let k2 = choose|k: int|
            0 <= k < m.states[p2].edges.len() && (#[trigger] m.states[p2].edges[k]) == (
            z.last(),
            t,
        );
        if p1 != p2 || k1 != k2 {
            assert(m.states[p1].edges[k1].1 != m.states[p2].edges[k2].1);
        }
        assert(x.last() == z.last());
        lemma_walk_injective(m, x.drop_last(), z.drop_last());
        assert(x =~= z);
    }
}

/// A walk of the extension that ends inside the old state set only used
/// old transitions: the extension added transitions into fresh states
/// only, and fresh states never lead back.
pub proof fn lemma_walk_stays_old(m2: AutoModel, m1: AutoModel, u: int, cs: Seq<char>)
    requires
        m2.wf(),
        m1.states.len() <= m2.states.len(),
        forall|v: int, c: char|
            0 <= v < m1.states.len() && #[trigger] m2.step(v, c) != m1.step(v, c) ==> (m1.step(
                v,
                c,
            ) is None && m2.step(v, c) is Some && m2.step(v, c)->0 >= m1.states.len()),
        0 <= u < m1.states.len(),
        m2.walk_from(u, cs) is Some,
        m2.walk_from(u, cs)->0 < m1.states.len(),
    ensures
        m1.walk_from(u, cs) == m2.walk_from(u, cs),
    decreases cs.len(),
{
    if cs.len() > 0 {
        let w = m2.step(u, cs[0])->0;
        lemma_step_in_range(m2, u, cs[0]);
        if w >= m1.states.len() {
            lemma_walk_from_increases(m2, w, cs.drop_first());
            assert(false);
        }
        assert(m1.step(u, cs[0]) == Some(w));
        lemma_walk_stays_old(m2, m1, w, cs.drop_first());
    }
}

/// One registration leaves every other sequence's match untouched: any
/// other sequence that matches afterwards matched the very same value
/// before.
pub proof fn lemma_insert_no_touch(m: AutoModel, x0: Seq<char>, y0: Seq<char>, z: Seq<char>)
    requires
        m.wf(),
        tree_ok(m),
        z != x0,
        spec_insert(m, x0, y0).0.match_result(z) is Some,
    ensures
        m.match_result(z) == spec_insert(m, x0, y0).0.match_result(z),
{
    lemma_insert_from_props(m, 0, Seq::empty(), x0, y0);
    let r0 = spec_insert(m, x0, y0).0;
    let tz = r0.walk(z)->0;
    let tx = r0.walk(x0)->0;
    lemma_walk_in_range(r0, 0, z);
    if tz == tx {
        lemma_walk_injective(r0, z, x0);
        assert(false);
    }
    assert(r0.accept_of(tz) == (if tz < m.states.len() {
        m.accept_of(tz)
    } else {
        None
    }));
    assert(tz < m.states.len());
    lemma_walk_stays_old(r0, m, 0, z);
}

/// What folding one section does, in full: every registered sequence is
/// walkable afterwards; a sequence none of whose registrations conflicted
/// matches its registered output; every conflict names a sequence that
/// still matches the kept value, which differs from the rejected one; and
/// a section containing a sequence that was not yet walkable allocates at
/// least one state.
pub proof fn lemma_join_props(m: AutoModel, pairs: Seq<(Seq<char>, Seq<char>)>)
    requires
        m.wf(),
    ensures
        ({
            let r = spec_join(m, pairs);
            &&& r.0.wf()
            &&& extends(r.0, m)
            &&& r.0.states.len() >= m.states.len()
            &&& forall|k: int| 0 <= k < pairs.len() ==> r.0.walk((#[trigger] pairs[k]).0) is Some
            &&& forall|k: int|
                0 <= k < pairs.len() && (forall|j: int|
                    0 <= j < r.1.len() ==> (#[trigger] r.1[j]).sequence != pairs[k].0)
                    ==> r.0.match_result((#[trigger] pairs[k]).0) == Some(pairs[k].1)
            &&& forall|j: int|
                0 <= j < r.1.len() ==> r.0.match_result((#[trigger] r.1[j]).sequence) == Some(
                    r.1[j].kept,
                ) && r.1[j].kept != r.1[j].rejected
            &&& (exists|k: int|
                0 <= k < pairs.len() && m.walk((#[trigger] pairs[k]).0) is None)
                ==> r.0.states.len() > m.states.len()
            &&& (r.0.states.len() == m.states.len() ==> forall|u: int, c: char|
                #[trigger] r.0.step(u, c) == m.step(u, c))
        }),
    decreases pairs.len(),
{
    let r = spec_join(m, pairs);
    if pairs.len() == 0 {
        lemma_extends_refl(m);
    } else {
        let p = pairs[0];
        lemma_insert_from_props(m, 0, Seq::empty(), p.0, p.1);
        let stepr = spec_insert(m, p.0, p.1);
        assert(Seq::<char>::empty() + p.0 =~= p.0);
        lemma_join_props(stepr.0, pairs.drop_first());
        let restr = spec_join(stepr.0, pairs.drop_first());
        lemma_extends_trans(restr.0, stepr.0, m);
        assert(r.0 == restr.0);
        assert(r.1 == conflict_seq(stepr.1) + restr.1);

        // Every sequence of the section is walkable in the final automaton.
        assert forall|k: int| 0 <= k < pairs.len() implies r.0.walk(
            (#[trigger] pairs[k]).0,
        ) is Some by {
            if k == 0 {
                lemma_extends_walk(restr.0, stepr.0, 0, p.0);
            } else {
                assert(pairs[k] == pairs.drop_first()[k - 1]);
            }
        }

        // Conflict-free sequences match their registered output.
        assert forall|k: int|
            0 <= k < pairs.len() && (forall|j: int|
                0 <= j < r.1.len() ==> (#[trigger] r.1[j]).sequence != pairs[k].0) implies
            r.0.match_result((#[trigger] pairs[k]).0) == Some(pairs[k].1) by {
            if k == 0 {
                if stepr.1 is Some {
                    assert(r.1[0] == stepr.1->0);
                    assert(r.1[0].sequence == p.0);
                } else {
                    lemma_walk_in_range(stepr.0, 0, p.0);
                    assert(stepr.0.match_result(p.0) == Some(p.1));
                    lemma_extends_match(restr.0, stepr.0, p.0);
                }
            } else {
                assert(pairs[k] == pairs.drop_first()[k - 1]);
                assert(forall|j: int|
                    0 <= j < restr.1.len() ==> restr.1[j] == r.1[j + conflict_seq(
                        stepr.1,
                    ).len()]);
            }
        }

        // Every conflict's sequence still matches the kept value.
        assert forall|j: int| 0 <= j < r.1.len() implies r.0.match_result(
            (#[trigger] r.1[j]).sequence,
        ) == Some(r.1[j].kept) && r.1[j].kept != r.1[j].rejected by {
            if stepr.1 is Some && j == 0 {
                let cm = stepr.1->0;
                assert(r.1[0] == cm);
                lemma_walk_in_range(stepr.0, 0, p.0);
                assert(stepr.0.match_result(cm.sequence) == Some(cm.kept));
                lemma_extends_match(restr.0, stepr.0, cm.sequence);
            } else {
                let j2 = j - conflict_seq(stepr.1).len();
                assert(r.1[j] == restr.1[j2]);
            }
        }

        // A fresh sequence somewhere in the section grows the automaton.
        if exists|k: int| 0 <= k < pairs.len() && m.walk((#[trigger] pairs[k]).0) is None {
            let k = choose|k: int| 0 <= k < pairs.len() && m.walk((#[trigger] pairs[k]).0) is None;
            if k == 0 {
                assert(stepr.0.states.len() > m.states.len());
            } else {
                assert(pairs[k] == pairs.drop_first()[k - 1]);
                if stepr.0.states.len() == m.states.len() {
                    lemma_walk_congruence(stepr.0, m, 0, pairs[k].0);
                    assert(stepr.0.walk(pairs[k].0) is None);
                }
            }
        }
    }
}

/// Folding a section cannot disturb the match of a sequence that the
/// section only ever registers with one value: a sequence matching `y`
/// (or nothing) before still matches `y` (or nothing) after.
pub proof fn lemma_join_preserves_first(
    m: AutoModel,
    pairs: Seq<(Seq<char>, Seq<char>)>,
    x: Seq<char>,
    y: Seq<char>,
)
    requires
        m.wf(),
        tree_ok(m),
        m.match_result(x) is None || m.match_result(x) == Some(y),
        forall|k: int| 0 <= k < pairs.len() && (#[trigger] pairs[k]).0 == x ==> pairs[k].1 == y,
    ensures
        spec_join(m, pairs).0.wf(),
        tree_ok(spec_join(m, pairs).0),
        spec_join(m, pairs).0.match_result(x) is None || spec_join(m, pairs).0.match_result(x)
            == Some(y),
    decreases pairs.len(),
{
    if pairs.len() > 0 {
        let p = pairs[0];
        lemma_insert_from_props(m, 0, Seq::empty(), p.0, p.1);
        let stepr = spec_insert(m, p.0, p.1);
        let m1 = stepr.0;
        assert(Seq::<char>::empty() + p.0 =~= p.0);
        if p.0 == x {
            assert(p.1 == y);
            if stepr.1 is Some {
                assert(m.accept_of(m.walk(x)->0) == Some((stepr.1->0).kept));
                assert(m.match_result(x) == Some((stepr.1->0).kept));
                assert((stepr.1->0).kept == y);
                assert((stepr.1->0).rejected == y);
            } else {
                assert(m1.accept_of(m1.walk(x)->0) == Some(y));
                assert(m1.match_result(x) == Some(y));
            }
        } else {
            if m1.match_result(x) is Some {
                lemma_insert_no_touch(m, p.0, p.1, x);
            }
        }
        assert(forall|k: int|
            0 <= k < pairs.drop_first().len() ==> (#[trigger] pairs.drop_first()[k]) == pairs[k
                + 1]);
        lemma_join_preserves_first(m1, pairs.drop_first(), x, y);
    }
}

/// First registration wins within one section: a rule none of whose
/// predecessors in the section registered its sequence differently, and
/// whose sequence the automaton did not already map elsewhere, matches
/// its own output once the section is folded in.
pub proof fn lemma_join_first_wins(m: AutoModel, pairs: Seq<(Seq<char>, Seq<char>)>, k: int)
    requires
        m.wf(),
        tree_ok(m),
        0 <= k < pairs.len(),
        m.match_result(pairs[k].0) is None || m.match_result(pairs[k].0) == Some(pairs[k].1),
        forall|k2: int|
            0 <= k2 < k && (#[trigger] pairs[k2]).0 == pairs[k].0 ==> pairs[k2].1 == pairs[k].1,
    ensures
        spec_join(m, pairs).0.match_result(pairs[k].0) == Some(pairs[k].1),
    decreases pairs.len(),
{
    let x = pairs[k].0;
    let y = pairs[k].1;
    let p = pairs[0];
    lemma_insert_from_props(m, 0, Seq::empty(), p.0, p.1);
    let stepr = spec_insert(m, p.0, p.1);
    let m1 = stepr.0;
    assert(Seq::<char>::empty() + p.0 =~= p.0);
    if k == 0 {
        if stepr.1 is Some {
            assert(m.accept_of(m.walk(x)->0) == Some((stepr.1->0).kept));
            assert(m.match_result(x) == Some((stepr.1->0).kept));
            assert((stepr.1->0).kept == y);
            assert((stepr.1->0).rejected == y);
        }
        assert(m1.accept_of(m1.walk(x)->0) == Some(y));
        assert(m1.match_result(x) == Some(y));
        lemma_join_props(m1, pairs.drop_first());
        lemma_extends_match(spec_join(m1, pairs.drop_first()).0, m1, x);
    } else {
        if p.0 == x {
            assert(p.1 == y);
            if stepr.1 is Some {
                assert(m.accept_of(m.walk(x)->0) == Some((stepr.1->0).kept));
                assert(m.match_result(x) == Some((stepr.1->0).kept));
                assert((stepr.1->0).kept == y);
                assert((stepr.1->0).rejected == y);
            } else {
                assert(m1.accept_of(m1.walk(x)->0) == Some(y));
                assert(m1.match_result(x) == Some(y));
            }
        } else {
            if m1.match_result(x) is Some {
                lemma_insert_no_touch(m, p.0, p.1, x);
            }
        }
        assert(forall|k2: int|
            0 <= k2 < pairs.drop_first().len() ==> (#[trigger] pairs.drop_first()[k2]) == pairs[
                k2 + 1]);
        lemma_join_first_wins(m1, pairs.drop_first(), k - 1);
    }
}

/// The initial automaton is a tree.
pub proof fn lemma_init_tree_ok()
    ensures
        tree_ok(init_model()),
{
    let m = init_model();
    assert(forall|s1: int|
        0 <= s1 < m.states.len() ==> (#[trigger] m.states[s1]).edges.len() == 0);
}

/// The initial automaton matches nothing.
pub proof fn lemma_init_match_none(x: Seq<char>)
    ensures
        init_model().match_result(x) is None,
{
    let m = init_model();
    if x.len() == 0 {
        assert(m.walk(x) == Some(0int));
        assert(m.accept_of(0) is None);
    } else {
        assert(m.states[0].edges =~= Seq::<(char, int)>::empty());
        assert(edge_lookup(m.states[0].edges, x[0]) is None);
        assert(m.walk(x) is None);
    }
}

/// [`lemma_join_preserves_first`], folded over a whole section list.
pub proof fn lemma_build_preserves_first(
    m: AutoModel,
    secs: Seq<Seq<(Seq<char>, Seq<char>)>>,
    x: Seq<char>,
    y: Seq<char>,
)
    requires
        m.wf(),
        tree_ok(m),
        m.match_result(x) is None || m.match_result(x) == Some(y),
        forall|i: int, k: int|
            0 <= i < secs.len() && 0 <= k < secs[i].len() && (#[trigger] secs[i][k]).0 == x
                ==> secs[i][k].1 == y,
    ensures
        spec_build_from(m, secs).0.wf(),
        tree_ok(spec_build_from(m, secs).0),
        spec_build_from(m, secs).0.match_result(x) is None || spec_build_from(
            m,
            secs,
        ).0.match_result(x) == Some(y),
    decreases secs.len(),
{
    if secs.len() > 0 {
        lemma_join_preserves_first(m, secs[0], x, y);
        assert(forall|i: int|
            0 <= i < secs.drop_first().len() ==> (#[trigger] secs.drop_first()[i]) == secs[i + 1]);
        lemma_build_preserves_first(spec_join(m, secs[0]).0, secs.drop_first(), x, y);
    }
}

/// First registration wins across a whole build, relative to an entry
/// automaton that does not already contradict the rule.
pub proof fn lemma_build_first_wins(
    m: AutoModel,
    secs: Seq<Seq<(Seq<char>, Seq<char>)>>,
    i: int,
    k: int,
)
    requires
        m.wf(),
        tree_ok(m),
        0 <= i < secs.len(),
        0 <= k < secs[i].len(),
        m.match_result(secs[i][k].0) is None || m.match_result(secs[i][k].0) == Some(
            secs[i][k].1,
        ),
        forall|i2: int, k2: int|
            ((0 <= i2 < i && 0 <= k2 < secs[i2].len()) || (i2 == i && 0 <= k2 < k)) && (
            #[trigger] secs[i2][k2]).0 == secs[i][k].0 ==> secs[i2][k2].1 == secs[i][k].1,
    ensures
        spec_build_from(m, secs).0.match_result(secs[i][k].0) == Some(secs[i][k].1),
    decreases secs.len(),
{
    let x = secs[i][k].0;
    let y = secs[i][k].1;
    if i == 0 {
        lemma_join_first_wins(m, secs[0], k);
        lemma_join_props(m, secs[0]);
        let m1 = spec_join(m, secs[0]).0;
        lemma_build_from_props(m1, secs.drop_first());
        lemma_extends_match(spec_build_from(m1, secs.drop_first()).0, m1, x);
    } else {
        lemma_join_preserves_first(m, secs[0], x, y);
        assert(forall|i2: int|
            0 <= i2 < secs.drop_first().len() ==> (#[trigger] secs.drop_first()[i2]) == secs[
                i2 + 1]);
        lemma_build_first_wins(spec_join(m, secs[0]).0, secs.drop_first(), i - 1, k);
    }
}

/// First registration wins, stated over the raw section data alone: if a
/// rule `(x, y)` stands in some section and no rule processed before it
/// -- in an earlier section, or earlier in the same section -- registers
/// `x` with a different output, then the built automaton matches `x` to
/// exactly `y`, whatever conflicts later rules may raise.
pub proof fn lemma_build_first_registration_wins(
    secs: Seq<Seq<(Seq<char>, Seq<char>)>>,
    i: int,
    k: int,
)
    requires
        0 <= i < secs.len(),
        0 <= k < secs[i].len(),
        forall|i2: int, k2: int|
            ((0 <= i2 < i && 0 <= k2 < secs[i2].len()) || (i2 == i && 0 <= k2 < k)) && (
            #[trigger] secs[i2][k2]).0 == secs[i][k].0 ==> secs[i2][k2].1 == secs[i][k].1,
    ensures
        spec_build(secs).0.match_result(secs[i][k].0) == Some(secs[i][k].1),
{
    lemma_init_model_wf();
    lemma_init_tree_ok();
    lemma_init_match_none(secs[i][k].0);
    lemma_build_first_wins(init_model(), secs, i, k);
}

/// What folding a whole section list does: the per-section properties of
/// [`lemma_join_props`], lifted over the fold, together with the boundary
/// bookkeeping -- one boundary per section, never below the size the
/// automaton had on entry, never decreasing, and never beyond the final
/// automaton.
pub proof fn lemma_build_from_props(m: AutoModel, secs: Seq<Seq<(Seq<char>, Seq<char>)>>)
    requires
        m.wf(),
    ensures
        ({
            let r = spec_build_from(m, secs);
            &&& r.0.wf()
            &&& extends(r.0, m)
            &&& r.0.states.len() >= m.states.len()
            &&& r.1.len() == secs.len()
            &&& forall|i: int| 0 <= i < secs.len() ==> m.states.len() - 1 <= #[trigger] r.1[i]
            &&& forall|i: int| 0 <= i < secs.len() - 1 ==> #[trigger] r.1[i] <= r.1[i + 1]
            &&& forall|i: int| 0 <= i < secs.len() ==> #[trigger] r.1[i] + 1 <= r.0.states.len()
            &&& forall|i: int, k: int|
                0 <= i < secs.len() && 0 <= k < secs[i].len() ==> r.0.walk(
                    (#[trigger] secs[i][k]).0,
                ) is Some
            &&& forall|i: int, k: int|
                0 <= i < secs.len() && 0 <= k < secs[i].len() && (forall|j: int|
                    0 <= j < r.2.len() ==> (#[trigger] r.2[j]).sequence != secs[i][k].0)
                    ==> r.0.match_result((#[trigger] secs[i][k]).0) == Some(secs[i][k].1)
            &&& forall|j: int|
                0 <= j < r.2.len() ==> r.0.match_result((#[trigger] r.2[j]).sequence) == Some(
                    r.2[j].kept,
                ) && r.2[j].kept != r.2[j].rejected
        }),
    decreases secs.len(),
{
    let r = spec_build_from(m, secs);
    if secs.len() == 0 {
        lemma_extends_refl(m);
    } else {
        lemma_join_props(m, secs[0]);
        let stepr = spec_join(m, secs[0]);
        lemma_build_from_props(stepr.0, secs.drop_first());
        let restr = spec_build_from(stepr.0, secs.drop_first());
        lemma_extends_trans(restr.0, stepr.0, m);
        assert(r.0 == restr.0);
        assert(r.1 == seq![stepr.0.states.len() - 1] + restr.1);
        assert(r.2 == stepr.1 + restr.2);

        assert forall|i: int| 0 <= i < secs.len() - 1 implies #[trigger] r.1[i] <= r.1[i + 1] by {
            if i > 0 {
                assert(r.1[i] == restr.1[i - 1]);
                assert(r.1[i + 1] == restr.1[i]);
            } else {
                assert(r.1[1] == restr.1[0]);
            }
        }

        assert forall|i: int, k: int|
            0 <= i < secs.len() && 0 <= k < secs[i].len() implies r.0.walk(
            (#[trigger] secs[i][k]).0,
        ) is Some by {
            if i == 0 {
                lemma_extends_walk(restr.0, stepr.0, 0, secs[0][k].0);
            } else {
                assert(secs[i] == secs.drop_first()[i - 1]);
            }
        }

        assert forall|i: int, k: int|
            0 <= i < secs.len() && 0 <= k < secs[i].len() && (forall|j: int|
                0 <= j < r.2.len() ==> (#[trigger] r.2[j]).sequence != secs[i][k].0) implies
            r.0.match_result((#[trigger] secs[i][k]).0) == Some(secs[i][k].1) by {
            if i == 0 {
                assert(forall|j: int|
                    0 <= j < stepr.1.len() ==> stepr.1[j] == r.2[j]);
                assert(forall|j: int|
                    0 <= j < stepr.1.len() ==> (#[trigger] stepr.1[j]).sequence != secs[0][k].0);
                assert(stepr.0.match_result(secs[0][k].0) == Some(secs[0][k].1));
                lemma_extends_match(restr.0, stepr.0, secs[0][k].0);
            } else {
                assert(secs[i] == secs.drop_first()[i - 1]);
                assert(forall|j: int|
                    0 <= j < restr.2.len() ==> restr.2[j] == r.2[j + stepr.1.len()]);
            }
        }

        assert forall|j: int| 0 <= j < r.2.len() implies r.0.match_result(
            (#[trigger] r.2[j]).sequence,
        ) == Some(r.2[j].kept) && r.2[j].kept != r.2[j].rejected by {
            if j < stepr.1.len() {
                assert(r.2[j] == stepr.1[j]);
                assert(stepr.0.match_result(stepr.1[j].sequence) == Some(stepr.1[j].kept));
                lemma_extends_match(restr.0, stepr.0, stepr.1[j].sequence);
            } else {
                assert(r.2[j] == restr.2[j - stepr.1.len()]);
            }
        }
    }
}

/// A walk over a concatenation is the walk over the first part, continued
/// over the second from where it ended.
pub proof fn lemma_walk_append(m: AutoModel, u: int, xs: Seq<char>, ys: Seq<char>)
    ensures
        m.walk_from(u, xs + ys) == match m.walk_from(u, xs) {
            Some(t) => m.walk_from(t, ys),
            None => None,
        },
    decreases xs.len(),
{
    if xs.len() == 0 {
        assert(xs + ys =~= ys);
    } else {
        assert((xs + ys)[0] == xs[0]);
        match m.step(u, xs[0]) {
            Some(t) => {
                assert((xs + ys).drop_first() =~= xs.drop_first() + ys);
                lemma_walk_append(m, t, xs.drop_first(), ys);
            },
            None => {},
        }
    }
}

/// Shared prefixes share states: two walkable sequences that agree on
/// their first `k` characters pass through the very same state after
/// those `k` characters.  No duplicate state is ever created for an
/// identical prefix within one build.
pub proof fn lemma_shared_prefix(m: AutoModel, s1: Seq<char>, s2: Seq<char>, k: int)
    requires
        0 <= k <= s1.len(),
        k <= s2.len(),
        s1.take(k) == s2.take(k),
        m.walk(s1) is Some,
        m.walk(s2) is Some,
    ensures
        m.walk(s1.take(k)) is Some,
        m.walk(s1.take(k)) == m.walk(s2.take(k)),
{
    assert(s1 =~= s1.take(k) + s1.skip(k));
    lemma_walk_append(m, 0, s1.take(k), s1.skip(k));
}

/// Matching is a function of the built automaton alone: any two automata
/// that a build of the same section list produced give every input string
/// the same result.
pub proof fn lemma_build_run_deterministic(
    secs: Seq<Seq<(Seq<char>, Seq<char>)>>,
    m1: AutoModel,
    m2: AutoModel,
    input: Seq<char>,
)
    requires
        m1 == spec_build(secs).0,
        m2 == spec_build(secs).0,
    ensures
        m1.match_result(input) == m2.match_result(input),
{
}

/// The automaton the build holds just before folding in section `i`.
pub open spec fn build_stage(m: AutoModel, secs: Seq<Seq<(Seq<char>, Seq<char>)>>, i: int) -> AutoModel {
    spec_build_from(m, secs.take(i)).0
}

/// Whether section `i` brings at least one sequence that is not yet
/// walkable at the moment the section is folded in.
pub open spec fn fresh_in_stage(m: AutoModel, secs: Seq<Seq<(Seq<char>, Seq<char>)>>, i: int) -> bool {
    exists|k: int|
        0 <= k < secs[i].len() && build_stage(m, secs, i).walk((#[trigger] secs[i][k]).0) is None
}

/// A build yields exactly one boundary per section.
pub proof fn lemma_build_len(m: AutoModel, secs: Seq<Seq<(Seq<char>, Seq<char>)>>)
    ensures
        spec_build_from(m, secs).1.len() == secs.len(),
    decreases secs.len(),
{
    if secs.len() > 0 {
        lemma_build_len(spec_join(m, secs[0]).0, secs.drop_first());
    }
}

/// Each boundary is exactly the highest state id once its section is
/// folded in: the build allocates ids densely, so the states a section
/// created are exactly those between the previous boundary (exclusive)
/// and its own (inclusive).
pub proof fn lemma_build_boundaries(m: AutoModel, secs: Seq<Seq<(Seq<char>, Seq<char>)>>)
    ensures
        forall|i: int|
            0 <= i < secs.len() ==> #[trigger] spec_build_from(m, secs).1[i] + 1 == build_stage(
                m,
                secs,
                i + 1,
            ).states.len(),
    decreases secs.len(),
{
    let r = spec_build_from(m, secs);
    if secs.len() > 0 {
        let stepr = spec_join(m, secs[0]);
        lemma_build_boundaries(stepr.0, secs.drop_first());
        lemma_build_len(stepr.0, secs.drop_first());
        let restr = spec_build_from(stepr.0, secs.drop_first());
        assert(restr.1.len() == secs.len() - 1);
        assert(r.1 == seq![stepr.0.states.len() - 1] + restr.1);
        assert forall|i: int| 0 <= i < secs.len() implies #[trigger] r.1[i] + 1 == build_stage(
            m,
            secs,
            i + 1,
        ).states.len() by {
            lemma_build_stage_shift(m, secs, i + 1);
            if i == 0 {
                assert(secs.take(1).drop_first() =~= Seq::<Seq<(Seq<char>, Seq<char>)>>::empty());
                assert(secs.take(1)[0] == secs[0]);
                assert(build_stage(m, secs, 1) == stepr.0);
            } else {
                assert(r.1[i] == restr.1[i - 1]);
            }
        }
    }
}

/// Folding a prefix of the sections is the same as folding its first
/// section and then the rest of the prefix.
pub proof fn lemma_build_stage_shift(m: AutoModel, secs: Seq<Seq<(Seq<char>, Seq<char>)>>, i: int)
    requires
        1 <= i <= secs.len(),
    ensures
        build_stage(m, secs, i) == build_stage(spec_join(m, secs[0]).0, secs.drop_first(), i - 1),
{
    assert(secs.take(i)[0] == secs[0]);
    assert(secs.take(i).drop_first() =~= secs.drop_first().take(i - 1));
}

/// When every section brings at least one sequence that is new at the
/// moment it is folded in, the boundaries are strictly increasing, and
/// all lie strictly above the size the automaton had on entry.
pub proof fn lemma_ranges_strict(m: AutoModel, secs: Seq<Seq<(Seq<char>, Seq<char>)>>)
    requires
        m.wf(),
        forall|i: int| 0 <= i < secs.len() ==> fresh_in_stage(m, secs, i),
    ensures
        ({
            let r = spec_build_from(m, secs);
            &&& forall|i: int| 0 <= i < secs.len() ==> #[trigger] r.1[i] >= m.states.len()
            &&& forall|i: int| 0 <= i < secs.len() - 1 ==> #[trigger] r.1[i] < r.1[i + 1]
        }),
    decreases secs.len(),
{
    let r = spec_build_from(m, secs);
    if secs.len() > 0 {
        lemma_join_props(m, secs[0]);
        let stepr = spec_join(m, secs[0]);
        assert(secs.take(0) =~= Seq::<Seq<(Seq<char>, Seq<char>)>>::empty());
        assert(build_stage(m, secs, 0) == m);
        assert(fresh_in_stage(m, secs, 0));
        assert(stepr.0.states.len() > m.states.len());
        assert forall|i: int| 0 <= i < secs.drop_first().len() implies fresh_in_stage(
            stepr.0,
            secs.drop_first(),
            i,
        ) by {
            assert(fresh_in_stage(m, secs, i + 1));
            lemma_build_stage_shift(m, secs, i + 1);
            assert(secs[i + 1] == secs.drop_first()[i]);
        }
        lemma_ranges_strict(stepr.0, secs.drop_first());
        lemma_build_from_props(stepr.0, secs.drop_first());
        let restr = spec_build_from(stepr.0, secs.drop_first());
        assert(restr.1.len() == secs.len() - 1);
        assert(r.1 == seq![stepr.0.states.len() - 1] + restr.1);
        assert(r.1[0] == stepr.0.states.len() - 1);
        assert forall|i: int| 0 <= i < secs.len() implies #[trigger] r.1[i] >= m.states.len() by {
            if i > 0 {
                assert(r.1[i] == restr.1[i - 1]);
            }
        }
        assert forall|i: int| 0 <= i < secs.len() - 1 implies #[trigger] r.1[i] < r.1[i + 1] by {
            if i == 0 {
                assert(r.1[1] == restr.1[0]);
            } else {
                assert(r.1[i] == restr.1[i - 1]);
                assert(r.1[i + 1] == restr.1[i]);
            }
        }
    }
}

/// Exact recall and conflict stability for a whole build.  For every
/// `sequence -> output` pair of every section: the sequence is walkable in
/// the built automaton, and if no conflict of the build names the
/// sequence, matching it returns exactly the registered output.  And for
/// every conflict of the build: the kept and rejected values differ, and
/// matching the conflict's sequence still returns the kept value -- the
/// first registration won.
pub proof fn lemma_build_recall_and_conflicts(secs: Seq<Seq<(Seq<char>, Seq<char>)>>)
    ensures
        ({
            let r = spec_build(secs);
            &&& r.0.wf()
            &&& forall|i: int, k: int|
                0 <= i < secs.len() && 0 <= k < secs[i].len() ==> r.0.walk(
                    (#[trigger] secs[i][k]).0,
                ) is Some
            &&& forall|i: int, k: int|
                0 <= i < secs.len() && 0 <= k < secs[i].len() && (forall|j: int|
                    0 <= j < r.2.len() ==> (#[trigger] r.2[j]).sequence != secs[i][k].0)
                    ==> r.0.match_result((#[trigger] secs[i][k]).0) == Some(secs[i][k].1)
            &&& forall|j: int|
                0 <= j < r.2.len() ==> r.0.match_result((#[trigger] r.2[j]).sequence) == Some(
                    r.2[j].kept,
                ) && r.2[j].kept != r.2[j].rejected
        }),
{
    lemma_init_model_wf();
    lemma_build_from_props(init_model(), secs);
}

/// The initial automaton is well formed.
pub proof fn lemma_init_model_wf()
    ensures
        init_model().wf(),
        init_model().states.len() == 1,
{
    let m = init_model();
    assert forall|s: int| 0 <= s < m.states.len() implies m.state_ok(s) by {
        assert(m.states[s].edges.len() == 0);
    }
}

/// The section boundaries of a whole build: there is one per section,
/// they never decrease, they never pass the final number of states, and
/// when every section brings a sequence that is new at its turn they are
/// strictly increasing, starting above the start state's id `0`.
pub proof fn lemma_section_ranges(secs: Seq<Seq<(Seq<char>, Seq<char>)>>)
    ensures
        ({
            let r = spec_build(secs);
            &&& r.1.len() == secs.len()
            &&& forall|i: int| 0 <= i < secs.len() ==> 0 <= #[trigger] r.1[i]
            &&& forall|i: int| 0 <= i < secs.len() - 1 ==> #[trigger] r.1[i] <= r.1[i + 1]
            &&& forall|i: int| 0 <= i < secs.len() ==> #[trigger] r.1[i] + 1 <= r.0.states.len()
            &&& (forall|i: int| 0 <= i < secs.len() ==> fresh_in_stage(init_model(), secs, i))
                ==> ((forall|i: int| 0 <= i < secs.len() ==> #[trigger] r.1[i] >= 1) && (
            forall|i: int| 0 <= i < secs.len() - 1 ==> #[trigger] r.1[i] < r.1[i + 1]))
        }),
{
    lemma_init_model_wf();
    lemma_build_from_props(init_model(), secs);
    if forall|i: int| 0 <= i < secs.len() ==> fresh_in_stage(init_model(), secs, i) {
        lemma_ranges_strict(init_model(), secs);
    }
}


/// The mathematical value of an [`AutomatonStyle`].
#[verifier::ext_equal]
pub struct StyleModel {
    pub cluster_style: Seq<char>,
    pub cluster_bgcolor: Seq<char>,
    pub cluster_node_shape: Seq<char>,
    pub cluster_node_bgcolor: Seq<char>,
    pub cluster_node_fontcolor: Seq<char>,
    pub intermediate_shape: Seq<char>,
    pub intermediate_node_bgcolor: Seq<char>,
    pub intermediate_fontcolor: Seq<char>,
    pub start_bgcolor: Seq<char>,
    pub start_fontcolor: Seq<char>,
    pub start_shape: Seq<char>,
}

/// Colours and shapes for the diagnostic-graph rendering.
pub struct AutomatonStyle {
    cluster_style: String,
    cluster_bgcolor: String,
    cluster_node_shape: String,
    cluster_node_bgcolor: String,
    cluster_node_fontcolor: String,
    intermediate_shape: String,
    intermediate_node_bgcolor: String,
    intermediate_fontcolor: String,
    start_bgcolor: String,
    start_fontcolor: String,
    start_shape: String,
}

impl View for AutomatonStyle {
    type V = StyleModel;

    closed spec fn view(&self) -> StyleModel {
        StyleModel {
            cluster_style: self.cluster_style@,
            cluster_bgcolor: self.cluster_bgcolor@,
            cluster_node_shape: self.cluster_node_shape@,
            cluster_node_bgcolor: self.cluster_node_bgcolor@,
            cluster_node_fontcolor: self.cluster_node_fontcolor@,
            intermediate_shape: self.intermediate_shape@,
            intermediate_node_bgcolor: self.intermediate_node_bgcolor@,
            intermediate_fontcolor: self.intermediate_fontcolor@,
            start_bgcolor: self.start_bgcolor@,
            start_fontcolor: self.start_fontcolor@,
            start_shape: self.start_shape@,
        }
    }
}

/// The default style: filled light clusters, white-on-black intermediate
/// nodes, an elliptic start node.
pub open spec fn default_style() -> StyleModel {
    StyleModel {
        cluster_style: "filled"@,
        cluster_bgcolor: "aliceblue"@,
        cluster_node_shape: "circle"@,
        cluster_node_bgcolor: "white"@,
        cluster_node_fontcolor: "black"@,
        intermediate_shape: "circle"@,
        intermediate_node_bgcolor: "black"@,
        intermediate_fontcolor: "white"@,
        start_bgcolor: "white"@,
        start_fontcolor: "black"@,
        start_shape: "ellipse"@,
    }
}

impl Default for AutomatonStyle {
    fn default() -> (r: Self)
        ensures
            r@ == default_style(),
    {
        Self {
            cluster_style: String::from_str("filled"),
            cluster_bgcolor: String::from_str("aliceblue"),
            cluster_node_shape: String::from_str("circle"),
            cluster_node_bgcolor: String::from_str("white"),
            cluster_node_fontcolor: String::from_str("black"),
            intermediate_shape: String::from_str("circle"),
            intermediate_node_bgcolor: String::from_str("black"),
            intermediate_fontcolor: String::from_str("white"),
            start_bgcolor: String::from_str("white"),
            start_fontcolor: String::from_str("black"),
            start_shape: String::from_str("ellipse"),
        }
    }
}

/// The names of a writer's sections, in order.
pub open spec fn section_names(secs: Seq<(Seq<char>, Seq<(Seq<char>, Seq<char>)>)>) -> Seq<
    Seq<char>,
> {
    secs.map_values(|s: (Seq<char>, Seq<(Seq<char>, Seq<char>)>)| s.0)
}

/// The first state id belonging to cluster `i`: one past the previous
/// cluster's boundary, or `1` for the first cluster.
pub open spec fn cluster_lower(ranges: Seq<int>, i: int) -> int {
    if i == 0 {
        1
    } else {
        ranges[i - 1] + 1
    }
}

/// One accept-state node line of a cluster, for state `id`; nothing for a
/// non-accepting state.
pub open spec fn gv_node_line(st: StateModel, id: int) -> Seq<char> {
    match st.accepting {
        Some(a) => "\t\t"@ + dec_str_pad(id as nat, 3) + " [label=\""@ + escape_quotes(a)
            + "\"];\n"@,
        None => Seq::empty(),
    }
}

/// The accept-state node lines of the states in `[lo, k)`.
pub open spec fn gv_cluster_nodes(states: Seq<StateModel>, lo: int, k: int) -> Seq<char>
    decreases k - lo,
{
    if k <= lo {
        Seq::empty()
    } else {
        gv_cluster_nodes(states, lo, k - 1) + gv_node_line(states[k - 1], k - 1)
    }
}

/// One subgraph cluster: its header, its accept-state nodes, and its
/// closing brace.
pub open spec fn gv_cluster(
    name: Seq<char>,
    ranges: Seq<int>,
    states: Seq<StateModel>,
    style: StyleModel,
    i: int,
) -> Seq<char> {
    "\tsubgraph cluster_"@ + dec_str(i as nat) + " {\n"@ + "\t\tstyle="@ + style.cluster_style
        + ";\n"@ + "\t\tbgcolor="@ + style.cluster_bgcolor + ";\n"@
        + "\t\tnode [style=filled,shape="@ + style.cluster_node_shape + ",fillcolor="@
        + style.cluster_node_bgcolor + ",fontcolor="@ + style.cluster_node_fontcolor + "];\n"@
        + "\t\tlabel=\""@ + name + "\";\n"@ + gv_cluster_nodes(
        states,
        cluster_lower(ranges, i),
        ranges[i] + 1,
    ) + "\t}\n"@
}

/// The first `k` clusters.
pub open spec fn gv_clusters(
    names: Seq<Seq<char>>,
    ranges: Seq<int>,
    states: Seq<StateModel>,
    style: StyleModel,
    k: int,
) -> Seq<char>
    decreases k,
{
    if k <= 0 {
        Seq::empty()
    } else {
        gv_clusters(names, ranges, states, style, k - 1) + gv_cluster(
            names[k - 1],
            ranges,
            states,
            style,
            k - 1,
        )
    }
}

/// The label of one edge: a quote is escaped, the space character is
/// spelled out.
pub open spec fn gv_edge_label(c: char) -> Seq<char> {
    if c == '"' {
        seq!['\\', '"']
    } else if c == ' ' {
        "space"@
    } else {
        seq![c]
    }
}

/// One transition line.
pub open spec fn gv_edge_line(e: (char, int), id: int) -> Seq<char> {
    "\t"@ + dec_str_pad(id as nat, 3) + " -> "@ + dec_str_pad(e.1 as nat, 3) + "\t[label=\""@
        + gv_edge_label(e.0) + "\"];\n"@
}

/// The first `k` transition lines of state `id`.
pub open spec fn gv_edge_lines(es: Seq<(char, int)>, id: int, k: int) -> Seq<char>
    decreases k,
{
    if k <= 0 {
        Seq::empty()
    } else {
        gv_edge_lines(es, id, k - 1) + gv_edge_line(es[k - 1], id)
    }
}

/// The node line of one state in the transitions part: the start state
/// with its own colours, an intermediate state with its label, an accept
/// state (already drawn in its cluster) with nothing.
pub open spec fn gv_state_line(st: StateModel, id: int, style: StyleModel) -> Seq<char> {
    if id == 0 {
        "\t"@ + dec_str_pad(id as nat, 3) + " [style=filled,fillcolor="@ + style.start_bgcolor
            + ",fontcolor="@ + style.start_fontcolor + ",shape="@ + style.start_shape
            + ",label=\""@ + escape_quotes(st.label) + "\"]\n"@
    } else if st.accepting is None {
        "\t"@ + dec_str_pad(id as nat, 3) + "     \t[label=\""@ + escape_quotes(st.label)
            + "\"];\n"@
    } else {
        Seq::empty()
    }
}

/// The node line and transition lines of the first `k` states.
pub open spec fn gv_states(states: Seq<StateModel>, style: StyleModel, k: int) -> Seq<char>
    decreases k,
{
    if k <= 0 {
        Seq::empty()
    } else {
        gv_states(states, style, k - 1) + gv_state_line(states[k - 1], k - 1, style)
            + gv_edge_lines(states[k - 1].edges, k - 1, states[k - 1].edges.len() as int)
    }
}

/// The node-defaults line between the clusters and the transitions.
pub open spec fn gv_defaults_line(style: StyleModel) -> Seq<char> {
    "\tnode [style=filled,fillcolor="@ + style.intermediate_node_bgcolor + ",fontcolor="@
        + style.intermediate_fontcolor + ",shape="@ + style.intermediate_shape + "];\n"@
}

/// The smaller of two lengths.
pub open spec fn min_len(a: int, b: int) -> int {
    if a <= b {
        a
    } else {
        b
    }
}

/// The whole diagnostic-graph document.
pub open spec fn gv_doc(
    m: AutoModel,
    names: Seq<Seq<char>>,
    ranges: Seq<int>,
    style: StyleModel,
) -> Seq<char> {
    "digraph G {\n"@ + gv_clusters(
        names,
        ranges,
        m.states,
        style,
        min_len(names.len() as int, ranges.len() as int),
    ) + gv_defaults_line(style) + gv_states(m.states, style, m.states.len() as int) + "}\n"@
}


/// The accept value of a state as its rendering in the embeddable table:
/// the escaped string in quotes, or `null`.
pub open spec fn json_accept_str(acc: Option<Seq<char>>) -> Seq<char> {
    match acc {
        Some(v) => seq!['"'] + escape_quotes(v) + seq!['"'],
        None => "null"@,
    }
}

/// One transition pair of the embeddable table.
pub open spec fn json_pair_str(e: (char, int)) -> Seq<char> {
    "[\""@ + escape_quotes(seq![e.0]) + "\", "@ + dec_str(e.1 as nat) + "]"@
}

/// The first `k` transition pairs, comma-separated.
pub open spec fn json_pairs(es: Seq<(char, int)>, k: int) -> Seq<char>
    decreases k,
{
    if k <= 0 {
        Seq::empty()
    } else {
        json_pairs(es, k - 1) + (if k == 1 {
            Seq::<char>::empty()
        } else {
            seq![',']
        }) + json_pair_str(es[k - 1])
    }
}

/// A state's transitions in the embeddable table: a map literal, or
/// `null` when it has none.
pub open spec fn json_trans_str(es: Seq<(char, int)>) -> Seq<char> {
    if es.len() == 0 {
        "null"@
    } else {
        "new Map(["@ + json_pairs(es, es.len() as int) + "])"@
    }
}

/// One state's line of the embeddable table; the last state's line has no
/// trailing comma.
pub open spec fn json_state_line(st: StateModel, id: int, last: bool) -> Seq<char> {
    "    {l: \""@ + escape_quotes(st.label) + "\", a: "@ + json_accept_str(st.accepting) + ", t: "@
        + json_trans_str(st.edges) + (if last {
        "}\n"@
    } else {
        "},\n"@
    })
}

/// The first `k` state lines.
pub open spec fn json_states(ss: Seq<StateModel>, k: int) -> Seq<char>
    decreases k,
{
    if k <= 0 {
        Seq::empty()
    } else {
        json_states(ss, k - 1) + json_state_line(ss[k - 1], k - 1, k == ss.len())
    }
}

/// The whole embeddable lookup table.
pub open spec fn json_doc(m: AutoModel) -> Seq<char> {
    "let automaton = [\n"@ + json_states(m.states, m.states.len() as int) + "];\n"@
}

/// The one-state automaton every build starts from: only the start state,
/// labelled `start`, accepting nothing.
pub open spec fn init_model() -> AutoModel {
    AutoModel {
        states: seq![
            StateModel { edges: Seq::empty(), label: "start"@, accepting: None },
        ],
    }
}

impl Automaton {
    /// The automaton holding only the start state.
    pub fn new_initial() -> (r: Automaton)
        ensures
            r@ == init_model(),
            r.wf(),
    {
        let mut states: Vec<State> = Vec::new();
        states.push(
            State {
                state_num: 0,
                next: Vec::new(),
                label: String::from_str("start"),
                accepting: None,
            },
        );
        let r = Automaton { states, start_state: 0 };
        proof {
            assert(r@.states[0].edges =~= Seq::<(char, int)>::empty());
            assert(r@ =~= init_model());
        }
        r
    }

    /// The target of this automaton's transition from `cur` on `c`, if one
    /// exists.
    fn find_edge(&self, cur: usize, c: char) -> (r: Option<usize>)
        requires
            self.wf(),
            cur < self.states@.len(),
        ensures
            match r {
                Some(t) => self@.step(cur as int, c) == Some(t as int) && t < self.states@.len(),
                None => self@.step(cur as int, c) is None,
            },
    {
        let edges = &self.states[cur].next;
        let n = edges.len();
        let mut i: usize = 0;
        proof {
            assert(self@.states[cur as int].edges.skip(0) =~= self@.states[cur as int].edges);
        }
        while i < n
            invariant
                self.wf(),
                cur < self.states@.len(),
                n == edges.len(),
                i <= n,
                edges == &self.states[cur as int].next,
                edge_lookup(self@.states[cur as int].edges, c) == edge_lookup(
                    self@.states[cur as int].edges.skip(i as int),
                    c,
                ),
            decreases n - i,
        {
            let ghost es = self@.states[cur as int].edges;
            let (ec, et) = edges[i];
            proof {
                assert(es[i as int] == (ec, et as int));
                assert(es.skip(i as int)[0] == es[i as int]);
            }
            if ec == c {
                proof {
                    assert(edge_lookup(es.skip(i as int), c) == Some(et as int));
                    assert(self@.state_ok(cur as int));
                }
                return Some(et);
            }
            proof {
                assert(es.skip(i as int).drop_first() =~= es.skip(i + 1));
            }
            i += 1;
        }
        proof {
            assert(self@.states[cur as int].edges.skip(n as int) =~= Seq::<(char, int)>::empty());
        }
        None
    }

    /// Folds one section's rules into the automaton, reusing every
    /// transition that already exists and allocating fresh, monotonically
    /// numbered states for the rest -- the shared-prefix merge.  `start_cnt`
    /// must be the highest state id so far; the returned value is the new
    /// highest id, this section's boundary.  Conflicting re-registrations
    /// keep the earlier output and are appended to `conflicts`.
    ///
    /// The result is exactly the functional fold [`spec_join`] of the
    /// section's pairs over the automaton's previous value.
    pub fn join_section(
        automaton: &mut Automaton,
        keymap: &KbdMap,
        start_cnt: usize,
        conflicts: &mut Vec<MapConflict>,
    ) -> (r: usize)
        requires
            old(automaton).wf(),
            start_cnt + 1 == old(automaton).states@.len(),
        ensures
            final(automaton).wf(),
            final(automaton)@ == spec_join(old(automaton)@, keymap@).0,
            conflicts_of(final(conflicts)@) == conflicts_of(old(conflicts)@) + spec_join(
                old(automaton)@,
                keymap@,
            ).1,
            r + 1 == final(automaton).states@.len(),
            r >= start_cnt,
    {
        let pairs = keymap.iter();
        let n = pairs.len();
        let ghost m0 = automaton@;
        let ghost cinit = conflicts_of(conflicts@);
        let mut i: usize = 0;
        proof {
            assert(keymap@.skip(0) =~= keymap@);
            assert(conflicts_of(conflicts@).skip(cinit.len() as int) =~= Seq::<
                ConflictModel,
            >::empty());
        }
        while i < n
            invariant
                automaton.wf(),
                n == keymap@.len(),
                i <= n,
                pairs@.len() == n,
                forall|k: int|
                    0 <= k < n ==> (#[trigger] pairs@[k]).0@ == keymap@[k].0 && pairs@[k].1@
                        == keymap@[k].1,
                automaton@.states.len() >= m0.states.len(),
                cinit.len() <= conflicts_of(conflicts@).len(),
                conflicts_of(conflicts@).take(cinit.len() as int) == cinit,
                spec_join(m0, keymap@).0 == spec_join(automaton@, keymap@.skip(i as int)).0,
                spec_join(m0, keymap@).1 == conflicts_of(conflicts@).skip(cinit.len() as int)
                    + spec_join(automaton@, keymap@.skip(i as int)).1,
            decreases n - i,
        {
            let seq_str: &String = &pairs[i].0;
            let out_str: &String = &pairs[i].1;
            let ghost m_entry = automaton@;
            let ghost centry = conflicts_of(conflicts@);
            proof {
                assert(keymap@.skip(i as int)[0] == keymap@[i as int]);
                assert(keymap@.skip(i as int).drop_first() =~= keymap@.skip(i + 1));
            }
            let slen = seq_str.as_str().unicode_len();
            let mut cur: usize = 0;
            let mut label = String::new();
            let mut j: usize = 0;
            proof {
                assert(seq_str@.skip(0) =~= seq_str@);
                assert(label@ =~= seq_str@.take(0));
            }
            while j < slen
                invariant
                    automaton.wf(),
                    slen == seq_str@.len(),
                    j <= slen,
                    cur < automaton.states@.len(),
                    label@ == seq_str@.take(j as int),
                    automaton@.states.len() >= m_entry.states.len(),
                    spec_insert(m_entry, seq_str@, out_str@) == spec_insert_from(
                        automaton@,
                        cur as int,
                        label@,
                        seq_str@.skip(j as int),
                        out_str@,
                    ),
                decreases slen - j,
            {
                let c = seq_str.as_str().get_char(j);
                proof {
                    assert(seq_str@.skip(j as int)[0] == seq_str@[j as int]);
                    assert(seq_str@.skip(j as int).drop_first() =~= seq_str@.skip(j + 1));
                    assert(seq_str@.take(j as int).push(seq_str@[j as int]) =~= seq_str@.take(
                        j + 1,
                    ));
                }
                let step = automaton.find_edge(cur, c);
                push_char(&mut label, c);
                match step {
                    Some(t) => {
                        cur = t;
                    },
                    None => {
                        let new_id = automaton.states.len();
                        let new_label = label.clone();
                        let ghost m_before = automaton@;
                        automaton.states[cur].next.push((c, new_id));
                        automaton.states.push(
                            State {
                                state_num: new_id,
                                next: Vec::new(),
                                label: new_label,
                                accepting: None,
                            },
                        );
                        proof {
                            assert(automaton@ =~~= add_state(
                                m_before,
                                cur as int,
                                c,
                                seq_str@.take(j + 1),
                            ));
                            lemma_add_state_wf(m_before, cur as int, c, seq_str@.take(j + 1));
                        }
                        cur = new_id;
                    },
                }
                j += 1;
            }
            proof {
                assert(seq_str@.take(slen as int) =~= seq_str@);
                assert(seq_str@.skip(slen as int) =~= Seq::<char>::empty());
            }
            let ghost m_now = automaton@;
            let no_accept = automaton.states[cur].accepting.is_none();
            if no_accept {
                let v = out_str.clone();
                automaton.states[cur].accepting = Some(v);
                proof {
                    assert(automaton@ =~~= set_accept(m_now, cur as int, out_str@));
                    lemma_set_accept_wf(m_now, cur as int, out_str@);
                    assert(spec_insert(m_entry, seq_str@, out_str@) == (automaton@, None::<
                        ConflictModel,
                    >));
                }
            } else {
                match &automaton.states[cur].accepting {
                    Some(kept_ref) => {
                        if !str_eq(kept_ref.as_str(), out_str.as_str()) {
                            let rec = MapConflict {
                                sequence: seq_str.clone(),
                                kept: kept_ref.clone(),
                                rejected: out_str.clone(),
                            };
                            conflicts.push(rec);
                            proof {
                                assert(conflicts_of(conflicts@) =~= centry.push(
                                    ConflictModel {
                                        sequence: seq_str@,
                                        kept: kept_ref@,
                                        rejected: out_str@,
                                    },
                                ));
                            }
                        }
                    },
                    None => {},
                }
            }
            proof {
                let stepr = spec_insert(m_entry, seq_str@, out_str@);
                assert(automaton@ == stepr.0);
                assert(conflicts_of(conflicts@) =~= centry + conflict_seq(stepr.1));
                assert(conflicts_of(conflicts@).take(cinit.len() as int) =~= cinit);
                assert(conflicts_of(conflicts@).skip(cinit.len() as int) =~= centry.skip(
                    cinit.len() as int,
                ) + conflict_seq(stepr.1));
                assert(spec_join(m_entry, keymap@.skip(i as int)).0 == spec_join(
                    automaton@,
                    keymap@.skip(i + 1),
                ).0);
                assert(spec_join(m_entry, keymap@.skip(i as int)).1 == conflict_seq(stepr.1)
                    + spec_join(automaton@, keymap@.skip(i + 1)).1);
                assert(conflicts_of(conflicts@).skip(cinit.len() as int) + spec_join(
                    automaton@,
                    keymap@.skip(i + 1),
                ).1 =~= centry.skip(cinit.len() as int) + spec_join(
                    m_entry,
                    keymap@.skip(i as int),
                ).1);
            }
            i += 1;
        }
        proof {
            assert(keymap@.skip(n as int) =~= Seq::<(Seq<char>, Seq<char>)>::empty());
            assert(conflicts_of(conflicts@) =~= conflicts_of(conflicts@).take(cinit.len() as int)
                + conflicts_of(conflicts@).skip(cinit.len() as int));
        }
        automaton.states.len() - 1
    }

    /// Builds an automaton from a single section: the initial automaton
    /// with the section's rules folded in.  Returns the automaton, the
    /// highest state id allocated, and the conflicts raised.
    pub fn from_section(keymap: &KbdMap) -> (r: (Automaton, usize, Vec<MapConflict>))
        ensures
            r.0.wf(),
            r.0@ == spec_join(init_model(), keymap@).0,
            conflicts_of(r.2@) == spec_join(init_model(), keymap@).1,
            r.1 + 1 == r.0.states@.len(),
    {
        let mut a = Automaton::new_initial();
        let mut conflicts: Vec<MapConflict> = Vec::new();
        proof {
            assert(conflicts_of(conflicts@) =~= Seq::<ConflictModel>::empty());
        }
        let cnt = Automaton::join_section(&mut a, keymap, 0, &mut conflicts);
        proof {
            assert(Seq::<ConflictModel>::empty() + spec_join(init_model(), keymap@).1 =~=
                spec_join(init_model(), keymap@).1);
        }
        (a, cnt, conflicts)
    }

    /// Builds the merged automaton from every section of `writer`, in
    /// order: one shared state graph in which later sections reuse the
    /// transitions of earlier ones.  Returns the automaton, one boundary
    /// per section (the highest state id allocated once that section was
    /// folded in), and all conflicts raised, in order.
    ///
    /// The result is exactly the functional fold [`spec_build`] of the
    /// sections' pair lists.
    pub fn from_writer(writer: &KbdWriter) -> (r: (Automaton, Vec<usize>, Vec<MapConflict>))
        ensures
            r.0.wf(),
            r.0@ == spec_build(section_pairs(writer@.sections)).0,
            usizes(r.1@) == spec_build(section_pairs(writer@.sections)).1,
            conflicts_of(r.2@) == spec_build(section_pairs(writer@.sections)).2,
            r.1@.len() == writer@.sections.len(),
    {
        let ghost sp = section_pairs(writer@.sections);
        let mut a = Automaton::new_initial();
        let mut ranges: Vec<usize> = Vec::new();
        let mut conflicts: Vec<MapConflict> = Vec::new();
        let mut state_cnt: usize = 0;
        let n = writer.sections.len();
        let mut i: usize = 0;
        proof {
            assert(sp.skip(0) =~= sp);
            assert(usizes(ranges@) =~= Seq::<int>::empty());
            assert(conflicts_of(conflicts@) =~= Seq::<ConflictModel>::empty());
            assert(Seq::<int>::empty() + spec_build_from(a@, sp).1 =~= spec_build_from(a@, sp).1);
            assert(Seq::<ConflictModel>::empty() + spec_build_from(a@, sp).2 =~= spec_build_from(
                a@,
                sp,
            ).2);
        }
        while i < n
            invariant
                a.wf(),
                n == writer.sections@.len(),
                sp == section_pairs(writer@.sections),
                sp.len() == n,
                i <= n,
                state_cnt + 1 == a.states@.len(),
                ranges@.len() == i,
                spec_build(sp).0 == spec_build_from(a@, sp.skip(i as int)).0,
                spec_build(sp).1 == usizes(ranges@) + spec_build_from(a@, sp.skip(i as int)).1,
                spec_build(sp).2 == conflicts_of(conflicts@) + spec_build_from(
                    a@,
                    sp.skip(i as int),
                ).2,
            decreases n - i,
        {
            let ghost m_entry = a@;
            let ghost centry = conflicts_of(conflicts@);
            proof {
                assert(sp.skip(i as int)[0] == sp[i as int]);
                assert(sp[i as int] == writer@.sections[i as int].1);
                assert(sp.skip(i as int).drop_first() =~= sp.skip(i + 1));
            }
            state_cnt = Automaton::join_section(
                &mut a,
                &writer.sections[i].1,
                state_cnt,
                &mut conflicts,
            );
            ranges.push(state_cnt);
            proof {
                assert(usizes(ranges@) =~= usizes(ranges@).take(i as int).push(state_cnt as int));
                assert(spec_build(sp).1 =~= usizes(ranges@) + spec_build_from(a@, sp.skip(i + 1)).1);
                assert(spec_build(sp).2 =~= conflicts_of(conflicts@) + spec_build_from(
                    a@,
                    sp.skip(i + 1),
                ).2);
            }
            i += 1;
        }
        proof {
            assert(sp.skip(n as int) =~= Seq::<Seq<(Seq<char>, Seq<char>)>>::empty());
            assert(spec_build(sp).1 =~= usizes(ranges@));
            assert(spec_build(sp).2 =~= conflicts_of(conflicts@));
        }
        (a, ranges, conflicts)
    }

    /// Evaluates `input` against the automaton: walks from the start state,
    /// following one transition per character, and returns the accept value
    /// of the state the walk ends in.  Returns `None` as soon as a character
    /// has no transition, or when the final state accepts nothing; a matched
    /// empty output is distinct from no match.
    pub fn run(&self, input: &str) -> (r: Option<String>)
        requires
            self.wf(),
        ensures
            match r {
                Some(ref s) => self@.match_result(input@) == Some(s@),
                None => self@.match_result(input@) is None,
            },
    {
        let len = input.unicode_len();
        let mut cur: usize = 0;
        let mut i: usize = 0;
        proof {
            assert(input@.skip(0) =~= input@);
        }
        while i < len
            invariant
                self.wf(),
                len == input@.len(),
                i <= len,
                cur < self.states@.len(),
                self@.walk(input@) == self@.walk_from(cur as int, input@.skip(i as int)),
            decreases len - i,
        {
            let c = input.get_char(i);
            proof {
                assert(input@.skip(i as int)[0] == input@[i as int]);
            }
            match self.find_edge(cur, c) {
                Some(t) => {
                    proof {
                        assert(input@.skip(i as int).drop_first() =~= input@.skip(i + 1));
                    }
                    cur = t;
                },
                None => {
                    proof {
                        assert(self@.walk_from(cur as int, input@.skip(i as int)) is None);
                    }
                    return None;
                },
            }
            i += 1;
        }
        proof {
            assert(input@.skip(len as int) =~= Seq::<char>::empty());
            assert(self@.walk(input@) == Some(cur as int));
        }
        match &self.states[cur].accepting {
            Some(mapped) => Some(mapped.clone()),
            None => None,
        }
    }
}


impl Automaton {
    /// Appends one state's line of the embeddable table.
    #[verifier::rlimit(60)]
    fn json_emit_state(o: &mut String, st: &State, last: bool)
        ensures
            final(o)@ == old(o)@ + json_state_line(st@, 0, last),
    {
        o.append("    {l: \"");
        append_escaped(o, st.label.as_str());
        o.append("\", a: ");
        match &st.accepting {
            Some(v) => {
                push_char(o, '"');
                append_escaped(o, v.as_str());
                push_char(o, '"');
            },
            None => {
                o.append("null");
            },
        }
        proof {
            assert(o@ =~= old(o)@ + "    {l: \""@ + escape_quotes(st@.label) + "\", a: "@
                + json_accept_str(st@.accepting));
        }
        let en = st.next.len();
        o.append(", t: ");
        if en == 0 {
            o.append("null");
            proof {
                assert(st@.edges.len() == 0);
            }
        } else {
            o.append("new Map([");
            let ghost pairs_start = o@;
            let mut j: usize = 0;
            proof {
                assert(o@ =~= pairs_start + json_pairs(st@.edges, 0));
            }
            while j < en
                invariant
                    en == st.next@.len(),
                    st@.edges.len() == en,
                    j <= en,
                    o@ == pairs_start + json_pairs(st@.edges, j as int),
                decreases en - j,
            {
                let (c, tgt) = st.next[j];
                proof {
                    assert(st@.edges[j as int] == (c, tgt as int));
                }
                if j > 0 {
                    push_char(o, ',');
                }
                o.append("[\"");
                if c == '"' {
                    push_char(o, '\\');
                    push_char(o, '"');
                } else {
                    push_char(o, c);
                }
                o.append("\", ");
                append_usize(o, tgt);
                o.append("]");
                j += 1;
                proof {
                    assert(seq![c].drop_last() =~= Seq::<char>::empty());
                    assert(seq![c].last() == c);
                    assert(escape_quotes(Seq::<char>::empty()) =~= Seq::<char>::empty());
                    assert(escape_quotes(seq![c]) =~= (if c == '"' {
                        seq!['\\', '"']
                    } else {
                        seq![c]
                    }));
                    assert(o@ =~= pairs_start + json_pairs(st@.edges, j as int));
                }
            }
            o.append("])");
            proof {
                assert(st@.edges.len() > 0);
            }
        }
        if last {
            o.append("}\n");
        } else {
            o.append("},\n");
        }
        proof {
            assert(o@ =~= old(o)@ + json_state_line(st@, 0, last));
        }
    }

    /// Renders the automaton as the embeddable lookup table: one line per
    /// state with its label, accept value and outgoing transitions, in
    /// state-id order, appended to `o`.
    pub fn json_codegen(&self, o: &mut String)
        ensures
            final(o)@ == old(o)@ + json_doc(self@),
    {
        o.append("let automaton = [\n");
        let ghost base = o@;
        let n = self.states.len();
        let mut i: usize = 0;
        proof {
            assert(o@ =~= base + json_states(self@.states, 0));
        }
        while i < n
            invariant
                n == self.states@.len(),
                i <= n,
                o@ == base + json_states(self@.states, i as int),
            decreases n - i,
        {
            let st = &self.states[i];
            proof {
                assert(st@ == self@.states[i as int]);
            }
            Automaton::json_emit_state(o, st, i + 1 == n);
            i += 1;
            proof {
                assert(json_state_line(st@, 0, i == n) == json_state_line(
                    self@.states[i - 1],
                    i - 1,
                    i == n,
                ));
                assert(o@ =~= base + json_states(self@.states, i as int));
            }
        }
        o.append("];\n");
        proof {
            assert(o@ =~= old(o)@ + json_doc(self@));
        }
    }

    /// Appends one cluster of the diagnostic graph.
    fn gv_emit_cluster(
        &self,
        o: &mut String,
        num: usize,
        name: &str,
        lower: usize,
        range_end: usize,
        style: &AutomatonStyle,
        Ghost(rs): Ghost<Seq<int>>,
    )
        requires
            self.wf(),
            range_end < self.states@.len(),
            0 <= num < rs.len(),
            rs[num as int] == range_end,
            lower as int == cluster_lower(rs, num as int),
        ensures
            final(o)@ == old(o)@ + gv_cluster(name@, rs, self@.states, style@, num as int),
    {
        o.append("\tsubgraph cluster_");
        append_usize(o, num);
        o.append(" {\n");
        o.append("\t\tstyle=");
        o.append(style.cluster_style.as_str());
        o.append(";\n");
        o.append("\t\tbgcolor=");
        o.append(style.cluster_bgcolor.as_str());
        o.append(";\n");
        o.append("\t\tnode [style=filled,shape=");
        o.append(style.cluster_node_shape.as_str());
        o.append(",fillcolor=");
        o.append(style.cluster_node_bgcolor.as_str());
        o.append(",fontcolor=");
        o.append(style.cluster_node_fontcolor.as_str());
        o.append("];\n");
        o.append("\t\tlabel=\"");
        o.append(name);
        o.append("\";\n");
        let n_states_total = self.states.len();
        let ghost nodes_start = o@;
        let mut cur = lower;
        proof {
            assert(o@ =~= nodes_start + gv_cluster_nodes(self@.states, lower as int, lower as int));
        }
        while cur <= range_end
            invariant
                self.wf(),
                n_states_total == self.states@.len(),
                range_end < n_states_total,
                lower <= cur,
                cur <= range_end + 1 || cur == lower,
                o@ == nodes_start + gv_cluster_nodes(self@.states, lower as int, cur as int),
            decreases range_end + 1 - cur,
        {
            let st = &self.states[cur];
            proof {
                assert(st@ == self@.states[cur as int]);
            }
            match &st.accepting {
                Some(a) => {
                    o.append("\t\t");
                    append_usize_pad(o, cur, 3);
                    o.append(" [label=\"");
                    append_escaped(o, a.as_str());
                    o.append("\"];\n");
                },
                None => {},
            }
            cur += 1;
            proof {
                assert(o@ =~= nodes_start + gv_cluster_nodes(
                    self@.states,
                    lower as int,
                    cur as int,
                ));
            }
        }
        proof {
            assert(gv_cluster_nodes(self@.states, lower as int, cur as int) =~= gv_cluster_nodes(
                self@.states,
                lower as int,
                rs[num as int] + 1,
            ));
        }
        o.append("\t}\n");
        proof {
            assert(o@ =~= old(o)@ + gv_cluster(name@, rs, self@.states, style@, num as int));
        }
    }

    /// Appends one state's node line and transition lines of the
    /// diagnostic graph.
    fn gv_emit_state(o: &mut String, st: &State, id: usize, style: &AutomatonStyle)
        ensures
            final(o)@ == old(o)@ + gv_state_line(st@, id as int, style@) + gv_edge_lines(
                st@.edges,
                id as int,
                st@.edges.len() as int,
            ),
    {
        if id == 0 {
            o.append("\t");
            append_usize_pad(o, id, 3);
            o.append(" [style=filled,fillcolor=");
            o.append(style.start_bgcolor.as_str());
            o.append(",fontcolor=");
            o.append(style.start_fontcolor.as_str());
            o.append(",shape=");
            o.append(style.start_shape.as_str());
            o.append(",label=\"");
            append_escaped(o, st.label.as_str());
            o.append("\"]\n");
        } else if st.accepting.is_none() {
            o.append("\t");
            append_usize_pad(o, id, 3);
            o.append("     \t[label=\"");
            append_escaped(o, st.label.as_str());
            o.append("\"];\n");
        }
        proof {
            assert(o@ =~= old(o)@ + gv_state_line(st@, id as int, style@));
        }
        let ghost edges_start = o@;
        let en = st.next.len();
        let mut j: usize = 0;
        proof {
            assert(o@ =~= edges_start + gv_edge_lines(st@.edges, id as int, 0));
        }
        while j < en
            invariant
                en == st.next@.len(),
                st@.edges.len() == en,
                j <= en,
                o@ == edges_start + gv_edge_lines(st@.edges, id as int, j as int),
            decreases en - j,
        {
            let (c, tgt) = st.next[j];
            proof {
                assert(st@.edges[j as int] == (c, tgt as int));
            }
            o.append("\t");
            append_usize_pad(o, id, 3);
            o.append(" -> ");
            append_usize_pad(o, tgt, 3);
            o.append("\t[label=\"");
            if c == '"' {
                push_char(o, '\\');
                push_char(o, '"');
            } else if c == ' ' {
                o.append("space");
            } else {
                push_char(o, c);
            }
            o.append("\"];\n");
            j += 1;
            proof {
                assert(o@ =~= edges_start + gv_edge_lines(st@.edges, id as int, j as int));
            }
        }
    }

    /// Renders the automaton as a diagnostic graph, appended to `o`: one
    /// cluster per section of `kbdwriter` (paired with its boundary in
    /// `ranges`) holding the accept states that section reaches, then
    /// every state with its transitions.
    pub fn write(
        &self,
        o: &mut String,
        ranges: &Vec<usize>,
        kbdwriter: &KbdWriter,
        style: &AutomatonStyle,
    )
        requires
            self.wf(),
            forall|i: int| 0 <= i < ranges@.len() ==> (#[trigger] ranges@[i]) < self.states@.len(),
        ensures
            final(o)@ == old(o)@ + gv_doc(
                self@,
                section_names(kbdwriter@.sections),
                usizes(ranges@),
                style@,
            ),
    {
        let ghost names = section_names(kbdwriter@.sections);
        let ghost rs = usizes(ranges@);
        o.append("digraph G {\n");
        let ghost base = o@;
        let n_secs = kbdwriter.sections.len();
        let n_ranges = ranges.len();
        let total_states = self.states.len();
        let k = if n_secs <= n_ranges {
            n_secs
        } else {
            n_ranges
        };
        let mut lower: usize = 1;
        let mut i: usize = 0;
        proof {
            assert(k as int == min_len(names.len() as int, rs.len() as int));
            assert(o@ =~= base + gv_clusters(names, rs, self@.states, style@, 0));
        }
        while i < k
            invariant
                self.wf(),
                forall|t: int|
                    0 <= t < ranges@.len() ==> (#[trigger] ranges@[t]) < self.states@.len(),
                n_secs == kbdwriter.sections@.len(),
                n_ranges == ranges@.len(),
                total_states == self.states@.len(),
                k <= n_secs,
                k <= n_ranges,
                names == section_names(kbdwriter@.sections),
                rs == usizes(ranges@),
                i <= k,
                lower as int == cluster_lower(rs, i as int),
                o@ == base + gv_clusters(names, rs, self@.states, style@, i as int),
            decreases k - i,
        {
            let range_end = ranges[i];
            let name: &String = &kbdwriter.sections[i].0;
            proof {
                assert(name@ == names[i as int]);
                assert(rs[i as int] == range_end);
                assert(range_end < total_states);
            }
            self.gv_emit_cluster(o, i, name.as_str(), lower, range_end, style, Ghost(rs));
            lower = range_end + 1;
            i += 1;
            proof {
                assert(o@ =~= base + gv_clusters(names, rs, self@.states, style@, i as int));
            }
        }
        o.append("\tnode [style=filled,fillcolor=");
        o.append(style.intermediate_node_bgcolor.as_str());
        o.append(",fontcolor=");
        o.append(style.intermediate_fontcolor.as_str());
        o.append(",shape=");
        o.append(style.intermediate_shape.as_str());
        o.append("];\n");
        proof {
            assert(o@ =~= base + gv_clusters(
                names,
                rs,
                self@.states,
                style@,
                min_len(names.len() as int, rs.len() as int),
            ) + gv_defaults_line(style@));
        }
        let ghost states_start = o@;
        let n_states = self.states.len();
        let mut s: usize = 0;
        proof {
            assert(o@ =~= states_start + gv_states(self@.states, style@, 0));
        }
        while s < n_states
            invariant
                self.wf(),
                n_states == self.states@.len(),
                s <= n_states,
                o@ == states_start + gv_states(self@.states, style@, s as int),
            decreases n_states - s,
        {
            let st = &self.states[s];
            proof {
                assert(st@ == self@.states[s as int]);
            }
            Automaton::gv_emit_state(o, st, s, style);
            s += 1;
            proof {
                assert(o@ =~= states_start + gv_states(self@.states, style@, s as int));
            }
        }
        o.append("}\n");
        proof {
            assert(o@ =~= old(o)@ + gv_doc(self@, names, rs, style@));
        }
    }
}

} // verus!
