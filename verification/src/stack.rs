//! The rules in effect at a directory: one layer for each ancestor that has a
//! rule file, the deepest last.
//!
//! All stacks of a walk live in one append-only store, and a stack is a
//! handle to its deepest layer: a layer names the layer below it. Extending a
//! stack therefore copies nothing and changes no other stack.

use crate::rules::{
    fault_of, pattern_lines, rule_text, well_formed, RuleFileError, RuleSet, RuleText, Verdict,
};
use crate::state::DesiredState;
use vstd::prelude::*;

verus! {

/// One layer of a store: the rules of one directory and the layer below.
pub struct LayerView {
    pub rules: RuleText,
    pub parent: Option<int>,
}

/// Whether every layer names an older layer, or none, as the one below it.
pub open spec fn layers_wf(layers: Seq<LayerView>) -> bool {
    forall|i: int|
        0 <= i < layers.len() ==> match (#[trigger] layers[i]).parent {
            Some(p) => 0 <= p < i,
            None => true,
        }
}

/// Whether `top` is a stack of a store with these layers.
pub open spec fn holds(layers: Seq<LayerView>, top: Option<int>) -> bool {
    match top {
        Some(i) => 0 <= i < layers.len(),
        None => true,
    }
}

/// The rule files of the stack `top`, the shallowest directory first.
pub open spec fn chain(layers: Seq<LayerView>, top: Option<int>) -> Seq<RuleText>
    decreases
        (match top {
            Some(i) if i >= 0 => i + 1,
            _ => 0,
        }),
{
    match top {
        Some(i) if 0 <= i < layers.len() => {
            let below = match layers[i].parent {
                Some(p) if 0 <= p < i => chain(layers, Some(p)),
                _ => Seq::empty(),
            };
            below.push(layers[i].rules)
        },
        _ => Seq::empty(),
    }
}

/// What each rule file of a stack says of a path, the shallowest first.
pub open spec fn verdicts(rules: Seq<RuleText>, path: Seq<char>, is_dir: bool) -> Seq<Verdict> {
    Seq::new(rules.len(), |i: int| rules[i].verdict(path, is_dir))
}

/// The deepest rule file that says anything decides; where none does, the
/// path is included.
pub open spec fn decide(verdicts: Seq<Verdict>) -> DesiredState
    decreases verdicts.len(),
{
    if verdicts.len() == 0 {
        DesiredState::Included
    } else {
        match verdicts.last() {
            Verdict::Ignore => DesiredState::Excluded,
            Verdict::Whitelist => DesiredState::Included,
            Verdict::Silent => decide(verdicts.drop_last()),
        }
    }
}

/// What one rule file settles: the state of the path where it says
/// anything of it, nothing where it is silent.
pub open spec fn settled_by(verdict: Verdict) -> Option<DesiredState> {
    match verdict {
        Verdict::Ignore => Some(DesiredState::Excluded),
        Verdict::Whitelist => Some(DesiredState::Included),
        Verdict::Silent => None,
    }
}

/// The state that a stack of rule files asks for a path.
pub open spec fn desired(rules: Seq<RuleText>, path: Seq<char>, is_dir: bool) -> DesiredState {
    decide(verdicts(rules, path, is_dir))
}

/// A stack of rule files: a handle into the store that made it.
#[derive(Clone, Copy, Debug, PartialEq, Eq, Structural)]
pub struct PatternStack {
    top: Option<usize>,
}

impl View for PatternStack {
    type V = Option<int>;

    closed spec fn view(&self) -> Option<int> {
        match self.top {
            Some(i) => Some(i as int),
            None => None,
        }
    }
}

impl PatternStack {
    /// The stack without any rule file.
    pub fn empty() -> (stack: PatternStack)
        ensures
            stack@ is None,
    {
        PatternStack { top: None }
    }
}

/// What the answer of one rule file settles. Where it settles nothing, the
/// rule files above it decide.
pub fn opinion(verdict: Verdict) -> (settled: Option<DesiredState>)
    ensures
        settled == settled_by(verdict),
        forall|above: Seq<Verdict>|
            #[trigger] decide(above.push(verdict)) == match settled {
                Some(state) => state,
                None => decide(above),
            },
{
    proof {
        assert forall|above: Seq<Verdict>|
            #[trigger] decide(above.push(verdict)) == match settled_by(verdict) {
                Some(state) => state,
                None => decide(above),
            } by {
            assert(above.push(verdict).last() == verdict);
            assert(above.push(verdict).drop_last() =~= above);
        }
    }
    match verdict {
        Verdict::Ignore => Some(DesiredState::Excluded),
        Verdict::Whitelist => Some(DesiredState::Included),
        Verdict::Silent => None,
    }
}

/// The state that the answers of a stack of rule files ask for, given the
/// answers with the shallowest first: the deepest answer that is not silent
/// decides, and where all are silent the path is included.
pub fn decide_all(verdicts: &Vec<Verdict>) -> (state: DesiredState)
    ensures
        state == decide(verdicts@),
{
    let mut n: usize = verdicts.len();
    proof {
        assert(verdicts@.take(n as int) =~= verdicts@);
    }
    while n > 0
        invariant
            0 <= n <= verdicts.len(),
            decide(verdicts@) == decide(verdicts@.take(n as int)),
        decreases n,
    {
        proof {
            assert(verdicts@.take(n as int) =~= verdicts@.take(n as int - 1).push(
                verdicts@[n as int - 1],
            ));
        }
        match opinion(verdicts[n - 1]) {
            Some(state) => {
                return state;
            },
            None => {
                n = n - 1;
            },
        }
    }
    proof {
        assert(verdicts@.take(0).len() == 0);
    }
    DesiredState::Included
}

struct Layer {
    rules: RuleSet,
    parent: Option<usize>,
}

impl View for Layer {
    type V = LayerView;

    closed spec fn view(&self) -> LayerView {
        LayerView {
            rules: self.rules@,
            parent: match self.parent {
                Some(p) => Some(p as int),
                None => None,
            },
        }
    }
}

/// The store of all layers of a walk.
pub struct RuleLayers {
    layers: Vec<Layer>,
}

impl View for RuleLayers {
    type V = Seq<LayerView>;

    closed spec fn view(&self) -> Seq<LayerView> {
        Seq::new(self.layers@.len(), |i: int| self.layers@[i]@)
    }
}

/// Adding a layer to a store changes no stack that the store held.
pub proof fn lemma_chain_unchanged(layers: Seq<LayerView>, layer: LayerView, top: Option<int>)
    requires
        holds(layers, top),
    ensures
        chain(layers.push(layer), top) == chain(layers, top),
    decreases
        (match top {
            Some(i) if i >= 0 => i + 1,
            _ => 0,
        }),
{
    match top {
        Some(i) => {
            assert(layers.push(layer)[i] == layers[i]);
            match layers[i].parent {
                Some(p) if 0 <= p < i => {
                    lemma_chain_unchanged(layers, layer, Some(p));
                },
                _ => {},
            }
        },
        None => {},
    }
}

/// The stack that a new layer tops is the stack below it with the new rule
/// file appended.
pub proof fn lemma_chain_extended(layers: Seq<LayerView>, rules: RuleText, top: Option<int>)
    requires
        holds(layers, top),
    ensures
        chain(layers.push(LayerView { rules, parent: top }), Some(layers.len() as int)) == chain(
            layers,
            top,
        ).push(rules),
{
    let layer = LayerView { rules, parent: top };
    lemma_chain_unchanged(layers, layer, top);
    assert(layers.push(layer)[layers.len() as int] == layer);
}

/// The verdicts of a stack with one more rule file.
pub proof fn lemma_verdicts_push(
    rules: Seq<RuleText>,
    last: RuleText,
    path: Seq<char>,
    is_dir: bool,
)
    ensures
        verdicts(rules.push(last), path, is_dir) == verdicts(rules, path, is_dir).push(
            last.verdict(path, is_dir),
        ),
{
    assert(verdicts(rules.push(last), path, is_dir) =~= verdicts(rules, path, is_dir).push(
        last.verdict(path, is_dir),
    ));
}

impl RuleLayers {
    #[verifier::type_invariant]
    spec fn wf(self) -> bool {
        layers_wf(self@)
    }

    /// A store without layers.
    pub fn new() -> (store: RuleLayers)
        ensures
            store@ == Seq::<LayerView>::empty(),
    {
        let store = RuleLayers { layers: Vec::new() };
        assert(store@ =~= Seq::<LayerView>::empty());
        store
    }

    /// Whether `stack` is a stack of this store.
    pub fn has(&self, stack: PatternStack) -> (held: bool)
        ensures
            held == holds(self@, stack@),
    {
        match stack.top {
            Some(i) => i < self.layers.len(),
            None => true,
        }
    }

    /// The rules in effect in directory `dir`, whose parent directory has the
    /// rules `stack`. Without a rule file they are the parent's, and the very
    /// same stack is returned. A well-formed rule file is put on top of the
    /// parent's stack, which stays as it was. A malformed one is an error and
    /// leaves the store unchanged.
    pub fn extend(
        &mut self,
        stack: PatternStack,
        dir: &str,
        rule_file: Option<&Vec<String>>,
    ) -> (r: Result<PatternStack, RuleFileError>)
        requires
            holds(old(self)@, stack@),
        ensures
            match rule_file {
                None => r == Ok::<PatternStack, RuleFileError>(stack) && final(self)@ == old(self)@,
                Some(lines) => {
                    let added = rule_text(dir@, pattern_lines(lines@));
                    &&& r is Ok <==> well_formed(pattern_lines(lines@))
                    &&& r matches Ok(extended) ==> {
                        &&& final(self)@ == old(self)@.push(
                            LayerView { rules: added, parent: stack@ },
                        )
                        &&& extended@ == Some(old(self)@.len() as int)
                        &&& chain(final(self)@, extended@) == chain(old(self)@, stack@).push(added)
                    }
                    &&& r matches Err(error) ==> {
                        &&& fault_of(pattern_lines(lines@), error)
                        &&& final(self)@ == old(self)@
                    }
                },
            },
            r matches Ok(extended) ==> holds(final(self)@, extended@),
            forall|other: Option<int>|
                holds(old(self)@, other) ==> holds(final(self)@, other) && #[trigger] chain(
                    final(self)@,
                    other,
                ) == chain(old(self)@, other),
    {
        proof {
            use_type_invariant(&*self);
        }
        match rule_file {
            None => Ok(stack),
            Some(lines) => {
                match RuleSet::compile(dir, lines) {
                    Err(error) => Err(error),
                    Ok(rules) => Ok(self.push(stack, rules)),
                }
            },
        }
    }

    /// Puts the compiled rules of a directory on top of the stack `stack`,
    /// which stays as it was, like every other stack of the store.
    pub fn push(&mut self, stack: PatternStack, rules: RuleSet) -> (extended: PatternStack)
        requires
            holds(old(self)@, stack@),
        ensures
            final(self)@ == old(self)@.push(LayerView { rules: rules@, parent: stack@ }),
            extended@ == Some(old(self)@.len() as int),
            holds(final(self)@, extended@),
            chain(final(self)@, extended@) == chain(old(self)@, stack@).push(rules@),
            forall|other: Option<int>|
                holds(old(self)@, other) ==> holds(final(self)@, other) && #[trigger] chain(
                    final(self)@,
                    other,
                ) == chain(old(self)@, other),
    {
        proof {
            use_type_invariant(&*self);
        }
        let ghost before = self@;
        let ghost layer = LayerView { rules: rules@, parent: stack@ };
        let mut layers: Vec<Layer> = Vec::new();
        core::mem::swap(&mut self.layers, &mut layers);
        let index = layers.len();
        layers.push(Layer { rules, parent: stack.top });
        proof {
            let after = Seq::new(layers@.len(), |i: int| layers@[i]@);
            assert(after =~= before.push(layer));
            assert(layers_wf(after));
        }
        self.layers = layers;
        proof {
            assert(self@ =~= before.push(layer));
            lemma_chain_extended(before, layer.rules, stack@);
            assert forall|other: Option<int>| holds(before, other) implies holds(self@, other)
                && #[trigger] chain(self@, other) == chain(before, other) by {
                lemma_chain_unchanged(before, layer, other);
            }
        }
        PatternStack { top: Some(index) }
    }

    /// The state that the rules `stack` ask for a path once the rules `top`
    /// of one more directory, if it has any, lie on them.
    pub fn classify_with(
        &self,
        stack: PatternStack,
        top: Option<&RuleSet>,
        path: &str,
        is_dir: bool,
    ) -> (state: DesiredState)
        requires
            holds(self@, stack@),
        ensures
            state == desired(
                match top {
                    Some(rules) => chain(self@, stack@).push(rules@),
                    None => chain(self@, stack@),
                },
                path@,
                is_dir,
            ),
    {
        match top {
            Some(rules) => {
                proof {
                    lemma_verdicts_push(chain(self@, stack@), rules@, path@, is_dir);
                }
                match opinion(rules.verdict(path, is_dir)) {
                    Some(state) => state,
                    None => self.classify(stack, path, is_dir),
                }
            },
            None => self.classify(stack, path, is_dir),
        }
    }

    /// The state that the rules `stack` ask for a path: the deepest rule file
    /// that says anything of the path decides, and a path of which none says
    /// anything is included.
    pub fn classify(&self, stack: PatternStack, path: &str, is_dir: bool) -> (state: DesiredState)
        requires
            holds(self@, stack@),
        ensures
            state == desired(chain(self@, stack@), path@, is_dir),
    {
        proof {
            use_type_invariant(self);
        }
        let mut cursor = stack.top;
        loop
            invariant
                layers_wf(self@),
                self@.len() == self.layers@.len(),
                forall|i: int| 0 <= i < self.layers@.len() ==> self@[i] == self.layers@[i]@,
                match cursor {
                    Some(i) => i < self.layers@.len(),
                    None => true,
                },
                desired(chain(self@, stack@), path@, is_dir) == desired(
                    chain(
                        self@,
                        match cursor {
                            Some(i) => Some(i as int),
                            None => None,
                        },
                    ),
                    path@,
                    is_dir,
                ),
            decreases
                (match cursor {
                    Some(i) => i + 1,
                    None => 0,
                }),
        {
            match cursor {
                None => {
                    return DesiredState::Included;
                },
                Some(i) => {
                    let layer = &self.layers[i];
                    let verdict = layer.rules.verdict(path, is_dir);
                    proof {
                        let below = match self@[i as int].parent {
                            Some(p) if 0 <= p < i => chain(self@, Some(p)),
                            _ => Seq::empty(),
                        };
                        assert(chain(self@, Some(i as int)) == below.push(self@[i as int].rules));
                        lemma_verdicts_push(below, self@[i as int].rules, path@, is_dir);
                        assert(verdicts(below, path@, is_dir).push(verdict).drop_last()
                            =~= verdicts(below, path@, is_dir));
                        assert(below == chain(self@, self@[i as int].parent));
                    }
                    match opinion(verdict) {
                        Some(state) => {
                            return state;
                        },
                        None => {
                            cursor = layer.parent;
                        },
                    }
                },
            }
        }
    }
}

} // verus!
