//! What holds of the library as a whole, proved from the contracts of its
//! functions.

use crate::rules::{rule_text, RuleText, Verdict};
use crate::stack::{
    chain, desired, holds, lemma_chain_extended, lemma_chain_unchanged, verdicts, LayerView,
};
use crate::state::{
    effect_of, is_corrective, marker_after, reconciled, Action, ActualState, DesiredState,
    MarkerOp, StoreMode,
};
use crate::sweep::{subdirectories, sweep_actions, sweep_step, SweepState};
use crate::walk::{
    child_action, child_desired, counted, descends, descents, is_absolute, listing_absolute,
    planned, rules_entered, size_missing, sizes_known, sound, stack_entered, step,
    visit_succeeds, Entry, Observation, Task, WalkState,
};
use vstd::prelude::*;

verus! {

/// The listing of one directory: the lines of its rule file, if it has one,
/// and its children.
pub struct Listing {
    pub rule_file: Option<Seq<Seq<char>>>,
    pub children: Seq<Observation>,
}

/// A child as it is found after its action has been carried out under
/// `mode`: only its marker can differ.
pub open spec fn settled_child(mode: StoreMode, rules: Seq<RuleText>, child: Observation)
    -> Observation {
    Observation {
        actual: marker_after(effect_of(mode, child_action(rules, child)), child.actual),
        ..child
    }
}

/// The children of a directory as they are found after a visit under `mode`.
pub open spec fn settled(mode: StoreMode, rules: Seq<RuleText>, children: Seq<Observation>)
    -> Seq<Observation> {
    Seq::new(children.len(), |i: int| settled_child(mode, rules, children[i]))
}

/// The state of a walk after the directories at the head of the worklist
/// have been visited one after the other, each with its listing.
pub open spec fn run(state: WalkState, listings: Seq<Listing>) -> WalkState
    decreases listings.len(),
{
    if listings.len() == 0 {
        state
    } else {
        run(step(state, listings[0].rule_file, listings[0].children), listings.skip(1))
    }
}

/// The actions that these visits answer with, one sequence for each visit.
pub open spec fn run_actions(state: WalkState, listings: Seq<Listing>) -> Seq<Seq<Action>>
    decreases listings.len(),
{
    if listings.len() == 0 {
        Seq::empty()
    } else {
        seq![planned(state, listings[0].rule_file, listings[0].children)] + run_actions(
            step(state, listings[0].rule_file, listings[0].children),
            listings.skip(1),
        )
    }
}

/// The listings that a later walk of the same tree finds, when nothing has
/// changed but the markers that this walk changed under `mode`.
pub open spec fn run_settled(mode: StoreMode, state: WalkState, listings: Seq<Listing>) -> Seq<
    Listing,
>
    decreases listings.len(),
{
    if listings.len() == 0 {
        Seq::empty()
    } else {
        let first = listings[0];
        let rules = rules_entered(state.layers, state.pending[0], first.rule_file);
        seq![
            Listing {
                rule_file: first.rule_file,
                children: settled(mode, rules, first.children),
            },
        ] + run_settled(mode, step(state, first.rule_file, first.children), listings.skip(1))
    }
}

/// Reconciling an entry a second time, after the first action was carried
/// out on a live store, corrects nothing and leaves the marker as it is.
pub proof fn lemma_reconcile_idempotent(desired: DesiredState, actual: ActualState)
    ensures
        ({
            let after = marker_after(
                effect_of(StoreMode::Live, reconciled(desired, actual)),
                actual,
            );
            &&& !is_corrective(reconciled(desired, after))
            &&& marker_after(effect_of(StoreMode::Live, reconciled(desired, after)), after)
                == after
        }),
{
}

/// Checking marks what the rules exclude and never removes a marker: an
/// excluded entry without a marker is marked, an included entry with a
/// marker is reported and keeps it, and whatever was marked stays marked.
pub proof fn lemma_conservative_marking(mode: StoreMode, desired: DesiredState)
    ensures
        marker_after(
            effect_of(StoreMode::Live, reconciled(DesiredState::Excluded, ActualState::Unmarked)),
            ActualState::Unmarked,
        ) == ActualState::Marked,
        reconciled(DesiredState::Included, ActualState::Marked) == Action::ReportAnomaly,
        marker_after(
            effect_of(mode, reconciled(desired, ActualState::Marked)),
            ActualState::Marked,
        ) == ActualState::Marked,
        reconciled(desired, ActualState::Marked) != Action::Apply(MarkerOp::Unmark),
        reconciled(desired, ActualState::Unmarked) != Action::Apply(MarkerOp::Unmark),
{
}

/// Under the simulated store no action changes a marker.
pub proof fn lemma_simulation_changes_no_marker(action: Action, actual: ActualState)
    ensures
        !(effect_of(StoreMode::Simulated, action) is Persist),
        marker_after(effect_of(StoreMode::Simulated, action), actual) == actual,
{
}

/// Rule files that say nothing of a path leave the decision to the rule
/// files above them: a rule is inherited by every descendant until a deeper
/// rule file overrides it.
pub proof fn lemma_inherited(
    rules: Seq<RuleText>,
    deeper: Seq<RuleText>,
    path: Seq<char>,
    is_dir: bool,
)
    requires
        forall|i: int|
            0 <= i < deeper.len() ==> (#[trigger] deeper[i]).verdict(path, is_dir)
                == Verdict::Silent,
    ensures
        desired(rules + deeper, path, is_dir) == desired(rules, path, is_dir),
    decreases deeper.len(),
{
    if deeper.len() == 0 {
        assert(rules + deeper =~= rules);
    } else {
        let shorter = deeper.drop_last();
        assert(deeper.last().verdict(path, is_dir) == Verdict::Silent);
        assert(verdicts(rules + deeper, path, is_dir).drop_last() =~= verdicts(
            rules + shorter,
            path,
            is_dir,
        ));
        assert(verdicts(rules + deeper, path, is_dir).last() == Verdict::Silent);
        assert forall|i: int| 0 <= i < shorter.len() implies (#[trigger] shorter[i]).verdict(
            path,
            is_dir,
        ) == Verdict::Silent by {
            assert(shorter[i] == deeper[i]);
        }
        lemma_inherited(rules, shorter, path, is_dir);
    }
}

/// The deepest rule file decides whenever it says anything of a path,
/// whatever the rule files above it say.
pub proof fn lemma_deepest_overrides(
    rules: Seq<RuleText>,
    deepest: RuleText,
    path: Seq<char>,
    is_dir: bool,
)
    ensures
        deepest.verdict(path, is_dir) == Verdict::Ignore ==> desired(
            rules.push(deepest),
            path,
            is_dir,
        ) == DesiredState::Excluded,
        deepest.verdict(path, is_dir) == Verdict::Whitelist ==> desired(
            rules.push(deepest),
            path,
            is_dir,
        ) == DesiredState::Included,
        deepest.verdict(path, is_dir) == Verdict::Silent ==> desired(
            rules.push(deepest),
            path,
            is_dir,
        ) == desired(rules, path, is_dir),
{
    let all = verdicts(rules.push(deepest), path, is_dir);
    assert(all.last() == deepest.verdict(path, is_dir));
    assert(all.drop_last() =~= verdicts(rules, path, is_dir));
}

/// A negation in the deepest rule file re-includes what the rule files above
/// it exclude: the entry is included and a check never marks it. Where the
/// deepest rule file says nothing of an entry that the rule files above it
/// exclude, the entry stays excluded, and a check marks it unless it is
/// marked.
pub proof fn lemma_negation_overrides(rules: Seq<RuleText>, deepest: RuleText, child: Observation)
    ensures
        deepest.verdict(child.entry.path@, child.entry.is_dir) == Verdict::Whitelist ==> {
            &&& child_desired(rules.push(deepest), child) == DesiredState::Included
            &&& !is_corrective(child_action(rules.push(deepest), child))
        },
        deepest.verdict(child.entry.path@, child.entry.is_dir) == Verdict::Silent
            && child_desired(rules, child) == DesiredState::Excluded ==> {
            &&& child_desired(rules.push(deepest), child) == DesiredState::Excluded
            &&& child_action(rules.push(deepest), child) == if child.actual
                == ActualState::Unmarked {
                Action::Apply(MarkerOp::Mark)
            } else {
                Action::NoOp
            }
        },
{
    lemma_deepest_overrides(rules, deepest, child.entry.path@, child.entry.is_dir);
}

/// An excluded child is marked unless it is marked, and it is pruned: it
/// adds nothing to the worklist and nothing to the counts, so nothing below
/// it is ever listed.
pub proof fn lemma_excluded_child_is_pruned(
    rules: Seq<RuleText>,
    stack: Option<int>,
    children: Seq<Observation>,
    i: int,
)
    requires
        0 <= i < children.len(),
        child_desired(rules, children[i]) == DesiredState::Excluded,
    ensures
        child_action(rules, children[i]) == if children[i].actual == ActualState::Unmarked {
            Action::Apply(MarkerOp::Mark)
        } else {
            Action::NoOp
        },
        descents(rules, stack, children, i + 1) == descents(rules, stack, children, i),
        counted(rules, children, i + 1) == counted(rules, children, i),
{
}

/// Every directory that a visit queues is an included child of the
/// directory visited.
pub proof fn lemma_queued_are_included(
    rules: Seq<RuleText>,
    stack: Option<int>,
    children: Seq<Observation>,
    n: int,
    k: int,
)
    requires
        0 <= n <= children.len(),
        0 <= k < descents(rules, stack, children, n).len(),
    ensures
        exists|i: int|
            0 <= i < n && descends(rules, #[trigger] children[i]) && descents(
                rules,
                stack,
                children,
                n,
            )[k] == (Task { path: children[i].entry.path@, stack }),
    decreases n,
{
    if n > 0 {
        let before = descents(rules, stack, children, n - 1);
        if descends(rules, children[n - 1]) && k == before.len() {
            assert(descends(rules, children[n - 1]));
        } else {
            lemma_queued_are_included(rules, stack, children, n - 1, k);
        }
    }
}

/// A visit leaves the walk in a state that a walk can be in, as long as
/// the paths of the listing are absolute: it queues only children of the
/// listing, each with the stack in effect in the directory visited.
pub proof fn lemma_step_keeps_sound(
    state: WalkState,
    rule_file: Option<Seq<Seq<char>>>,
    children: Seq<Observation>,
)
    requires
        state.pending.len() > 0,
        sound(state),
        listing_absolute(children),
    ensures
        sound(step(state, rule_file, children)),
{
    let task = state.pending[0];
    let rules = rules_entered(state.layers, task, rule_file);
    let stack = stack_entered(state.layers, task, rule_file);
    let kept = state.pending.skip(1);
    let after = step(state, rule_file, children);
    assert forall|i: int| 0 <= i < after.pending.len() implies is_absolute(
        (#[trigger] after.pending[i]).path,
    ) && holds(after.layers, after.pending[i].stack) by {
        if i < kept.len() {
            assert(after.pending[i] == state.pending[i + 1]);
        } else {
            lemma_queued_are_included(
                rules,
                stack,
                children,
                children.len() as int,
                i - kept.len(),
            );
        }
    }
}

/// A visit changes the rules of no directory that waits, and the
/// sub-directories that it queues get the rules in effect in the directory
/// visited: those of its parent and, behind them, its own rule file.
pub proof fn lemma_step_keeps_rules(
    state: WalkState,
    rule_file: Option<Seq<Seq<char>>>,
    children: Seq<Observation>,
)
    requires
        state.pending.len() > 0,
        sound(state),
    ensures
        ({
            let after = step(state, rule_file, children);
            let kept = state.pending.len() - 1;
            let entered = rules_entered(state.layers, state.pending[0], rule_file);
            &&& kept <= after.pending.len()
            &&& forall|i: int|
                0 <= i < kept ==> (#[trigger] after.pending[i]) == state.pending[i + 1] && chain(
                    after.layers,
                    after.pending[i].stack,
                ) == chain(state.layers, state.pending[i + 1].stack)
            &&& forall|i: int|
                kept <= i < after.pending.len() ==> chain(
                    after.layers,
                    (#[trigger] after.pending[i]).stack,
                ) == entered
        }),
{
    let task = state.pending[0];
    let entered = rules_entered(state.layers, task, rule_file);
    let stack = stack_entered(state.layers, task, rule_file);
    let after = step(state, rule_file, children);
    let kept = state.pending.len() - 1;
    assert(holds(state.layers, task.stack));
    assert(chain(after.layers, stack) == entered) by {
        match rule_file {
            Some(lines) => {
                lemma_chain_extended(
                    state.layers,
                    rule_text(task.path, lines),
                    task.stack,
                );
            },
            None => {},
        }
    }
    assert forall|i: int| 0 <= i < kept implies (#[trigger] after.pending[i]) == state.pending[i
        + 1] && chain(after.layers, after.pending[i].stack) == chain(
        state.layers,
        state.pending[i + 1].stack,
    ) by {
        assert(holds(state.layers, state.pending[i + 1].stack));
        match rule_file {
            Some(lines) => {
                lemma_chain_unchanged(
                    state.layers,
                    LayerView { rules: rule_text(task.path, lines), parent: task.stack },
                    state.pending[i + 1].stack,
                );
            },
            None => {},
        }
    }
    assert forall|i: int| kept <= i < after.pending.len() implies chain(
        after.layers,
        (#[trigger] after.pending[i]).stack,
    ) == entered by {
        lemma_queued_are_included(entered, stack, children, children.len() as int, i - kept);
    }
}

/// The counts of a walk never shrink.
pub proof fn lemma_counts_never_shrink(
    state: WalkState,
    rule_file: Option<Seq<Seq<char>>>,
    children: Seq<Observation>,
)
    ensures
        step(state, rule_file, children).tally.files >= state.tally.files,
        step(state, rule_file, children).tally.directories >= state.tally.directories,
        step(state, rule_file, children).tally.size >= state.tally.size,
{
}

/// The markers of the children do not decide where the walk goes or what
/// it counts.
pub proof fn lemma_markers_do_not_steer(
    rules: Seq<RuleText>,
    stack: Option<int>,
    children: Seq<Observation>,
    others: Seq<Observation>,
    n: int,
)
    requires
        children.len() == others.len(),
        0 <= n <= children.len(),
        forall|i: int|
            0 <= i < children.len() ==> (#[trigger] others[i]).entry == children[i].entry
                && others[i].size == children[i].size,
    ensures
        descents(rules, stack, others, n) == descents(rules, stack, children, n),
        counted(rules, others, n) == counted(rules, children, n),
    decreases n,
{
    if n > 0 {
        lemma_markers_do_not_steer(rules, stack, children, others, n - 1);
        assert(others[n - 1].entry == children[n - 1].entry);
    }
}

/// A visit of a directory as a live walk left it succeeds where the first
/// did, corrects nothing, queues the same sub-directories and counts the
/// same.
pub proof fn lemma_visit_idempotent(
    state: WalkState,
    rule_file: Option<Seq<Seq<char>>>,
    children: Seq<Observation>,
)
    ensures
        ({
            let rules = rules_entered(state.layers, state.pending[0], rule_file);
            let again = settled(StoreMode::Live, rules, children);
            &&& visit_succeeds(state, rule_file, again) == visit_succeeds(
                state,
                rule_file,
                children,
            )
            &&& step(state, rule_file, again) == step(state, rule_file, children)
            &&& forall|i: int|
                0 <= i < children.len() ==> !is_corrective(
                    #[trigger] planned(state, rule_file, again)[i],
                )
        }),
{
    let task = state.pending[0];
    let rules = rules_entered(state.layers, task, rule_file);
    let again = settled(StoreMode::Live, rules, children);
    let stack = stack_entered(state.layers, task, rule_file);
    lemma_markers_do_not_steer(rules, stack, children, again, children.len() as int);
    assert(sizes_known(rules, again) == sizes_known(rules, children)) by {
        assert forall|i: int| 0 <= i < children.len() implies size_missing(
            rules,
            #[trigger] again[i],
        ) == size_missing(rules, children[i]) by {}
        if sizes_known(rules, children) {
            assert forall|i: int| 0 <= i < again.len() implies !size_missing(
                rules,
                #[trigger] again[i],
            ) by {
                assert(!size_missing(rules, children[i]));
            }
        }
        if sizes_known(rules, again) {
            assert forall|i: int| 0 <= i < children.len() implies !size_missing(
                rules,
                #[trigger] children[i],
            ) by {
                assert(!size_missing(rules, again[i]));
            }
        }
    }
    assert forall|i: int| 0 <= i < children.len() implies !is_corrective(
        #[trigger] planned(state, rule_file, again)[i],
    ) by {
        lemma_reconcile_idempotent(child_desired(rules, children[i]), children[i].actual);
        assert(child_desired(rules, again[i]) == child_desired(rules, children[i]));
    }
}

/// A visit under the simulated store leaves every child as it was.
pub proof fn lemma_simulated_visit_is_pure(rules: Seq<RuleText>, children: Seq<Observation>)
    ensures
        settled(StoreMode::Simulated, rules, children) == children,
{
    assert(settled(StoreMode::Simulated, rules, children) =~= children);
}

/// A second walk of a tree that has not changed since a live walk visits
/// the same directories, ends in the same state and corrects nothing.
pub proof fn lemma_second_run_corrects_nothing(state: WalkState, listings: Seq<Listing>)
    ensures
        ({
            let again = run_settled(StoreMode::Live, state, listings);
            &&& again.len() == listings.len()
            &&& run(state, again) == run(state, listings)
            &&& run_actions(state, again).len() == listings.len()
            &&& forall|k: int, i: int|
                0 <= k < listings.len() && 0 <= i < listings[k].children.len() ==> !is_corrective(
                    #[trigger] run_actions(state, again)[k][i],
                )
        }),
    decreases listings.len(),
{
    let again = run_settled(StoreMode::Live, state, listings);
    if listings.len() > 0 {
        let first = listings[0];
        let next = step(state, first.rule_file, first.children);
        let rest = run_settled(StoreMode::Live, next, listings.skip(1));
        lemma_visit_idempotent(state, first.rule_file, first.children);
        lemma_second_run_corrects_nothing(next, listings.skip(1));
        assert(again[0].rule_file == first.rule_file);
        assert(again.skip(1) =~= rest);
        let later = run_actions(next, rest);
        assert forall|k: int, i: int|
            0 <= k < listings.len() && 0 <= i < listings[k].children.len() implies !is_corrective(
            #[trigger] run_actions(state, again)[k][i],
        ) by {
            if k > 0 {
                assert(run_actions(state, again)[k] == later[k - 1]);
                assert(listings.skip(1)[k - 1] == listings[k]);
            }
        }
    }
}

/// A walk under the simulated store changes nothing that a later walk
/// reads: the later walk finds the very same listings.
pub proof fn lemma_dry_run_is_pure(state: WalkState, listings: Seq<Listing>)
    ensures
        run_settled(StoreMode::Simulated, state, listings) == listings,
    decreases listings.len(),
{
    if listings.len() > 0 {
        let first = listings[0];
        let rules = rules_entered(state.layers, state.pending[0], first.rule_file);
        lemma_simulated_visit_is_pure(rules, first.children);
        lemma_dry_run_is_pure(step(state, first.rule_file, first.children), listings.skip(1));
        assert(run_settled(StoreMode::Simulated, state, listings) =~= listings);
    } else {
        assert(run_settled(StoreMode::Simulated, state, listings) =~= listings);
    }
}

/// An explicit command gives every child its action and queues every
/// sub-directory, so that it reaches every descendant; carried out on a
/// live store, marking leaves the entry marked and unmarking leaves it
/// unmarked, whatever it was.
pub proof fn lemma_sweep_reaches_every_child(state: SweepState, children: Seq<Entry>, i: int)
    requires
        0 <= i < children.len(),
    ensures
        sweep_actions(state, children)[i] == Action::Apply(state.op),
        children[i].is_dir ==> subdirectories(children, children.len() as int).contains(
            children[i].path@,
        ),
        children[i].is_dir ==> sweep_step(state, children).pending.contains(children[i].path@),
        forall|actual: ActualState|
            marker_after(effect_of(StoreMode::Live, Action::Apply(MarkerOp::Mark)), actual)
                == ActualState::Marked,
        forall|actual: ActualState|
            marker_after(effect_of(StoreMode::Live, Action::Apply(MarkerOp::Unmark)), actual)
                == ActualState::Unmarked,
{
    if children[i].is_dir {
        lemma_subdirectory_listed(children, children.len() as int, i);
        let found = subdirectories(children, children.len() as int);
        let k = choose|k: int| 0 <= k < found.len() && found[k] == children[i].path@;
        let pending = sweep_step(state, children).pending;
        assert(pending[state.pending.skip(1).len() + k] == children[i].path@);
    }
}

/// A directory among the first `n` children is among their sub-directories.
pub proof fn lemma_subdirectory_listed(children: Seq<Entry>, n: int, i: int)
    requires
        0 <= i < n <= children.len(),
        children[i].is_dir,
    ensures
        subdirectories(children, n).contains(children[i].path@),
    decreases n,
{
    let found = subdirectories(children, n);
    if i == n - 1 {
        assert(found[found.len() - 1] == children[i].path@);
    } else {
        lemma_subdirectory_listed(children, n - 1, i);
        let before = subdirectories(children, n - 1);
        let k = choose|k: int| 0 <= k < before.len() && before[k] == children[i].path@;
        assert(found[k] == children[i].path@);
    }
}

} // verus!
