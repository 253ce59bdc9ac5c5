//! The explicit commands: mark or unmark a path and, if asked, everything
//! below it, whatever the rules say.
//!
//! Like the checking walk this is a state machine over a first-in, first-out
//! worklist: the caller lists the directory at the head of the worklist and
//! hands the listing to `apply_recursively`.

use crate::state::{Action, MarkerOp};
use crate::walk::Entry;
use std::collections::VecDeque;
use vstd::prelude::*;

verus! {

/// The state of an explicit command.
pub struct SweepState {
    pub op: MarkerOp,
    pub pending: Seq<Seq<char>>,
}

/// The directories among the first `n` children, in their order.
pub open spec fn subdirectories(children: Seq<Entry>, n: int) -> Seq<Seq<char>>
    decreases n,
{
    if n <= 0 || n > children.len() {
        Seq::empty()
    } else if children[n - 1].is_dir {
        subdirectories(children, n - 1).push(children[n - 1].path@)
    } else {
        subdirectories(children, n - 1)
    }
}

/// The state of the command once the directory at the head of the worklist
/// has been listed: every sub-directory is queued.
pub open spec fn sweep_step(state: SweepState, children: Seq<Entry>) -> SweepState
    recommends
        state.pending.len() > 0,
{
    SweepState {
        op: state.op,
        pending: state.pending.skip(1) + subdirectories(children, children.len() as int),
    }
}

/// The actions for the children of a listed directory: the command's, for
/// every one of them.
pub open spec fn sweep_actions(state: SweepState, children: Seq<Entry>) -> Seq<Action> {
    Seq::new(children.len(), |i: int| Action::Apply(state.op))
}

/// An explicit command in progress.
pub struct Sweep {
    op: MarkerOp,
    queue: VecDeque<String>,
}

impl View for Sweep {
    type V = SweepState;

    closed spec fn view(&self) -> SweepState {
        SweepState { op: self.op, pending: Seq::new(self.queue@.len(), |i: int| self.queue@[i]@) }
    }
}

impl Sweep {
    /// Starts the command `op` on `target`. The action returned is the one
    /// for `target` itself. Only a recursive command has anything to list:
    /// `target`.
    pub fn begin(target: String, op: MarkerOp, recursive: bool) -> (started: (Sweep, Action))
        ensures
            started.1 == Action::Apply(op),
            started.0@.op == op,
            started.0@.pending == if recursive {
                seq![target@]
            } else {
                Seq::<Seq<char>>::empty()
            },
    {
        let mut queue: VecDeque<String> = VecDeque::new();
        if recursive {
            queue.push_back(target);
        }
        let sweep = Sweep { op, queue };
        assert(sweep@.pending =~= if recursive {
            seq![target@]
        } else {
            Seq::<Seq<char>>::empty()
        });
        (sweep, Action::Apply(op))
    }

    /// The directory to list next, `None` once the command is done.
    pub fn front(&self) -> (dir: Option<&String>)
        ensures
            dir is Some <==> self@.pending.len() > 0,
            dir matches Some(path) ==> path@ == self@.pending[0],
    {
        if self.queue.len() > 0 {
            Some(&self.queue[0])
        } else {
            None
        }
    }
}

/// Takes the directory at the head of the worklist off it, given its
/// children as they were listed. Every child gets the command's action, and
/// every sub-directory is queued behind all others: no rule is consulted
/// and nothing is left out.
pub fn apply_recursively(sweep: &mut Sweep, children: &Vec<Entry>) -> (answer: Vec<Action>)
    requires
        old(sweep)@.pending.len() > 0,
    ensures
        answer@ == sweep_actions(old(sweep)@, children@),
        final(sweep)@ == sweep_step(old(sweep)@, children@),
{
    let ghost before = sweep@;
    let _ = sweep.queue.pop_front();
    let ghost rest = Seq::new(sweep.queue@.len(), |k: int| sweep.queue@[k]@);
    assert(rest =~= before.pending.skip(1));
    let mut answer: Vec<Action> = Vec::new();
    let mut i: usize = 0;
    while i < children.len()
        invariant
            0 <= i <= children.len(),
            sweep.op == before.op,
            answer@ == sweep_actions(before, children@.take(i as int)),
            Seq::new(sweep.queue@.len(), |k: int| sweep.queue@[k]@) == rest + subdirectories(
                children@,
                i as int,
            ),
        decreases children.len() - i,
    {
        let child = &children[i];
        let ghost queued = Seq::new(sweep.queue@.len(), |k: int| sweep.queue@[k]@);
        if child.is_dir {
            sweep.queue.push_back(child.path.clone());
            assert(Seq::new(sweep.queue@.len(), |k: int| sweep.queue@[k]@) =~= queued.push(
                child.path@,
            ));
        }
        answer.push(Action::Apply(sweep.op));
        proof {
            assert(answer@ =~= sweep_actions(before, children@.take(i as int + 1)));
            assert((rest + subdirectories(children@, i as int)).push(child.path@) =~= rest
                + subdirectories(children@, i as int).push(child.path@));
        }
        i = i + 1;
    }
    proof {
        assert(children@.take(children@.len() as int) =~= children@);
    }
    answer
}

} // verus!
