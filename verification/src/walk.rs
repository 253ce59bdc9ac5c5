//! The walk that checks a tree: a first-in, first-out worklist of
//! directories, each queued with the rules of its parent.
//!
//! The walk is a state machine. The caller lists the directory at the head of
//! the worklist and hands the listing to `Traversal::visit`, which answers
//! with one action for each child and queues the sub-directories that are
//! still to be visited.

use crate::rules::{
    fault_of, pattern_lines, rule_text, well_formed, RuleFileError, RuleSet, RuleText,
};
use crate::stack::{
    chain, desired, holds, lemma_chain_extended, LayerView, PatternStack, RuleLayers,
};
use crate::state::{reconcile, reconciled, Action, ActualState, DesiredState};
use std::collections::VecDeque;
use vstd::prelude::*;

verus! {

/// An entry of a directory: its full path and whether it is a directory.
pub struct Entry {
    pub path: String,
    pub is_dir: bool,
}

/// An entry together with what was read of it: the state of its marker and
/// its size in bytes, `None` where the size could not be read. Only the size
/// of a file that is counted is ever asked for.
pub struct Observation {
    pub entry: Entry,
    pub actual: ActualState,
    pub size: Option<u64>,
}

/// The counts of a walk: the included files and directories, and the bytes
/// of the included files.
#[derive(Clone, Copy, Debug, PartialEq, Eq, Structural)]
pub struct Stats {
    pub files: u64,
    pub directories: u64,
    pub size: u64,
}

/// The counts of a walk as numbers without a bound.
pub struct Tally {
    pub files: nat,
    pub directories: nat,
    pub size: nat,
}

/// A directory that waits to be visited, and the rules of its parent.
pub struct Task {
    pub path: Seq<char>,
    pub stack: Option<int>,
}

/// The state of a walk.
pub struct WalkState {
    pub layers: Seq<LayerView>,
    pub pending: Seq<Task>,
    pub tally: Tally,
}

/// Whether a path is absolute: it begins at the root of the file system.
pub open spec fn is_absolute(path: Seq<char>) -> bool {
    path.len() > 0 && path[0] == '/'
}

/// Whether the path of every child of a listing is absolute.
pub open spec fn listing_absolute(children: Seq<Observation>) -> bool {
    forall|i: int| 0 <= i < children.len() ==> is_absolute((#[trigger] children[i]).entry.path@)
}

/// Whether a walk can be in this state: every directory that waits has an
/// absolute path and a stack of the store.
pub open spec fn sound(state: WalkState) -> bool {
    forall|i: int|
        0 <= i < state.pending.len() ==> is_absolute((#[trigger] state.pending[i]).path) && holds(
            state.layers,
            state.pending[i].stack,
        )
}

/// The pattern lines of a rule file, `None` where the directory has none.
pub open spec fn file_text(rule_file: Option<&Vec<String>>) -> Option<Seq<Seq<char>>> {
    match rule_file {
        Some(lines) => Some(pattern_lines(lines@)),
        None => None,
    }
}

/// Whether a directory's rules can be taken: it has no rule file, or a
/// well-formed one.
pub open spec fn acceptable(rule_file: Option<Seq<Seq<char>>>) -> bool {
    match rule_file {
        Some(lines) => well_formed(lines),
        None => true,
    }
}

/// The layers of the store once the directory of `task` has been entered.
pub open spec fn layers_entered(
    layers: Seq<LayerView>,
    task: Task,
    rule_file: Option<Seq<Seq<char>>>,
) -> Seq<LayerView> {
    match rule_file {
        Some(lines) => layers.push(
            LayerView { rules: rule_text(task.path, lines), parent: task.stack },
        ),
        None => layers,
    }
}

/// The stack in effect inside the directory of `task`.
pub open spec fn stack_entered(
    layers: Seq<LayerView>,
    task: Task,
    rule_file: Option<Seq<Seq<char>>>,
) -> Option<int> {
    match rule_file {
        Some(_) => Some(layers.len() as int),
        None => task.stack,
    }
}

/// The rule files in effect inside the directory of `task`: those of its
/// parent and, behind them, its own.
pub open spec fn rules_entered(
    layers: Seq<LayerView>,
    task: Task,
    rule_file: Option<Seq<Seq<char>>>,
) -> Seq<RuleText> {
    match rule_file {
        Some(lines) => chain(layers, task.stack).push(rule_text(task.path, lines)),
        None => chain(layers, task.stack),
    }
}

/// The state that the rules ask for a child.
pub open spec fn child_desired(rules: Seq<RuleText>, child: Observation) -> DesiredState {
    desired(rules, child.entry.path@, child.entry.is_dir)
}

/// The action for a child.
pub open spec fn child_action(rules: Seq<RuleText>, child: Observation) -> Action {
    reconciled(child_desired(rules, child), child.actual)
}

/// The actions for the children of a directory, one for each, in their order.
pub open spec fn actions(rules: Seq<RuleText>, children: Seq<Observation>) -> Seq<Action> {
    Seq::new(children.len(), |i: int| child_action(rules, children[i]))
}

/// Whether the walk goes down into a child: it is a directory that the rules
/// include.
pub open spec fn descends(rules: Seq<RuleText>, child: Observation) -> bool {
    child.entry.is_dir && child_desired(rules, child) == DesiredState::Included
}

/// Whether a child is counted as a file: it is no directory, and the rules
/// include it.
pub open spec fn counts_as_file(rules: Seq<RuleText>, child: Observation) -> bool {
    !child.entry.is_dir && child_desired(rules, child) == DesiredState::Included
}

/// The sub-directories among the first `n` children that are queued, in
/// their order, each with the stack `stack`.
pub open spec fn descents(
    rules: Seq<RuleText>,
    stack: Option<int>,
    children: Seq<Observation>,
    n: int,
) -> Seq<Task>
    decreases n,
{
    if n <= 0 || n > children.len() {
        Seq::empty()
    } else if descends(rules, children[n - 1]) {
        descents(rules, stack, children, n - 1).push(
            Task { path: children[n - 1].entry.path@, stack },
        )
    } else {
        descents(rules, stack, children, n - 1)
    }
}

/// The bytes of a child, none where its size was not read.
pub open spec fn bytes_of(child: Observation) -> nat {
    match child.size {
        Some(bytes) => bytes as nat,
        None => 0,
    }
}

/// Whether a child is counted as a file and its size was not read.
pub open spec fn size_missing(rules: Seq<RuleText>, child: Observation) -> bool {
    counts_as_file(rules, child) && child.size is None
}

/// Whether the size of every child that is counted as a file was read.
pub open spec fn sizes_known(rules: Seq<RuleText>, children: Seq<Observation>) -> bool {
    forall|i: int| 0 <= i < children.len() ==> !size_missing(rules, #[trigger] children[i])
}

/// Whether `index` is the first child that is counted as a file and whose
/// size was not read.
pub open spec fn first_unread(rules: Seq<RuleText>, children: Seq<Observation>, index: int)
    -> bool {
    &&& 0 <= index < children.len()
    &&& size_missing(rules, children[index])
    &&& forall|k: int| 0 <= k < index ==> !size_missing(rules, #[trigger] children[k])
}

/// What the first `n` children add to the counts.
pub open spec fn counted(rules: Seq<RuleText>, children: Seq<Observation>, n: int) -> Tally
    decreases n,
{
    if n <= 0 || n > children.len() {
        Tally { files: 0, directories: 0, size: 0 }
    } else {
        let before = counted(rules, children, n - 1);
        let child = children[n - 1];
        if descends(rules, child) {
            Tally { directories: before.directories + 1, ..before }
        } else if counts_as_file(rules, child) {
            Tally {
                files: before.files + 1,
                size: before.size + bytes_of(child),
                ..before
            }
        } else {
            before
        }
    }
}

/// The sum of two counts.
pub open spec fn tally_sum(a: Tally, b: Tally) -> Tally {
    Tally {
        files: a.files + b.files,
        directories: a.directories + b.directories,
        size: a.size + b.size,
    }
}

/// Whether counts fit the counters of `Stats`.
pub open spec fn tally_fits(t: Tally) -> bool {
    t.files <= u64::MAX && t.directories <= u64::MAX && t.size <= u64::MAX
}

/// The actions that a visit of the head of the worklist answers with.
pub open spec fn planned(
    state: WalkState,
    rule_file: Option<Seq<Seq<char>>>,
    children: Seq<Observation>,
) -> Seq<Action>
    recommends
        state.pending.len() > 0,
{
    actions(rules_entered(state.layers, state.pending[0], rule_file), children)
}

/// The state of the walk after a visit of the head of the worklist.
pub open spec fn step(
    state: WalkState,
    rule_file: Option<Seq<Seq<char>>>,
    children: Seq<Observation>,
) -> WalkState
    recommends
        state.pending.len() > 0,
{
    let task = state.pending[0];
    let rules = rules_entered(state.layers, task, rule_file);
    WalkState {
        layers: layers_entered(state.layers, task, rule_file),
        pending: state.pending.skip(1) + descents(
            rules,
            stack_entered(state.layers, task, rule_file),
            children,
            children.len() as int,
        ),
        tally: tally_sum(state.tally, counted(rules, children, children.len() as int)),
    }
}

/// The bytes of the first `n` children together.
pub open spec fn total_size(children: Seq<Observation>, n: int) -> nat
    decreases n,
{
    if n <= 0 || n > children.len() {
        0
    } else {
        total_size(children, n - 1) + bytes_of(children[n - 1])
    }
}

/// The most that a listing can add to the counts, whatever the rules say:
/// every child as a file, every child as a directory, and all their bytes.
pub open spec fn most_counted(children: Seq<Observation>) -> Tally {
    Tally {
        files: children.len(),
        directories: children.len(),
        size: total_size(children, children.len() as int),
    }
}

/// No rules count more than `most_counted`.
pub proof fn lemma_counted_bounded(rules: Seq<RuleText>, children: Seq<Observation>, n: int)
    requires
        0 <= n <= children.len(),
    ensures
        counted(rules, children, n).files <= n,
        counted(rules, children, n).directories <= n,
        counted(rules, children, n).size <= total_size(children, n),
    decreases n,
{
    if n > 0 {
        lemma_counted_bounded(rules, children, n - 1);
    }
}

/// The bytes of more children are no fewer.
pub proof fn lemma_total_size_grows(children: Seq<Observation>, m: int, n: int)
    requires
        0 <= m <= n <= children.len(),
    ensures
        total_size(children, m) <= total_size(children, n),
    decreases n - m,
{
    if m < n {
        lemma_total_size_grows(children, m, n - 1);
    }
}

/// Why a visit failed.
#[derive(Clone, Debug, PartialEq, Eq)]
pub enum VisitError {
    /// The rule file of the directory is malformed.
    RuleFile(RuleFileError),
    /// The child with this index, counted from 0, is counted as a file, and
    /// its size was not read.
    SizeUnread { index: usize },
}

/// Whether a visit of the head of the worklist succeeds: the rules of the
/// directory can be taken, and the size of every file that is counted was
/// read.
pub open spec fn visit_succeeds(
    state: WalkState,
    rule_file: Option<Seq<Seq<char>>>,
    children: Seq<Observation>,
) -> bool
    recommends
        state.pending.len() > 0,
{
    acceptable(rule_file) && sizes_known(
        rules_entered(state.layers, state.pending[0], rule_file),
        children,
    )
}

/// Whether `error` is what a visit of the head of the worklist fails with:
/// the fault of the rule file or, where the rules can be taken, the first
/// file that is counted and whose size was not read.
pub open spec fn visit_fault(
    state: WalkState,
    rule_file: Option<Seq<Seq<char>>>,
    children: Seq<Observation>,
    error: VisitError,
) -> bool
    recommends
        state.pending.len() > 0,
{
    match error {
        VisitError::RuleFile(fault) => rule_file matches Some(lines) && fault_of(lines, fault),
        VisitError::SizeUnread { index } => acceptable(rule_file) && first_unread(
            rules_entered(state.layers, state.pending[0], rule_file),
            children,
            index as int,
        ),
    }
}

/// Why a listing cannot be handed to `Traversal::visit`.
#[derive(Clone, Copy, Debug, PartialEq, Eq, Structural)]
pub enum Refusal {
    /// The worklist is empty: the walk is over.
    NothingPending,
    /// The path of some child is not absolute.
    RelativePath,
    /// The counters might overflow.
    NoRoom,
}

/// Why `children` cannot be handed to a visit in `state`, `None` where they
/// can.
pub open spec fn refusal(state: WalkState, children: Seq<Observation>) -> Option<Refusal> {
    if state.pending.len() == 0 {
        Some(Refusal::NothingPending)
    } else if !listing_absolute(children) {
        Some(Refusal::RelativePath)
    } else if !tally_fits(tally_sum(state.tally, most_counted(children))) {
        Some(Refusal::NoRoom)
    } else {
        None
    }
}

/// Counts only grow with the number of children looked at.
pub proof fn lemma_counted_grows(
    rules: Seq<RuleText>,
    children: Seq<Observation>,
    m: int,
    n: int,
)
    requires
        0 <= m <= n <= children.len(),
    ensures
        counted(rules, children, m).files <= counted(rules, children, n).files,
        counted(rules, children, m).directories <= counted(rules, children, n).directories,
        counted(rules, children, m).size <= counted(rules, children, n).size,
    decreases n - m,
{
    if m < n {
        lemma_counted_grows(rules, children, m, n - 1);
    }
}

/// Whether a path is absolute.
pub fn is_absolute_path(path: &str) -> (absolute: bool)
    ensures
        absolute == is_absolute(path@),
{
    path.unicode_len() > 0 && path.get_char(0) == '/'
}

/// Whether the path of every child of a listing is absolute.
pub fn all_absolute(children: &Vec<Observation>) -> (absolute: bool)
    ensures
        absolute == listing_absolute(children@),
{
    let mut i: usize = 0;
    while i < children.len()
        invariant
            0 <= i <= children.len(),
            forall|k: int| 0 <= k < i ==> is_absolute((#[trigger] children@[k]).entry.path@),
        decreases children.len() - i,
    {
        if !is_absolute_path(children[i].entry.path.as_str()) {
            return false;
        }
        i = i + 1;
    }
    true
}

struct WorkItem {
    path: String,
    stack: PatternStack,
}

impl View for WorkItem {
    type V = Task;

    closed spec fn view(&self) -> Task {
        Task { path: self.path@, stack: self.stack@ }
    }
}

/// A walk in progress.
pub struct Traversal {
    layers: RuleLayers,
    queue: VecDeque<WorkItem>,
    stats: Stats,
}

impl View for Traversal {
    type V = WalkState;

    closed spec fn view(&self) -> WalkState {
        WalkState {
            layers: self.layers@,
            pending: Seq::new(self.queue@.len(), |i: int| self.queue@[i]@),
            tally: Tally {
                files: self.stats.files as nat,
                directories: self.stats.directories as nat,
                size: self.stats.size as nat,
            },
        }
    }
}

impl Traversal {
    #[verifier::type_invariant]
    spec fn queue_is_sound(self) -> bool {
        forall|i: int|
            0 <= i < self.queue@.len() ==> holds(self.layers@, (#[trigger] self.queue@[i]).stack@)
                && is_absolute(self.queue@[i].path@)
    }

    /// A walk that has only the directory `root` to visit, with no rules in
    /// effect and nothing counted.
    pub fn begin(root: String) -> (walk: Traversal)
        requires
            is_absolute(root@),
        ensures
            walk@ == (WalkState {
                layers: Seq::empty(),
                pending: seq![Task { path: root@, stack: None }],
                tally: Tally { files: 0, directories: 0, size: 0 },
            }),
            sound(walk@),
    {
        let mut queue: VecDeque<WorkItem> = VecDeque::new();
        queue.push_back(WorkItem { path: root, stack: PatternStack::empty() });
        let walk = Traversal {
            layers: RuleLayers::new(),
            queue,
            stats: Stats { files: 0, directories: 0, size: 0 },
        };
        assert(walk@.pending =~= seq![Task { path: root@, stack: None }]);
        walk
    }

    /// The directory to list next, `None` once the walk is over.
    pub fn front(&self) -> (dir: Option<&String>)
        ensures
            dir is Some <==> self@.pending.len() > 0,
            dir matches Some(path) ==> path@ == self@.pending[0].path && is_absolute(path@),
    {
        proof {
            use_type_invariant(self);
        }
        if self.queue.len() > 0 {
            Some(&self.queue[0].path)
        } else {
            None
        }
    }

    /// The counts so far.
    pub fn stats(&self) -> (stats: Stats)
        ensures
            stats.files == self@.tally.files,
            stats.directories == self@.tally.directories,
            stats.size == self@.tally.size,
    {
        self.stats
    }

    /// Whether the counters have room for a listing whatever the rules make
    /// of it. Where they have, `visit` can be called with this listing.
    pub fn has_room(&self, children: &Vec<Observation>) -> (ok: bool)
        ensures
            ok == tally_fits(tally_sum(self@.tally, most_counted(children@))),
            ok ==> forall|rule_file: Option<Seq<Seq<char>>>|
                tally_fits((#[trigger] step(self@, rule_file, children@)).tally),
    {
        let n = children.len();
        let mut bytes: u64 = self.stats.size;
        let mut i: usize = 0;
        while i < n
            invariant
                0 <= i <= n,
                n == children@.len(),
                bytes == self.stats.size + total_size(children@, i as int),
            decreases n - i,
        {
            let size = match children[i].size {
                Some(size) => size,
                None => 0,
            };
            match bytes.checked_add(size) {
                Some(sum) => {
                    bytes = sum;
                },
                None => {
                    proof {
                        lemma_total_size_grows(children@, i as int + 1, n as int);
                    }
                    return false;
                },
            }
            i = i + 1;
        }
        let ok = n as u64 <= u64::MAX - self.stats.files && n as u64 <= u64::MAX
            - self.stats.directories;
        proof {
            if ok {
                assert forall|rule_file: Option<Seq<Seq<char>>>|
                    tally_fits((#[trigger] step(self@, rule_file, children@)).tally) by {
                    let rules = rules_entered(self@.layers, self@.pending[0], rule_file);
                    lemma_counted_bounded(rules, children@, n as int);
                }
            }
        }
        ok
    }

    /// Visits the directory at the head of the worklist as `visit` does,
    /// after testing what `visit` asks of its caller. Where the test fails,
    /// the walk stays as it was and the refusal says why.
    pub fn checked_visit(
        &mut self,
        rule_file: Option<&Vec<String>>,
        children: &Vec<Observation>,
    ) -> (r: Result<Result<Vec<Action>, VisitError>, Refusal>)
        ensures
            match refusal(old(self)@, children@) {
                Some(why) => r == Err::<Result<Vec<Action>, VisitError>, Refusal>(why)
                    && final(self)@ == old(self)@,
                None => r matches Ok(outcome) && {
                    &&& outcome is Ok <==> visit_succeeds(
                        old(self)@,
                        file_text(rule_file),
                        children@,
                    )
                    &&& outcome matches Ok(answer) ==> {
                        &&& answer@ == planned(old(self)@, file_text(rule_file), children@)
                        &&& final(self)@ == step(old(self)@, file_text(rule_file), children@)
                    }
                    &&& outcome matches Err(error) ==> {
                        &&& visit_fault(old(self)@, file_text(rule_file), children@, error)
                        &&& final(self)@ == old(self)@
                    }
                },
            },
            sound(final(self)@),
    {
        proof {
            use_type_invariant(&*self);
        }
        if self.front().is_none() {
            Err(Refusal::NothingPending)
        } else if !all_absolute(children) {
            Err(Refusal::RelativePath)
        } else if !self.has_room(children) {
            Err(Refusal::NoRoom)
        } else {
            Ok(self.visit(rule_file, children))
        }
    }

    /// Visits the directory at the head of the worklist, given the lines of
    /// its rule file, if it has one, and its children as they were listed.
    ///
    /// A malformed rule file is an error, and so is a file that is counted
    /// and whose size was not read; the walk then stays as it was. Else the
    /// directory leaves the worklist, each child gets its action, in the
    /// order of the listing, the children that are included are counted, and
    /// the sub-directories that are included are queued behind all others with
    /// the rules in effect in this directory. An excluded child is neither
    /// counted nor queued, and its size is not looked at.
    pub fn visit(&mut self, rule_file: Option<&Vec<String>>, children: &Vec<Observation>) -> (r:
        Result<Vec<Action>, VisitError>)
        requires
            old(self)@.pending.len() > 0,
            listing_absolute(children@),
            acceptable(file_text(rule_file)) ==> tally_fits(
                step(old(self)@, file_text(rule_file), children@).tally,
            ),
        ensures
            r is Ok <==> visit_succeeds(old(self)@, file_text(rule_file), children@),
            r matches Ok(answer) ==> {
                &&& answer@ == planned(old(self)@, file_text(rule_file), children@)
                &&& final(self)@ == step(old(self)@, file_text(rule_file), children@)
            },
            r matches Err(error) ==> {
                &&& visit_fault(old(self)@, file_text(rule_file), children@, error)
                &&& final(self)@ == old(self)@
            },
            sound(final(self)@),
    {
        proof {
            use_type_invariant(&*self);
        }
        let ghost before = self@;
        let ghost task = before.pending[0];
        let ghost text = file_text(rule_file);
        let ghost rules = rules_entered(before.layers, task, text);
        let mut queue: VecDeque<WorkItem> = VecDeque::new();
        core::mem::swap(&mut self.queue, &mut queue);
        let mut layers = RuleLayers::new();
        core::mem::swap(&mut self.layers, &mut layers);
        assert(queue@[0]@ == task);
        let parent = queue[0].stack;
        let compiled: Option<RuleSet> = match rule_file {
            Some(lines) => match RuleSet::compile(queue[0].path.as_str(), lines) {
                Ok(own) => Some(own),
                Err(fault) => {
                    self.layers = layers;
                    self.queue = queue;
                    assert(self@.pending =~= before.pending);
                    return Err(VisitError::RuleFile(fault));
                },
            },
            None => None,
        };
        let mut states: Vec<DesiredState> = Vec::new();
        let mut unread: Option<usize> = None;
        let mut i: usize = 0;
        while i < children.len() && unread.is_none()
            invariant
                0 <= i <= children.len(),
                layers@ == before.layers,
                holds(layers@, parent@),
                parent@ == task.stack,
                rules == match compiled {
                    Some(own) => chain(layers@, parent@).push(own@),
                    None => chain(layers@, parent@),
                },
                Seq::new(queue@.len(), |k: int| queue@[k]@) == before.pending,
                forall|k: int|
                    0 <= k < queue@.len() ==> holds(layers@, (#[trigger] queue@[k]).stack@)
                        && is_absolute(queue@[k].path@),
                states@.len() == i,
                forall|k: int|
                    0 <= k < i ==> states@[k] == child_desired(rules, #[trigger] children@[k])
                        && !size_missing(rules, children@[k]),
                unread matches Some(index) ==> index == i && first_unread(
                    rules,
                    children@,
                    index as int,
                ),
            decreases
                    children.len() - i + (if unread is None {
                        1int
                    } else {
                        0int
                    }),
        {
            let child = &children[i];
            let state = layers.classify_with(
                parent,
                compiled.as_ref(),
                child.entry.path.as_str(),
                child.entry.is_dir,
            );
            assert(state == child_desired(rules, children@[i as int]));
            let missing = match state {
                DesiredState::Included => !child.entry.is_dir && child.size.is_none(),
                DesiredState::Excluded => false,
            };
            if missing {
                unread = Some(i);
            } else {
                states.push(state);
                i = i + 1;
            }
        }
        match unread {
            Some(index) => {
                self.layers = layers;
                self.queue = queue;
                assert(self@.pending =~= before.pending);
                return Err(VisitError::SizeUnread { index });
            },
            None => {},
        }
        let stack = match compiled {
            Some(own) => layers.push(parent, own),
            None => parent,
        };
        proof {
            assert(layers@ == layers_entered(before.layers, task, text));
            assert(stack@ == stack_entered(before.layers, task, text));
            assert(chain(layers@, stack@) == rules);
        }
        let _ = queue.pop_front();
        let ghost rest = Seq::new(queue@.len(), |i: int| queue@[i]@);
        assert(rest =~= before.pending.skip(1));
        let mut stats = self.stats;
        let mut answer: Vec<Action> = Vec::new();
        let mut i: usize = 0;
        while i < children.len()
            invariant
                0 <= i <= children.len(),
                holds(layers@, stack@),
                states@.len() == children@.len(),
                forall|k: int|
                    0 <= k < children@.len() ==> states@[k] == child_desired(
                        rules,
                        #[trigger] children@[k],
                    ),
                forall|k: int|
                    0 <= k < queue@.len() ==> holds(layers@, (#[trigger] queue@[k]).stack@)
                        && is_absolute(queue@[k].path@),
                listing_absolute(children@),
                answer@ == actions(rules, children@.take(i as int)),
                Seq::new(queue@.len(), |k: int| queue@[k]@) == rest + descents(
                    rules,
                    stack@,
                    children@,
                    i as int,
                ),
                stats.files == before.tally.files + counted(rules, children@, i as int).files,
                stats.directories == before.tally.directories + counted(
                    rules,
                    children@,
                    i as int,
                ).directories,
                stats.size == before.tally.size + counted(rules, children@, i as int).size,
                tally_fits(
                    tally_sum(before.tally, counted(rules, children@, children@.len() as int)),
                ),
            decreases children.len() - i,
        {
            let child = &children[i];
            let state = states[i];
            let action = reconcile(state, child.actual);
            proof {
                lemma_counted_grows(rules, children@, i as int + 1, children@.len() as int);
                assert(state == child_desired(rules, children@[i as int]));
            }
            let ghost queued = Seq::new(queue@.len(), |k: int| queue@[k]@);
            match state {
                DesiredState::Included => {
                    if child.entry.is_dir {
                        stats.directories = stats.directories + 1;
                        queue.push_back(WorkItem { path: child.entry.path.clone(), stack });
                        assert(Seq::new(queue@.len(), |k: int| queue@[k]@) =~= queued.push(
                            Task { path: child.entry.path@, stack: stack@ },
                        ));
                    } else {
                        let size = match child.size {
                            Some(size) => size,
                            None => 0,
                        };
                        stats.files = stats.files + 1;
                        stats.size = stats.size + size;
                    }
                },
                DesiredState::Excluded => {},
            }
            answer.push(action);
            proof {
                assert(answer@ =~= actions(rules, children@.take(i as int + 1)));
                assert((rest + descents(rules, stack@, children@, i as int)).push(
                    Task { path: child.entry.path@, stack: stack@ },
                ) =~= rest + descents(rules, stack@, children@, i as int).push(
                    Task { path: child.entry.path@, stack: stack@ },
                ));
            }
            i = i + 1;
        }
        proof {
            assert(children@.take(children@.len() as int) =~= children@);
        }
        self.stats = stats;
        self.layers = layers;
        self.queue = queue;
        Ok(answer)
    }
}

} // verus!
