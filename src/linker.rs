//! Link tasks: how a destination is classified, how tasks are ordered, what
//! each policy decides, and how the decisions are carried out.

use vstd::prelude::*;

use crate::cli::Mode;
use crate::paths::is_absolute_path;
use crate::backup::{all_backup_names_taken, backup_target, is_backup_candidate, may_succeed};

verus! {

/// The part of a file's metadata that the linker keeps: a snapshot taken
/// once, when the task is created, and never refreshed.
#[derive(Clone, Copy, Debug, PartialEq, Eq, Structural)]
pub struct FileInfo {
    pub is_dir: bool,
    pub is_symlink: bool,
    pub len: u64,
}

/// What stands at a link's destination.
#[derive(Clone, Copy, Debug, PartialEq, Eq, Structural)]
pub enum TargetState {
    /// Nothing is there.
    Absent,
    /// A file or directory that is not a symbolic link.
    AlienNode(FileInfo),
    /// A symbolic link that points somewhere other than the source.
    AlienLink(FileInfo),
    /// A symbolic link that already points at the source.
    Linked(FileInfo),
}

/// What a look at a destination found, without following a final symbolic link.
#[derive(Debug)]
pub enum Probe {
    Missing,
    Node(FileInfo),
    /// A symbolic link, with its own metadata and its immediate target.
    Symlink(FileInfo, String),
}

/// The state that a probe of a destination means for a link from `source`.
pub open spec fn classify(probe: Probe, source: Seq<char>) -> TargetState {
    match probe {
        Probe::Missing => TargetState::Absent,
        Probe::Node(info) => TargetState::AlienNode(info),
        Probe::Symlink(info, points_to) => if points_to@ == source {
            TargetState::Linked(info)
        } else {
            TargetState::AlienLink(info)
        },
    }
}

/// Classifies a destination: absent, an obstruction that is no link, a link
/// elsewhere, or the wanted link. The link target is compared character for
/// character with the source path.
pub fn examine_target_state(probe: &Probe, source: &String) -> (r: TargetState)
    requires
        is_absolute_path(source@),
    ensures
        r == classify(*probe, source@),
{
    match probe {
        Probe::Missing => TargetState::Absent,
        Probe::Node(info) => TargetState::AlienNode(*info),
        Probe::Symlink(info, points_to) => {
            if points_to.eq(source) {
                TargetState::Linked(*info)
            } else {
                TargetState::AlienLink(*info)
            }
        },
    }
}

/// One concrete link to make: absolute source and destination, with the
/// snapshots taken when the task was created.
#[derive(Debug)]
pub struct LinkTask {
    pub source: String,
    pub source_metadata: FileInfo,
    pub target: String,
    pub target_state: TargetState,
}

/// Where a state sorts: links already in place first, then links elsewhere,
/// then obstructions that are no link, then missing destinations.
pub open spec fn state_rank(s: TargetState) -> int {
    match s {
        TargetState::Linked(_) => 0,
        TargetState::AlienLink(_) => 1,
        TargetState::AlienNode(_) => 2,
        TargetState::Absent => 3,
    }
}

pub open spec fn task_rank(t: LinkTask) -> int {
    state_rank(t.target_state)
}

pub open spec fn compare_ranks(a: int, b: int) -> std::cmp::Ordering {
    if a < b {
        std::cmp::Ordering::Less
    } else if a == b {
        std::cmp::Ordering::Equal
    } else {
        std::cmp::Ordering::Greater
    }
}

fn rank_of(s: &TargetState) -> (r: u8)
    ensures
        r as int == state_rank(*s),
{
    match s {
        TargetState::Linked(_) => 0,
        TargetState::AlienLink(_) => 1,
        TargetState::AlienNode(_) => 2,
        TargetState::Absent => 3,
    }
}

/// Orders two tasks by the shape of their target state alone.
pub fn compare_link_tasks(l: &LinkTask, r: &LinkTask) -> (o: std::cmp::Ordering)
    ensures
        o == compare_ranks(task_rank(*l), task_rank(*r)),
{
    let a = rank_of(&l.target_state);
    let b = rank_of(&r.target_state);
    if a < b {
        std::cmp::Ordering::Less
    } else if a == b {
        std::cmp::Ordering::Equal
    } else {
        std::cmp::Ordering::Greater
    }
}

/// The tasks of `s` whose state has rank `k`, in their order in `s`.
pub open spec fn tasks_of_rank(s: Seq<LinkTask>, k: int) -> Seq<LinkTask> {
    s.filter(|t: LinkTask| task_rank(t) == k)
}

proof fn lemma_tasks_of_rank_push(s: Seq<LinkTask>, t: LinkTask)
    ensures
        forall|k: int|
            #[trigger] tasks_of_rank(s.push(t), k) == if task_rank(t) == k {
                tasks_of_rank(s, k).push(t)
            } else {
                tasks_of_rank(s, k)
            },
{
    assert forall|k: int|
        #[trigger] tasks_of_rank(s.push(t), k) == if task_rank(t) == k {
            tasks_of_rank(s, k).push(t)
        } else {
            tasks_of_rank(s, k)
        } by {
        s.lemma_filter_push(t, |x: LinkTask| task_rank(x) == k);
    }
}

/// `s` in a stable order by rank.
pub open spec fn sorted_tasks(s: Seq<LinkTask>) -> Seq<LinkTask> {
    tasks_of_rank(s, 0) + tasks_of_rank(s, 1) + tasks_of_rank(s, 2) + tasks_of_rank(s, 3)
}

/// Sorts tasks stably by the order of `compare_link_tasks`.
pub fn sort_link_tasks(tasks: Vec<LinkTask>) -> (r: Vec<LinkTask>)
    ensures
        r@ == sorted_tasks(tasks@),
        r@.to_multiset() == tasks@.to_multiset(),
        forall|i: int, j: int| 0 <= i < j < r.len() ==> task_rank(r[i]) <= task_rank(r[j]),
{
    proof {
        lemma_sorted_tasks_ordered(tasks@);
        lemma_sort_permutes(tasks@);
    }
    let ghost orig = tasks@;
    let mut rest = tasks;
    let mut linked: Vec<LinkTask> = Vec::new();
    let mut alien_links: Vec<LinkTask> = Vec::new();
    let mut alien_nodes: Vec<LinkTask> = Vec::new();
    let mut absent: Vec<LinkTask> = Vec::new();
    let ghost mut k: int = 0;
    proof {
        reveal(Seq::filter);
        assert(orig.subrange(0, 0) =~= Seq::<LinkTask>::empty());
    }
    while rest.len() > 0
        invariant
            0 <= k <= orig.len(),
            rest@ == orig.subrange(k, orig.len() as int),
            linked@ == tasks_of_rank(orig.subrange(0, k), 0),
            alien_links@ == tasks_of_rank(orig.subrange(0, k), 1),
            alien_nodes@ == tasks_of_rank(orig.subrange(0, k), 2),
            absent@ == tasks_of_rank(orig.subrange(0, k), 3),
        decreases rest.len(),
    {
        let t = rest.remove(0);
        proof {
            let done = orig.subrange(0, k);
            assert(orig.subrange(0, k + 1) =~= done.push(t));
            lemma_tasks_of_rank_push(done, t);
            k = k + 1;
        }
        match rank_of(&t.target_state) {
            0 => linked.push(t),
            1 => alien_links.push(t),
            2 => alien_nodes.push(t),
            _ => absent.push(t),
        }
        assert(rest@ == orig.subrange(k, orig.len() as int));
    }
    assert(orig.subrange(0, k) == orig);
    linked.append(&mut alien_links);
    linked.append(&mut alien_nodes);
    linked.append(&mut absent);
    linked
}

proof fn lemma_tasks_of_one_rank(s: Seq<LinkTask>, k: int)
    requires
        forall|i: int| 0 <= i < s.len() ==> task_rank(#[trigger] s[i]) == k,
    ensures
        forall|j: int|
            #[trigger] tasks_of_rank(s, j) == if j == k {
                s
            } else {
                Seq::<LinkTask>::empty()
            },
    decreases s.len(),
{
    reveal(Seq::filter);
    if s.len() > 0 {
        lemma_tasks_of_one_rank(s.drop_last(), k);
        assert(s.drop_last().push(s.last()) =~= s);
        lemma_tasks_of_rank_push(s.drop_last(), s.last());
    } else {
        assert forall|j: int| #[trigger] tasks_of_rank(s, j) == if j == k {
            s
        } else {
            Seq::<LinkTask>::empty()
        } by {
            assert(s =~= Seq::<LinkTask>::empty());
        }
    }
}

proof fn lemma_tasks_of_rank_ranks(s: Seq<LinkTask>, k: int)
    ensures
        forall|i: int|
            0 <= i < tasks_of_rank(s, k).len() ==> task_rank(#[trigger] tasks_of_rank(s, k)[i])
                == k,
{
    broadcast use Seq::lemma_filter_pred;

}

proof fn lemma_tasks_of_rank_add(a: Seq<LinkTask>, b: Seq<LinkTask>, k: int)
    ensures
        tasks_of_rank(a + b, k) == tasks_of_rank(a, k) + tasks_of_rank(b, k),
{
    Seq::filter_distributes_over_add(a, b, |t: LinkTask| task_rank(t) == k);
}

proof fn lemma_sorted_tasks_of_rank(s: Seq<LinkTask>, k: int)
    requires
        0 <= k < 4,
    ensures
        tasks_of_rank(sorted_tasks(s), k) == tasks_of_rank(s, k),
{
    let a0 = tasks_of_rank(s, 0);
    let a1 = tasks_of_rank(s, 1);
    let a2 = tasks_of_rank(s, 2);
    let a3 = tasks_of_rank(s, 3);
    lemma_tasks_of_rank_ranks(s, 0);
    lemma_tasks_of_rank_ranks(s, 1);
    lemma_tasks_of_rank_ranks(s, 2);
    lemma_tasks_of_rank_ranks(s, 3);
    lemma_tasks_of_one_rank(a0, 0);
    lemma_tasks_of_one_rank(a1, 1);
    lemma_tasks_of_one_rank(a2, 2);
    lemma_tasks_of_one_rank(a3, 3);
    lemma_tasks_of_rank_add(a0 + a1 + a2, a3, k);
    lemma_tasks_of_rank_add(a0 + a1, a2, k);
    lemma_tasks_of_rank_add(a0, a1, k);
    let e = Seq::<LinkTask>::empty();
    assert(tasks_of_rank(a0, k) == if k == 0 { a0 } else { e });
    assert(tasks_of_rank(a1, k) == if k == 1 { a1 } else { e });
    assert(tasks_of_rank(a2, k) == if k == 2 { a2 } else { e });
    assert(tasks_of_rank(a3, k) == if k == 3 { a3 } else { e });
    let r = tasks_of_rank(sorted_tasks(s), k);
    if k == 0 {
        assert(r =~= a0);
    } else if k == 1 {
        assert(r =~= a1);
    } else if k == 2 {
        assert(r =~= a2);
    } else {
        assert(r =~= a3);
    }
}

/// Sorting is idempotent: sorting an already sorted list changes nothing.
pub proof fn lemma_sort_idempotent(s: Seq<LinkTask>)
    ensures
        sorted_tasks(sorted_tasks(s)) == sorted_tasks(s),
{
    lemma_sorted_tasks_of_rank(s, 0);
    lemma_sorted_tasks_of_rank(s, 1);
    lemma_sorted_tasks_of_rank(s, 2);
    lemma_sorted_tasks_of_rank(s, 3);
}

/// Sorting keeps every task: the sorted list holds the same tasks, each as
/// often as the input does.
pub proof fn lemma_sort_permutes(s: Seq<LinkTask>)
    ensures
        sorted_tasks(s).to_multiset() == s.to_multiset(),
    decreases s.len(),
{
    broadcast use vstd::seq_lib::group_to_multiset_ensures, vstd::seq_lib::lemma_multiset_commutative;

    if s.len() == 0 {
        reveal(Seq::filter);
        assert(sorted_tasks(s) =~= s);
    } else {
        let p = s.drop_last();
        let x = s.last();
        lemma_sort_permutes(p);
        assert(p.push(x) =~= s);
        lemma_tasks_of_rank_push(p, x);
        let m = |k: int| tasks_of_rank(p, k).to_multiset();
        assert(sorted_tasks(p).to_multiset() =~= m(0).add(m(1)).add(m(2)).add(m(3)));
        assert(sorted_tasks(s).to_multiset() =~= m(0).add(m(1)).add(m(2)).add(m(3)).insert(x));
    }
}

/// A sorted list is ordered by rank.
pub proof fn lemma_sorted_tasks_ordered(s: Seq<LinkTask>)
    ensures
        forall|i: int, j: int|
            0 <= i < j < sorted_tasks(s).len() ==> task_rank(sorted_tasks(s)[i]) <= task_rank(
                sorted_tasks(s)[j],
            ),
{
    lemma_tasks_of_rank_ranks(s, 0);
    lemma_tasks_of_rank_ranks(s, 1);
    lemma_tasks_of_rank_ranks(s, 2);
    lemma_tasks_of_rank_ranks(s, 3);
    let a0 = tasks_of_rank(s, 0);
    let a1 = tasks_of_rank(s, 1);
    let a2 = tasks_of_rank(s, 2);
    let a3 = tasks_of_rank(s, 3);
    let r = sorted_tasks(s);
    let n0 = a0.len() as int;
    let n1 = n0 + a1.len();
    let n2 = n1 + a2.len();
    assert forall|i: int| 0 <= i < r.len() implies #[trigger] task_rank(r[i]) == if i < n0 {
        0
    } else if i < n1 {
        1
    } else if i < n2 {
        2
    } else {
        3int
    } by {
        if i < n0 {
            assert(r[i] == a0[i]);
        } else if i < n1 {
            assert(r[i] == a1[i - n0]);
        } else if i < n2 {
            assert(r[i] == a2[i - n1]);
        } else {
            assert(r[i] == a3[i - n2]);
        }
    }
}

/// std::io::Error, carried through as an opaque value: the error of a failed
/// file system operation.
#[verifier::external_type_specification]
#[verifier::external_body]
pub struct ExIoError(std::io::Error);

/// How a single task ended.
#[derive(Debug)]
pub enum LinkResult {
    /// The wanted link was already there.
    Existed,
    /// Something else was there and the policy left it alone.
    Skipped,
    /// The link was made.
    Success,
    /// Backing up the destination or making the link failed.
    IoError(std::io::Error),
}

/// A task together with how it ended.
#[derive(Debug)]
pub struct LinkState {
    pub task: LinkTask,
    pub result: LinkResult,
}

/// The outcome of a whole run.
#[derive(Debug)]
pub enum LinkageResult {
    /// The classified tasks, left untouched.
    DryResult(Vec<LinkTask>),
    /// The strict policy found a destination that is not absent.
    PreconditionFailed(&'static str),
    /// One record per task that the policy acted on.
    Completed(Vec<LinkState>),
}

/// What happened when `link` was asked to make `target` point at `source`.
pub open spec fn link_outcome<L: Fn(&String, &String) -> Result<(), std::io::Error>>(
    link: L,
    source: String,
    target: String,
    r: LinkResult,
) -> bool {
    match r {
        LinkResult::Success => may_succeed(link, source, target),
        LinkResult::IoError(e) => link.ensures((&source, &target), Err(e)),
        _ => false,
    }
}

/// Makes the link `target -> source` where nothing stands at `target`.
pub fn link_without_overriding<L: Fn(&String, &String) -> Result<(), std::io::Error>>(
    source: &String,
    target: &String,
    link: &L,
) -> (r: LinkResult)
    requires
        forall|a: &String, b: &String| link.requires((a, b)),
    ensures
        link_outcome(*link, *source, *target, r),
{
    let r = link(source, target);
    match r {
        Ok(()) => LinkResult::Success,
        Err(e) => LinkResult::IoError(e),
    }
}

/// Backs `target` up, then makes the link `target -> source`.
pub fn link_with_overriding<
    F: Fn(&String) -> bool,
    R: Fn(&String, &String) -> Result<(), std::io::Error>,
    L: Fn(&String, &String) -> Result<(), std::io::Error>,
>(source: &String, target: &String, is_taken: &F, rename: &R, link: &L) -> (r: LinkResult)
    requires
        forall|p: &String| is_taken.requires((p,)),
        forall|a: &String, b: &String| rename.requires((a, b)),
        forall|a: &String, b: &String| link.requires((a, b)),
    ensures
        replace_outcome(*is_taken, *rename, *link, *source, *target, r),
{
    let backed_up = backup_target(target, is_taken, rename);
    match backed_up {
        Err(e) => LinkResult::IoError(e),
        Ok(()) => {
            let ghost name = choose|name: String|
                #[trigger] is_backup_candidate(*is_taken, target@, name) && rename.ensures(
                    (target, &name),
                    backed_up,
                );
            assert(may_succeed(*rename, *target, name));
            link_without_overriding(source, target, link)
        },
    }
}

/// What may have happened when `target` was backed up and replaced by a link:
/// success after a rename to the first free backup name and a link that both
/// succeeded; an error when every backup name was taken, or else the error
/// that the rename returned, or else, after a successful rename, the error
/// that the link returned.
pub open spec fn replace_outcome<
    F: Fn(&String) -> bool,
    R: Fn(&String, &String) -> Result<(), std::io::Error>,
    L: Fn(&String, &String) -> Result<(), std::io::Error>,
>(is_taken: F, rename: R, link: L, source: String, target: String, r: LinkResult) -> bool {
    match r {
        LinkResult::Success => may_succeed(link, source, target) && exists|name: String|
            #[trigger] is_backup_candidate(is_taken, target@, name) && may_succeed(rename, target, name),
        LinkResult::IoError(e) => all_backup_names_taken(is_taken, target@) || exists|name: String|
            #[trigger] is_backup_candidate(is_taken, target@, name) && (rename.ensures(
                (&target, &name),
                Err(e),
            ) || (may_succeed(rename, target, name) && link.ensures((&source, &target), Err(e)))),
        _ => false,
    }
}

/// What a policy does with one task.
#[derive(Clone, Copy, Debug, PartialEq, Eq, Structural)]
pub enum LinkAction {
    /// The wanted link is there: report it, touch nothing.
    Keep,
    /// Something else is there and may not be replaced: touch nothing.
    Skip,
    /// Nothing is there: make the link.
    Create,
    /// Something else is there: back it up, then make the link.
    Replace,
}

pub open spec fn action_of(state: TargetState, overwrite: bool) -> LinkAction {
    match state {
        TargetState::Absent => LinkAction::Create,
        TargetState::AlienNode(_) | TargetState::AlienLink(_) => if overwrite {
            LinkAction::Replace
        } else {
            LinkAction::Skip
        },
        TargetState::Linked(_) => LinkAction::Keep,
    }
}

/// True when the action changes the file system.
pub open spec fn mutates(a: LinkAction) -> bool {
    a is Create || a is Replace
}

/// What may come of `task` under the given file system operations.
pub open spec fn task_outcome<
    F: Fn(&String) -> bool,
    R: Fn(&String, &String) -> Result<(), std::io::Error>,
    L: Fn(&String, &String) -> Result<(), std::io::Error>,
>(is_taken: F, rename: R, link: L, task: LinkTask, overwrite: bool, r: LinkResult) -> bool {
    match action_of(task.target_state, overwrite) {
        LinkAction::Keep => r is Existed,
        LinkAction::Skip => r is Skipped,
        LinkAction::Create => link_outcome(link, task.source, task.target, r),
        LinkAction::Replace => replace_outcome(is_taken, rename, link, task.source, task.target, r),
    }
}

/// Carries out one task: links an absent destination, reports a link that is
/// already in place, and backs up and replaces any other destination when
/// `overwrite` holds, or skips it when not.
pub fn execute_linktask<
    F: Fn(&String) -> bool,
    R: Fn(&String, &String) -> Result<(), std::io::Error>,
    L: Fn(&String, &String) -> Result<(), std::io::Error>,
>(link_task: &LinkTask, overwrite: bool, is_taken: &F, rename: &R, link: &L) -> (r: LinkResult)
    requires
        forall|p: &String| is_taken.requires((p,)),
        forall|a: &String, b: &String| rename.requires((a, b)),
        forall|a: &String, b: &String| link.requires((a, b)),
    ensures
        task_outcome(*is_taken, *rename, *link, *link_task, overwrite, r),
{
    match link_task.target_state {
        TargetState::Absent => link_without_overriding(&link_task.source, &link_task.target, link),
        TargetState::AlienNode(_) | TargetState::AlienLink(_) => {
            if overwrite {
                link_with_overriding(&link_task.source, &link_task.target, is_taken, rename, link)
            } else {
                LinkResult::Skipped
            }
        },
        TargetState::Linked(_) => LinkResult::Existed,
    }
}

/// What a policy decided to do, before any file system work.
#[derive(Debug)]
pub enum LinkagePlan {
    /// Report the tasks as they are.
    DryResult(Vec<LinkTask>),
    /// Refuse the whole batch.
    PreconditionFailed(&'static str),
    /// Carry out these tasks, replacing what stands in the way when the flag holds.
    Execute(Vec<LinkTask>, bool),
}

/// The mathematical content of a plan.
pub enum PlanView {
    Dry(Seq<LinkTask>),
    /// Refused, with the reason.
    Refused(Seq<char>),
    Run(Seq<LinkTask>, bool),
}

impl View for LinkagePlan {
    type V = PlanView;

    open spec fn view(&self) -> PlanView {
        match self {
            LinkagePlan::DryResult(ts) => PlanView::Dry(ts@),
            LinkagePlan::PreconditionFailed(reason) => PlanView::Refused(reason@),
            LinkagePlan::Execute(ts, overwrite) => PlanView::Run(ts@, *overwrite),
        }
    }
}

pub open spec fn is_absent(t: LinkTask) -> bool {
    t.target_state is Absent
}

pub open spec fn all_absent(s: Seq<LinkTask>) -> bool {
    forall|i: int| 0 <= i < s.len() ==> is_absent(#[trigger] s[i])
}

/// Why the strict policy refuses a batch.
pub open spec fn strict_refusal_reason() -> Seq<char> {
    "Some of the targets exists"@
}

/// The plan of a policy for tasks that are already sorted.
pub open spec fn policy_plan(mode: Mode, s: Seq<LinkTask>) -> PlanView {
    match mode {
        Mode::Dry => PlanView::Dry(s),
        Mode::Strict => if all_absent(s) {
            PlanView::Run(s, false)
        } else {
            PlanView::Refused(strict_refusal_reason())
        },
        Mode::Lazy => PlanView::Run(tasks_of_rank(s, 3), false),
        Mode::Force => PlanView::Run(s, true),
    }
}

/// The plan of a run: the tasks are sorted, then the policy decides.
pub open spec fn planned(mode: Mode, s: Seq<LinkTask>) -> PlanView {
    policy_plan(mode, sorted_tasks(s))
}

/// The tasks of a plan that change the file system.
pub open spec fn planned_mutations(p: PlanView) -> Seq<LinkTask> {
    match p {
        PlanView::Run(ts, overwrite) => ts.filter(|t: LinkTask| mutates(action_of(t.target_state, overwrite))),
        _ => Seq::empty(),
    }
}

pub fn dry_link_tasks(link_tasks: Vec<LinkTask>) -> (r: LinkagePlan)
    ensures
        r@ == policy_plan(Mode::Dry, link_tasks@),
{
    LinkagePlan::DryResult(link_tasks)
}

pub fn is_link_task_target_absent(link_task: &LinkTask) -> (r: bool)
    ensures
        r == is_absent(*link_task),
{
    match link_task.target_state {
        TargetState::Absent => true,
        _ => false,
    }
}

/// Links every task, but only when every destination is absent.
pub fn link_strictly(link_tasks: Vec<LinkTask>) -> (r: LinkagePlan)
    ensures
        r@ == policy_plan(Mode::Strict, link_tasks@),
{
    let mut i: usize = 0;
    while i < link_tasks.len()
        invariant
            0 <= i <= link_tasks.len(),
            forall|j: int| 0 <= j < i ==> is_absent(#[trigger] link_tasks@[j]),
        decreases link_tasks.len() - i,
    {
        if !is_link_task_target_absent(&link_tasks[i]) {
            return LinkagePlan::PreconditionFailed("Some of the targets exists");
        }
        i = i + 1;
    }
    LinkagePlan::Execute(link_tasks, false)
}

/// Links the tasks whose destination is absent and drops the others.
pub fn link_lazy(link_tasks: Vec<LinkTask>) -> (r: LinkagePlan)
    ensures
        r@ == policy_plan(Mode::Lazy, link_tasks@),
{
    let ghost orig = link_tasks@;
    let mut rest = link_tasks;
    let mut kept: Vec<LinkTask> = Vec::new();
    let ghost mut k: int = 0;
    proof {
        reveal(Seq::filter);
        assert(orig.subrange(0, 0) =~= Seq::<LinkTask>::empty());
    }
    while rest.len() > 0
        invariant
            0 <= k <= orig.len(),
            rest@ == orig.subrange(k, orig.len() as int),
            kept@ == tasks_of_rank(orig.subrange(0, k), 3),
        decreases rest.len(),
    {
        let t = rest.remove(0);
        proof {
            let done = orig.subrange(0, k);
            assert(orig.subrange(0, k + 1) =~= done.push(t));
            lemma_tasks_of_rank_push(done, t);
            k = k + 1;
        }
        if is_link_task_target_absent(&t) {
            kept.push(t);
        }
        assert(rest@ == orig.subrange(k, orig.len() as int));
    }
    assert(orig.subrange(0, k) == orig);
    LinkagePlan::Execute(kept, false)
}

/// Links every task, replacing whatever stands in the way.
pub fn link_forcefully(link_tasks: Vec<LinkTask>) -> (r: LinkagePlan)
    ensures
        r@ == policy_plan(Mode::Force, link_tasks@),
{
    LinkagePlan::Execute(link_tasks, true)
}

/// Sorts the tasks and lets the policy of `mode` decide what to do with them.
pub fn plan_linkage(mode: Mode, link_tasks: Vec<LinkTask>) -> (r: LinkagePlan)
    ensures
        r@ == planned(mode, link_tasks@),
{
    let sorted = sort_link_tasks(link_tasks);
    match mode {
        Mode::Dry => dry_link_tasks(sorted),
        Mode::Strict => link_strictly(sorted),
        Mode::Lazy => link_lazy(sorted),
        Mode::Force => link_forcefully(sorted),
    }
}

/// Carries out a plan: a dry or refused plan passes through untouched, and
/// each task of an executing plan gets one record, in order.
pub fn execute_plan<
    F: Fn(&String) -> bool,
    R: Fn(&String, &String) -> Result<(), std::io::Error>,
    L: Fn(&String, &String) -> Result<(), std::io::Error>,
>(plan: LinkagePlan, is_taken: &F, rename: &R, link: &L) -> (r: LinkageResult)
    requires
        forall|p: &String| is_taken.requires((p,)),
        forall|a: &String, b: &String| rename.requires((a, b)),
        forall|a: &String, b: &String| link.requires((a, b)),
    ensures
        match plan {
            LinkagePlan::DryResult(ts) => r matches LinkageResult::DryResult(out) && out@ == ts@,
            LinkagePlan::PreconditionFailed(m) => r == LinkageResult::PreconditionFailed(m),
            LinkagePlan::Execute(ts, overwrite) => r matches LinkageResult::Completed(records)
                && records.len() == ts.len() && forall|i: int|
                0 <= i < ts.len() ==> #[trigger] records[i].task == ts[i] && task_outcome(
                    *is_taken,
                    *rename,
                    *link,
                    ts[i],
                    overwrite,
                    records[i].result,
                ),
        },
{
    match plan {
        LinkagePlan::DryResult(ts) => LinkageResult::DryResult(ts),
        LinkagePlan::PreconditionFailed(m) => LinkageResult::PreconditionFailed(m),
        LinkagePlan::Execute(ts, overwrite) => {
            let ghost orig = ts@;
            let mut rest = ts;
            let mut records: Vec<LinkState> = Vec::new();
            while rest.len() > 0
                invariant
                    forall|p: &String| is_taken.requires((p,)),
                    forall|a: &String, b: &String| rename.requires((a, b)),
                    forall|a: &String, b: &String| link.requires((a, b)),
                    records.len() + rest.len() == orig.len(),
                    rest@ == orig.subrange(records.len() as int, orig.len() as int),
                    forall|i: int|
                        0 <= i < records.len() ==> #[trigger] records[i].task == orig[i]
                            && task_outcome(
                            *is_taken,
                            *rename,
                            *link,
                            orig[i],
                            overwrite,
                            records[i].result,
                        ),
                decreases rest.len(),
            {
                let task = rest.remove(0);
                let result = execute_linktask(&task, overwrite, is_taken, rename, link);
                records.push(LinkState { task, result });
            }
            LinkageResult::Completed(records)
        },
    }
}

/// What a run may report for a plan, given the file system operations.
pub open spec fn reports<
    F: Fn(&String) -> bool,
    R: Fn(&String, &String) -> Result<(), std::io::Error>,
    L: Fn(&String, &String) -> Result<(), std::io::Error>,
>(is_taken: F, rename: R, link: L, plan: PlanView, r: LinkageResult) -> bool {
    match plan {
        PlanView::Dry(ts) => r matches LinkageResult::DryResult(out) && out@ == ts,
        PlanView::Refused(reason) => r matches LinkageResult::PreconditionFailed(m) && m@ == reason,
        PlanView::Run(ts, overwrite) => r matches LinkageResult::Completed(records) && records.len()
            == ts.len() && forall|i: int|
            0 <= i < ts.len() ==> #[trigger] records[i].task == ts[i] && task_outcome(
                is_taken,
                rename,
                link,
                ts[i],
                overwrite,
                records[i].result,
            ),
    }
}

/// Runs the tasks under the policy `mode`: sorts them, lets the policy
/// decide, and carries out what it decided with the given operations.
pub fn run_linkage<
    F: Fn(&String) -> bool,
    R: Fn(&String, &String) -> Result<(), std::io::Error>,
    L: Fn(&String, &String) -> Result<(), std::io::Error>,
>(mode: Mode, link_tasks: Vec<LinkTask>, is_taken: &F, rename: &R, link: &L) -> (r: LinkageResult)
    requires
        forall|p: &String| is_taken.requires((p,)),
        forall|a: &String, b: &String| rename.requires((a, b)),
        forall|a: &String, b: &String| link.requires((a, b)),
    ensures
        reports(*is_taken, *rename, *link, planned(mode, link_tasks@), r),
{
    let plan = plan_linkage(mode, link_tasks);
    execute_plan(plan, is_taken, rename, link)
}

/// Builds the task of linking `target` to `source`, with the state that a
/// probe of `target` found. Both paths must be absolute.
pub fn create_link_task(source: &String, source_metadata: FileInfo, target: String, probe: &Probe) -> (t:
    LinkTask)
    requires
        is_absolute_path(source@),
        is_absolute_path(target@),
    ensures
        t.source == *source,
        t.source_metadata == source_metadata,
        t.target == target,
        t.target_state == classify(*probe, source@),
{
    let target_state = examine_target_state(probe, source);
    LinkTask { source: source.clone(), source_metadata, target, target_state }
}

/// The strict policy refuses a task list in which some destination is not
/// absent, and then plans no change to the file system at all.
pub proof fn lemma_strict_refuses_existing(s: Seq<LinkTask>)
    requires
        exists|i: int| 0 <= i < s.len() && !is_absent(#[trigger] s[i]),
    ensures
        planned(Mode::Strict, s) == PlanView::Refused(strict_refusal_reason()),
        planned_mutations(planned(Mode::Strict, s)).len() == 0,
{
    let i = choose|i: int| 0 <= i < s.len() && !is_absent(#[trigger] s[i]);
    let k = task_rank(s[i]);
    s.lemma_filter_contains(|t: LinkTask| task_rank(t) == k, i);
    let part = tasks_of_rank(s, k);
    let j = choose|j: int| 0 <= j < part.len() && part[j] == s[i];
    let a0 = tasks_of_rank(s, 0);
    let a1 = tasks_of_rank(s, 1);
    let a2 = tasks_of_rank(s, 2);
    let r = sorted_tasks(s);
    if k == 0 {
        assert(r[j] == s[i]);
    } else if k == 1 {
        assert(r[a0.len() + j] == s[i]);
    } else {
        assert(r[a0.len() + a1.len() + j] == s[i]);
    }
    assert(!all_absent(r));
}

proof fn lemma_absent_tasks(s: Seq<LinkTask>)
    ensures
        all_absent(tasks_of_rank(s, 3)),
        forall|i: int| 0 <= i < s.len() && is_absent(s[i]) ==> tasks_of_rank(s, 3).contains(#[trigger] s[i]),
{
    let a = tasks_of_rank(s, 3);
    lemma_tasks_of_rank_ranks(s, 3);
    assert forall|i: int| 0 <= i < a.len() implies is_absent(#[trigger] a[i]) by {
        assert(task_rank(a[i]) == 3);
    }
    assert forall|i: int| 0 <= i < s.len() && is_absent(s[i]) implies a.contains(#[trigger] s[i]) by {
        s.lemma_filter_contains(|t: LinkTask| task_rank(t) == 3, i);
    }
}

/// The lazy policy plans exactly the tasks whose destination is absent, in
/// their order, and nothing else.
pub proof fn lemma_lazy_keeps_absent(s: Seq<LinkTask>)
    ensures
        planned(Mode::Lazy, s) == PlanView::Run(tasks_of_rank(s, 3), false),
        all_absent(tasks_of_rank(s, 3)),
        forall|i: int| 0 <= i < s.len() && is_absent(s[i]) ==> tasks_of_rank(s, 3).contains(#[trigger] s[i]),
{
    lemma_sorted_tasks_of_rank(s, 3);
    lemma_absent_tasks(s);
}

/// The force policy carries out every task with overwriting, and never plans
/// a change for a task whose link is already in place: it is reported as
/// existing.
pub proof fn lemma_force_keeps_linked(s: Seq<LinkTask>)
    ensures
        planned(Mode::Force, s) == PlanView::Run(sorted_tasks(s), true),
        forall|t: LinkTask| #[trigger] is_linked(t) ==> action_of(t.target_state, true) == LinkAction::Keep,
        forall|i: int|
            0 <= i < planned_mutations(planned(Mode::Force, s)).len() ==> !is_linked(
                #[trigger] planned_mutations(planned(Mode::Force, s))[i],
            ),
{
    broadcast use Seq::lemma_filter_pred;

}

proof fn lemma_no_mutations(ts: Seq<LinkTask>, overwrite: bool)
    requires
        forall|i: int| 0 <= i < ts.len() ==> !mutates(action_of((#[trigger] ts[i]).target_state, overwrite)),
    ensures
        planned_mutations(PlanView::Run(ts, overwrite)).len() == 0,
{
    broadcast use Seq::lemma_filter_pred, Seq::lemma_filter_contains_rev;

    let m = planned_mutations(PlanView::Run(ts, overwrite));
    if m.len() > 0 {
        let t = m[0];
        assert(mutates(action_of(t.target_state, overwrite)));
        assert(m.contains(t));
        assert(ts.contains(t));
    }
}

/// A batch whose links are all in place is never changed: the dry policy
/// reports it as it is, the strict policy refuses it when it is not empty,
/// the lazy policy carries out nothing, and the force policy keeps every
/// task, so no policy plans any change to the file system.
pub proof fn lemma_linked_batch_untouched(s: Seq<LinkTask>)
    requires
        forall|i: int| 0 <= i < s.len() ==> is_linked(#[trigger] s[i]),
    ensures
        planned(Mode::Dry, s) == PlanView::Dry(s),
        s.len() > 0 ==> planned(Mode::Strict, s) == PlanView::Refused(strict_refusal_reason()),
        planned(Mode::Lazy, s) == PlanView::Run(Seq::<LinkTask>::empty(), false),
        planned(Mode::Force, s) == PlanView::Run(s, true),
        forall|i: int| 0 <= i < s.len() ==> action_of((#[trigger] s[i]).target_state, true) == LinkAction::Keep,
        forall|mode: Mode| (#[trigger] planned_mutations(planned(mode, s))).len() == 0,
{
    lemma_tasks_of_one_rank(s, 0);
    let e = Seq::<LinkTask>::empty();
    assert(sorted_tasks(s) =~= s);
    lemma_no_mutations(s, true);
    lemma_no_mutations(s, false);
    lemma_no_mutations(e, false);
    if s.len() > 0 {
        assert(!is_absent(s[0]));
        assert(!all_absent(s));
    }
}

pub open spec fn is_linked(t: LinkTask) -> bool {
    t.target_state is Linked
}

} // verus!
