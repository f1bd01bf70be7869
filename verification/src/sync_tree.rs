//! What a synchronisation run does to whole trees.

use vstd::prelude::*;
use vstd::seq_lib::*;

use crate::name_map;
use crate::sync;
use crate::sync::{
    DirView, FileAttributes, RemoveView, SweepView, SyncOptions, TaskView, UploadView,
};
use crate::sync_run;
use crate::sync_run::{ActionView, CurrentView, EventView, RunView, StepView};

verus! {

/// What the two sides answer: the listing of each host directory, the listing of
/// each device directory, and the size of each host file when it is read.
pub struct World {
    pub host: spec_fn(Seq<char>) -> Seq<(Seq<char>, FileAttributes)>,
    pub device: spec_fn(Seq<char>) -> Seq<(Seq<char>, FileAttributes)>,
    pub size: spec_fn(Seq<char>) -> nat,
}

/// What a run shows or asks for.
pub enum Emission {
    Line(Seq<char>),
    Act(ActionView),
}

/// Lines as emissions.
pub open spec fn shown(lines: Seq<Seq<char>>) -> Seq<Emission> {
    lines.map_values(|l: Seq<char>| Emission::Line(l))
}

/// What a step shows, then what it asks for.
pub open spec fn emitted(step: StepView) -> Seq<Emission> {
    shown(step.lines).push(Emission::Act(step.action))
}

/// The event that answers the current task of a run.
pub open spec fn answer(w: World, current: CurrentView) -> EventView {
    match current {
        CurrentView::Waiting(TaskView::Enter(d)) => EventView::Listed {
            host: (w.host)(d.host_dir),
            device: (w.device)(d.device_dir),
        },
        CurrentView::Waiting(TaskView::Sweep(j)) => EventView::ListedDevice {
            device: (w.device)(j.device_dir),
        },
        CurrentView::Waiting(TaskView::Upload(j)) => EventView::Read { size: (w.size)(j.host_path) },
        _ => EventView::Proceed,
    }
}

/// The state after `n` steps, and all that these steps emitted.
pub open spec fn run_for(w: World, options: SyncOptions, run: RunView, n: nat) -> (
    RunView,
    Seq<Emission>,
)
    decreases n,
{
    if n == 0 {
        (run, Seq::empty())
    } else {
        let (after, step) = sync_run::next(options, run, answer(w, run.current));
        let (end, rest) = run_for(w, options, after, (n - 1) as nat);
        (end, emitted(step) + rest)
    }
}

/// The tasks of a directory as the two sides list it.
pub open spec fn tasks_in(w: World, delete: bool, dir: DirView) -> Seq<TaskView> {
    sync::dir_tasks(dir, delete, (w.host)(dir.host_dir), (w.device)(dir.device_dir))
}

/// Whether a task opens a directory.
pub open spec fn opens(task: TaskView) -> bool {
    task is Enter || task is Sweep
}

/// The tasks of the directory that a task opens, as the two sides list it.
pub open spec fn tasks_of(w: World, delete: bool, task: TaskView) -> Seq<TaskView> {
    match task {
        TaskView::Enter(d) => tasks_in(w, delete, d),
        TaskView::Sweep(j) => sync::sweep_tasks(j, (w.device)(j.device_dir)),
        _ => Seq::empty(),
    }
}

/// Whether directories are nested no deeper than `depth` below the tasks.
pub open spec fn nested_within(w: World, delete: bool, tasks: Seq<TaskView>, depth: nat) -> bool
    decreases depth, tasks.len(),
{
    if tasks.len() == 0 {
        true
    } else {
        &&& opens(tasks.first()) ==> depth > 0 && nested_within(
            w,
            delete,
            tasks_of(w, delete, tasks.first()),
            (depth - 1) as nat,
        )
        &&& nested_within(w, delete, tasks.drop_first(), depth)
    }
}

/// The action with which a directory is opened.
pub open spec fn opening(task: TaskView) -> ActionView {
    match task {
        TaskView::Enter(d) => ActionView::List { host_dir: d.host_dir, device_dir: d.device_dir },
        TaskView::Sweep(j) => ActionView::ListDevice { device_dir: j.device_dir },
        _ => ActionView::Done,
    }
}

/// The lines that are shown once a directory is open.
pub open spec fn opened_lines(options: SyncOptions, task: TaskView) -> Seq<Seq<char>> {
    match task {
        TaskView::Enter(d) => sync_run::listing_lines(options.reporting, d),
        _ => Seq::empty(),
    }
}

/// What a task emits itself, apart from what is below it.
pub open spec fn own_emissions(w: World, options: SyncOptions, task: TaskView) -> Seq<Emission> {
    match task {
        TaskView::Upload(j) => upload_emissions(w, options, j),
        TaskView::Remove(j) => seq![
            Emission::Line(sync_run::removal_line(j.device_path)),
            Emission::Act(
                ActionView::Remove { device_path: j.device_path, perform: !options.dry_run },
            ),
        ],
        _ => seq![Emission::Act(opening(task))] + shown(opened_lines(options, task)),
    }
}

/// What doing the tasks in order emits, each directory being finished, with all that
/// is below it, before the task that follows it.
pub open spec fn tree_emissions(
    w: World,
    options: SyncOptions,
    tasks: Seq<TaskView>,
    depth: nat,
) -> Seq<Emission>
    decreases depth, tasks.len(),
{
    if tasks.len() == 0 {
        Seq::empty()
    } else {
        own_emissions(w, options, tasks.first()) + (if depth == 0 {
            Seq::empty()
        } else {
            tree_emissions(
                w,
                options,
                tasks_of(w, options.delete, tasks.first()),
                (depth - 1) as nat,
            )
        }) + tree_emissions(w, options, tasks.drop_first(), depth)
    }
}

/// What an upload emits: the file is read, the upload is reported, then asked for.
pub open spec fn upload_emissions(w: World, options: SyncOptions, job: UploadView) -> Seq<Emission> {
    seq![Emission::Act(ActionView::Read { host_path: job.host_path })] + shown(
        if sync_run::shows_upload(options) {
            seq![sync_run::upload_line(options.reporting, job, (w.size)(job.host_path))]
        } else {
            Seq::empty()
        },
    ).push(
        Emission::Act(
            ActionView::Upload {
                host_path: job.host_path,
                device_path: job.device_path,
                perform: !options.dry_run,
            },
        ),
    )
}

/// How many tasks there are, with all those below.
spec fn task_count(w: World, delete: bool, tasks: Seq<TaskView>, depth: nat) -> nat
    decreases depth, tasks.len(),
{
    if tasks.len() == 0 {
        0
    } else {
        1 + (if depth == 0 {
            0
        } else {
            task_count(w, delete, tasks_of(w, delete, tasks.first()), (depth - 1) as nat)
        }) + task_count(w, delete, tasks.drop_first(), depth)
    }
}

/// A greater depth changes nothing where the directories are nested within a lesser.
proof fn lemma_deeper(w: World, options: SyncOptions, tasks: Seq<TaskView>, depth: nat)
    requires
        nested_within(w, options.delete, tasks, depth),
    ensures
        nested_within(w, options.delete, tasks, depth + 1),
        tree_emissions(w, options, tasks, depth + 1) == tree_emissions(w, options, tasks, depth),
        task_count(w, options.delete, tasks, depth + 1) == task_count(
            w,
            options.delete,
            tasks,
            depth,
        ),
    decreases depth, tasks.len(),
{
    if tasks.len() > 0 {
        let below = tasks_of(w, options.delete, tasks.first());
        if depth > 0 {
            lemma_deeper(w, options, below, (depth - 1) as nat);
        } else {
            assert(tree_emissions(w, options, below, depth) == Seq::<Emission>::empty());
            assert(task_count(w, options.delete, below, depth) == 0);
        }
        lemma_deeper(w, options, tasks.drop_first(), depth);
    }
}

/// Tasks that follow one another are done one after the other.
proof fn lemma_tasks_append(
    w: World,
    options: SyncOptions,
    a: Seq<TaskView>,
    b: Seq<TaskView>,
    depth: nat,
)
    requires
        nested_within(w, options.delete, a, depth),
        nested_within(w, options.delete, b, depth),
    ensures
        nested_within(w, options.delete, a + b, depth),
        tree_emissions(w, options, a + b, depth) == tree_emissions(w, options, a, depth)
            + tree_emissions(w, options, b, depth),
        task_count(w, options.delete, a + b, depth) == task_count(w, options.delete, a, depth)
            + task_count(w, options.delete, b, depth),
    decreases a.len(),
{
    if a.len() == 0 {
        assert(a + b =~= b);
        assert(tree_emissions(w, options, a + b, depth) =~= tree_emissions(w, options, a, depth)
            + tree_emissions(w, options, b, depth));
    } else {
        lemma_tasks_append(w, options, a.drop_first(), b, depth);
        assert((a + b).drop_first() =~= a.drop_first() + b);
        assert((a + b).first() == a.first());
        assert(tree_emissions(w, options, a + b, depth) =~= tree_emissions(w, options, a, depth)
            + tree_emissions(w, options, b, depth));
    }
}

/// One step more at the front.
proof fn lemma_run_prepend(
    w: World,
    options: SyncOptions,
    run: RunView,
    after: RunView,
    step: StepView,
    n: nat,
)
    requires
        (after, step) == sync_run::next(options, run, answer(w, run.current)),
    ensures
        run_for(w, options, run, n + 1).0 == run_for(w, options, after, n).0,
        run_for(w, options, run, n + 1).1 == emitted(step) + run_for(w, options, after, n).1,
{
}

/// Regrouping of concatenations.
proof fn lemma_regroup(
    a: Seq<Emission>,
    h1: Seq<Emission>,
    h2: Seq<Emission>,
    t: Seq<Emission>,
    done: Emission,
)
    ensures
        (a + h1) + (h2 + t.push(done)) == a + ((h1 + h2) + t).push(done),
        a + (h1 + t).push(done) == (a + h1) + t.push(done),
{
    assert((a + h1) + (h2 + t.push(done)) =~= a + ((h1 + h2) + t).push(done));
    assert(a + (h1 + t).push(done) =~= (a + h1) + t.push(done));
}

/// Whether a run that begins its next task, with some lines shown first, ends after
/// `n` more steps, having emitted these lines and all that the pending tasks emit.
spec fn runs_out(
    w: World,
    options: SyncOptions,
    pending: Seq<TaskView>,
    lines: Seq<Seq<char>>,
    depth: nat,
    n: nat,
) -> bool {
    let (after, step) = sync_run::begin_next(options, pending, lines);
    let (end, rest) = run_for(w, options, after, n);
    &&& end.pending.len() == 0
    &&& end.current == CurrentView::Idle
    &&& emitted(step) + rest == shown(lines) + tree_emissions(
        w,
        options,
        pending.reverse(),
        depth,
    ).push(Emission::Act(ActionView::Done))
}

/// The pending tasks from the next one on.
proof fn lemma_pending_order(pending: Seq<TaskView>)
    requires
        pending.len() > 0,
    ensures
        pending.reverse().len() == pending.len(),
        pending.reverse().first() == pending.last(),
        pending.reverse().drop_first() == pending.drop_last().reverse(),
{
    assert(pending.reverse().drop_first() =~= pending.drop_last().reverse());
}

/// A task that opens no directory has nothing below it.
proof fn lemma_leaf(w: World, options: SyncOptions, tasks: Seq<TaskView>, depth: nat)
    requires
        tasks.len() > 0,
        !opens(tasks.first()),
    ensures
        tree_emissions(w, options, tasks, depth) == own_emissions(w, options, tasks.first())
            + tree_emissions(w, options, tasks.drop_first(), depth),
{
    let own = own_emissions(w, options, tasks.first());
    let below = tasks_of(w, options.delete, tasks.first());
    if depth > 0 {
        assert(tree_emissions(w, options, below, (depth - 1) as nat) == Seq::<Emission>::empty());
    }
    assert(own + Seq::<Emission>::empty() =~= own);
}

proof fn lemma_run_open(
    w: World,
    options: SyncOptions,
    pending: Seq<TaskView>,
    lines: Seq<Seq<char>>,
    depth: nat,
    m: nat,
)
    requires
        pending.len() > 0,
        depth > 0,
        opens(pending.last()),
        ({
            let plan = tasks_of(w, options.delete, pending.last());
            let rest = pending.drop_last();
            let below = rest + plan.reverse();
            &&& runs_out(w, options, below, opened_lines(options, pending.last()), depth, m)
            &&& tree_emissions(w, options, below.reverse(), depth) == tree_emissions(
                w,
                options,
                plan,
                (depth - 1) as nat,
            ) + tree_emissions(w, options, rest.reverse(), depth)
        }),
    ensures
        runs_out(w, options, pending, lines, depth, m + 1),
{
    let done = Emission::Act(ActionView::Done);
    let task = pending.last();
    let (after, step) = sync_run::begin_next(options, pending, lines);
    let plan = tasks_of(w, options.delete, task);
    let rest = pending.drop_last();
    let dir_lines = opened_lines(options, task);
    let (after2, step2) = sync_run::begin_next(options, rest + plan.reverse(), dir_lines);
    lemma_pending_order(pending);
    lemma_run_prepend(w, options, after, after2, step2, m);
    let list = seq![Emission::Act(opening(task))];
    let s = shown(dir_lines);
    let p = tree_emissions(w, options, plan, (depth - 1) as nat);
    let t = tree_emissions(w, options, rest.reverse(), depth);
    assert(emitted(step) =~= shown(lines) + list);
    lemma_regroup(s, p, Seq::empty(), t, done);
    lemma_regroup(shown(lines), list, s + p, t, done);
    assert(list + s + p =~= list + (s + p));
}

proof fn lemma_run_upload(
    w: World,
    options: SyncOptions,
    pending: Seq<TaskView>,
    lines: Seq<Seq<char>>,
    depth: nat,
    j: UploadView,
    m: nat,
)
    requires
        pending.len() > 0,
        pending.last() == TaskView::Upload(j),
        runs_out(w, options, pending.drop_last(), Seq::empty(), depth, m),
    ensures
        runs_out(w, options, pending, lines, depth, m + 2),
{
    let done = Emission::Act(ActionView::Done);
    let none = Seq::<Seq<char>>::empty();
    let rest = pending.drop_last();
    let (after, step) = sync_run::begin_next(options, pending, lines);
    let (after2, step2) = sync_run::next(options, after, answer(w, after.current));
    let (after3, step3) = sync_run::begin_next(options, rest, none);
    lemma_pending_order(pending);
    lemma_leaf(w, options, pending.reverse(), depth);
    lemma_run_prepend(w, options, after2, after3, step3, m);
    lemma_run_prepend(w, options, after, after2, step2, m + 1);
    let read = seq![Emission::Act(ActionView::Read { host_path: j.host_path })];
    let t = tree_emissions(w, options, rest.reverse(), depth);
    assert(emitted(step) =~= shown(lines) + read);
    assert(shown(none) + t.push(done) =~= t.push(done));
    assert(read + emitted(step2) =~= upload_emissions(w, options, j));
    lemma_regroup(shown(lines), read, emitted(step2), t, done);
}

proof fn lemma_run_remove(
    w: World,
    options: SyncOptions,
    pending: Seq<TaskView>,
    lines: Seq<Seq<char>>,
    depth: nat,
    j: RemoveView,
    m: nat,
)
    requires
        pending.len() > 0,
        pending.last() == TaskView::Remove(j),
        runs_out(w, options, pending.drop_last(), Seq::empty(), depth, m),
    ensures
        runs_out(w, options, pending, lines, depth, m + 1),
{
    let done = Emission::Act(ActionView::Done);
    let none = Seq::<Seq<char>>::empty();
    let rest = pending.drop_last();
    let (after, step) = sync_run::begin_next(options, pending, lines);
    let (after2, step2) = sync_run::begin_next(options, rest, none);
    lemma_pending_order(pending);
    lemma_leaf(w, options, pending.reverse(), depth);
    lemma_run_prepend(w, options, after, after2, step2, m);
    let both = own_emissions(w, options, TaskView::Remove(j));
    let t = tree_emissions(w, options, rest.reverse(), depth);
    let empty = Seq::<Emission>::empty();
    assert(emitted(step) =~= shown(lines) + both);
    assert(shown(none) + t.push(done) =~= empty + t.push(done));
    assert(both + empty =~= both);
    lemma_regroup(shown(lines), both, empty, t, done);
}

/// A run that begins its next task runs out.
proof fn lemma_run_tree(
    w: World,
    options: SyncOptions,
    pending: Seq<TaskView>,
    lines: Seq<Seq<char>>,
    depth: nat,
) -> (n: nat)
    requires
        nested_within(w, options.delete, pending.reverse(), depth),
    ensures
        runs_out(w, options, pending, lines, depth, n),
    decreases task_count(w, options.delete, pending.reverse(), depth),
{
    if pending.len() == 0 {
        let (after, step) = sync_run::begin_next(options, pending, lines);
        assert(emitted(step) + run_for(w, options, after, 0).1 =~= shown(lines) + tree_emissions(
            w,
            options,
            pending.reverse(),
            depth,
        ).push(Emission::Act(ActionView::Done)));
        0
    } else {
        let rest = pending.drop_last();
        lemma_pending_order(pending);
        if opens(pending.last()) {
            let plan = tasks_of(w, options.delete, pending.last());
            let below = rest + plan.reverse();
            assert(below.reverse() =~= plan + rest.reverse());
            lemma_deeper(w, options, plan, (depth - 1) as nat);
            lemma_tasks_append(w, options, plan, rest.reverse(), depth);
            let m = lemma_run_tree(w, options, below, opened_lines(options, pending.last()), depth);
            lemma_run_open(w, options, pending, lines, depth, m);
            m + 1
        } else {
            let m = lemma_run_tree(w, options, rest, Seq::empty(), depth);
            match pending.last() {
                TaskView::Upload(j) => {
                    lemma_run_upload(w, options, pending, lines, depth, j, m);
                    m + 2
                },
                TaskView::Remove(j) => {
                    lemma_run_remove(w, options, pending, lines, depth, j, m);
                    m + 1
                },
                _ => m,
            }
        }
    }
}

/// A run over trees of finite depth comes to its end after `n` steps, and on the way
/// shows and asks for exactly what the trees call for: of each directory first the
/// uploads, then the directories in it with all that is below them, then those that
/// only the device has, then the removals.
pub proof fn law_run_covers_tree(
    w: World,
    options: SyncOptions,
    host_dir: Seq<char>,
    device_dir: Seq<char>,
    depth: nat,
) -> (n: nat)
    requires
        nested_within(
            w,
            options.delete,
            sync_run::start(host_dir, device_dir).pending,
            depth,
        ),
    ensures
        ({
            let begin = sync_run::start(host_dir, device_dir);
            let (end, all) = run_for(w, options, begin, n);
            &&& end.pending.len() == 0
            &&& end.current == CurrentView::Idle
            &&& all == tree_emissions(w, options, begin.pending, depth).push(
                Emission::Act(ActionView::Done),
            )
        }),
{
    let begin = sync_run::start(host_dir, device_dir);
    let none = Seq::<Seq<char>>::empty();
    assert(begin.pending.reverse() =~= begin.pending);
    let m = lemma_run_tree(w, options, begin.pending, none, depth);
    let (after, step) = sync_run::begin_next(options, begin.pending, none);
    lemma_run_prepend(w, options, begin, after, step, m);
    assert(shown(none) =~= Seq::<Emission>::empty());
    assert(run_for(w, options, begin, m + 1).1 =~= tree_emissions(
        w,
        options,
        begin.pending,
        depth,
    ).push(Emission::Act(ActionView::Done)));
    m + 1
}

/// Entries of one directory with the same path have the same name.
pub proof fn lemma_child_path_injective(dir: Seq<char>, a: Seq<char>, b: Seq<char>)
    requires
        sync::child_path(dir, a) == sync::child_path(dir, b),
    ensures
        a == b,
{
    let head = dir + "/"@;
    assert((head + a).skip(head.len() as int) =~= a);
    assert((head + b).skip(head.len() as int) =~= b);
}

/// What an entry maps to is among the results.
pub proof fn lemma_filter_map_member<A, B>(s: Seq<A>, f: spec_fn(A) -> Option<B>, i: int, b: B)
    requires
        0 <= i < s.len(),
        f(s[i]) == Some(b),
    ensures
        s.filter_map(f).contains(b),
    decreases s.len(),
{
    let rest = s.drop_last();
    if i == s.len() - 1 {
        let all = rest.filter_map(f) + seq![b];
        assert(s.filter_map(f) == all);
        assert(all[all.len() - 1] == b);
    } else {
        assert(rest[i] == s[i]);
        lemma_filter_map_member(rest, f, i, b);
        let j = choose|j: int| 0 <= j < rest.filter_map(f).len() && rest.filter_map(f)[j] == b;
        assert(s.filter_map(f)[j] == b);
    }
}

/// Whether a task is among those given or below a directory among them.
pub open spec fn is_due(
    w: World,
    delete: bool,
    tasks: Seq<TaskView>,
    depth: nat,
    task: TaskView,
) -> bool
    decreases depth, tasks.len(),
{
    tasks.len() > 0 && {
        ||| task == tasks.first()
        ||| depth > 0 && is_due(
            w,
            delete,
            tasks_of(w, delete, tasks.first()),
            (depth - 1) as nat,
            task,
        )
        ||| is_due(w, delete, tasks.drop_first(), depth, task)
    }
}

proof fn lemma_member_is_due(
    w: World,
    delete: bool,
    tasks: Seq<TaskView>,
    depth: nat,
    task: TaskView,
)
    requires
        tasks.contains(task),
    ensures
        is_due(w, delete, tasks, depth, task),
    decreases tasks.len(),
{
    let i = choose|i: int| 0 <= i < tasks.len() && tasks[i] == task;
    if i > 0 {
        assert(tasks.drop_first()[i - 1] == task);
        lemma_member_is_due(w, delete, tasks.drop_first(), depth, task);
    }
}

/// The tasks of a directory that is opened are due.
proof fn lemma_due_below(
    w: World,
    delete: bool,
    tasks: Seq<TaskView>,
    depth: nat,
    above: TaskView,
    task: TaskView,
)
    requires
        nested_within(w, delete, tasks, depth),
        is_due(w, delete, tasks, depth, above),
        tasks_of(w, delete, above).contains(task),
    ensures
        is_due(w, delete, tasks, depth, task),
    decreases depth, tasks.len(),
{
    if tasks.first() == above {
        lemma_member_is_due(w, delete, tasks_of(w, delete, above), (depth - 1) as nat, task);
    } else if is_due(w, delete, tasks.drop_first(), depth, above) {
        lemma_due_below(w, delete, tasks.drop_first(), depth, above, task);
    } else {
        let below = tasks_of(w, delete, tasks.first());
        lemma_due_below(w, delete, below, (depth - 1) as nat, above, task);
    }
}

/// A task that is due is one of those given, or one of a directory that is opened.
proof fn lemma_due_origin(
    w: World,
    delete: bool,
    tasks: Seq<TaskView>,
    depth: nat,
    task: TaskView,
)
    requires
        is_due(w, delete, tasks, depth, task),
    ensures
        tasks.contains(task) || exists|above: TaskView| #[trigger]
            is_due(w, delete, tasks, depth, above) && tasks_of(w, delete, above).contains(task),
    decreases depth, tasks.len(),
{
    let rest = tasks.drop_first();
    if task == tasks.first() {
        assert(tasks[0] == task);
    } else if is_due(w, delete, rest, depth, task) {
        lemma_due_origin(w, delete, rest, depth, task);
        if rest.contains(task) {
            let i = choose|i: int| 0 <= i < rest.len() && rest[i] == task;
            assert(tasks[i + 1] == task);
        } else {
            let above = choose|above: TaskView| #[trigger]
                is_due(w, delete, rest, depth, above) && tasks_of(w, delete, above).contains(task);
            assert(is_due(w, delete, tasks, depth, above));
        }
    } else {
        let below = tasks_of(w, delete, tasks.first());
        lemma_due_origin(w, delete, below, (depth - 1) as nat, task);
        if below.contains(task) {
            assert(is_due(w, delete, tasks, depth, tasks.first()));
        } else {
            let above = choose|above: TaskView| #[trigger]
                is_due(w, delete, below, (depth - 1) as nat, above) && tasks_of(
                    w,
                    delete,
                    above,
                ).contains(task);
            assert(is_due(w, delete, tasks, depth, above));
        }
    }
}

/// What holds of the tasks given, and of the tasks of a directory where it holds of the
/// task that opens it, holds of every task that is due.
pub proof fn lemma_due_induction(
    w: World,
    delete: bool,
    tasks: Seq<TaskView>,
    depth: nat,
    holds: spec_fn(TaskView) -> bool,
    task: TaskView,
)
    requires
        forall|i: int| 0 <= i < tasks.len() ==> holds(#[trigger] tasks[i]),
        forall|above: TaskView, t: TaskView|
            holds(above) && #[trigger] tasks_of(w, delete, above).contains(t) ==> holds(t),
        is_due(w, delete, tasks, depth, task),
    ensures
        holds(task),
    decreases depth, tasks.len(),
{
    let first = tasks.first();
    let rest = tasks.drop_first();
    assert(holds(tasks[0]));
    if task == first {
    } else if is_due(w, delete, rest, depth, task) {
        assert forall|i: int| 0 <= i < rest.len() implies holds(#[trigger] rest[i]) by {
            assert(rest[i] == tasks[i + 1]);
        }
        lemma_due_induction(w, delete, rest, depth, holds, task);
    } else {
        let below = tasks_of(w, delete, first);
        assert forall|i: int| 0 <= i < below.len() implies holds(#[trigger] below[i]) by {
            assert(tasks_of(w, delete, first).contains(below[i]));
        }
        lemma_due_induction(w, delete, below, (depth - 1) as nat, holds, task);
    }
}

/// A directory that is due is opened.
pub proof fn lemma_openings_are_emitted(
    w: World,
    options: SyncOptions,
    tasks: Seq<TaskView>,
    depth: nat,
    task: TaskView,
)
    requires
        is_due(w, options.delete, tasks, depth, task),
        opens(task),
    ensures
        tree_emissions(w, options, tasks, depth).contains(Emission::Act(opening(task))),
    decreases depth, tasks.len(),
{
    let goal = Emission::Act(opening(task));
    let first = tasks.first();
    let rest = tasks.drop_first();
    let below = tasks_of(w, options.delete, first);
    let own = own_emissions(w, options, first);
    let inner = if depth == 0 {
        Seq::empty()
    } else {
        tree_emissions(w, options, below, (depth - 1) as nat)
    };
    let tail = tree_emissions(w, options, rest, depth);
    lemma_seq_concat_contains_all_elements(own, inner, goal);
    lemma_seq_concat_contains_all_elements(own + inner, tail, goal);
    if task == first {
        assert(own[0] == goal);
    } else if is_due(w, options.delete, rest, depth, task) {
        lemma_openings_are_emitted(w, options, rest, depth, task);
    } else {
        lemma_openings_are_emitted(w, options, below, (depth - 1) as nat, task);
    }
}

/// The action of a task that changes the device.
spec fn change_of(options: SyncOptions, task: TaskView) -> Option<ActionView> {
    match task {
        TaskView::Upload(j) => Some(
            ActionView::Upload {
                host_path: j.host_path,
                device_path: j.device_path,
                perform: !options.dry_run,
            },
        ),
        TaskView::Remove(j) => Some(
            ActionView::Remove { device_path: j.device_path, perform: !options.dry_run },
        ),
        _ => None,
    }
}

/// What a task emits itself holds its change of the device and no other.
proof fn lemma_own_change(w: World, options: SyncOptions, task: TaskView, action: ActionView)
    requires
        action is Upload || action is Remove,
    ensures
        own_emissions(w, options, task).contains(Emission::Act(action)) <==> change_of(
            options,
            task,
        ) == Some(action),
{
    let goal = Emission::Act(action);
    let own = own_emissions(w, options, task);
    match task {
        TaskView::Upload(j) => {
            let read = seq![Emission::Act(ActionView::Read { host_path: j.host_path })];
            let lines = if sync_run::shows_upload(options) {
                seq![sync_run::upload_line(options.reporting, j, (w.size)(j.host_path))]
            } else {
                Seq::empty()
            };
            let last = seq![Emission::Act(change_of(options, task)->0)];
            assert(own =~= read + shown(lines) + last);
            lemma_seq_concat_contains_all_elements(read, shown(lines), goal);
            lemma_seq_concat_contains_all_elements(read + shown(lines), last, goal);
            assert(last[0] == Emission::Act(change_of(options, task)->0));
        },
        TaskView::Remove(j) => {
            assert(own[1] == Emission::Act(change_of(options, task)->0));
        },
        _ => {
            let list = seq![Emission::Act(opening(task))];
            lemma_seq_concat_contains_all_elements(list, shown(opened_lines(options, task)), goal);
        },
    }
}

/// A change of the device is asked for if and only if a task is due that calls for it.
proof fn lemma_changes_are_due(
    w: World,
    options: SyncOptions,
    tasks: Seq<TaskView>,
    depth: nat,
    action: ActionView,
)
    requires
        action is Upload || action is Remove,
    ensures
        tree_emissions(w, options, tasks, depth).contains(Emission::Act(action)) <==> exists|
            task: TaskView,
        |
            #[trigger] is_due(w, options.delete, tasks, depth, task) && change_of(options, task)
                == Some(action),
    decreases depth, tasks.len(),
{
    let delete = options.delete;
    let goal = Emission::Act(action);
    if tasks.len() > 0 {
        let rest = tasks.drop_first();
        let below = tasks_of(w, delete, tasks.first());
        let own = own_emissions(w, options, tasks.first());
        let inner = if depth == 0 {
            Seq::empty()
        } else {
            tree_emissions(w, options, below, (depth - 1) as nat)
        };
        let tail = tree_emissions(w, options, rest, depth);
        lemma_own_change(w, options, tasks.first(), action);
        lemma_changes_are_due(w, options, rest, depth, action);
        if depth > 0 {
            lemma_changes_are_due(w, options, below, (depth - 1) as nat, action);
        }
        lemma_seq_concat_contains_all_elements(own, inner, goal);
        lemma_seq_concat_contains_all_elements(own + inner, tail, goal);
        if own.contains(goal) {
            assert(is_due(w, delete, tasks, depth, tasks.first()));
        }
        if inner.contains(goal) {
            let t = choose|t: TaskView| #[trigger]
                is_due(w, delete, below, (depth - 1) as nat, t) && change_of(options, t) == Some(
                    action,
                );
            assert(is_due(w, delete, tasks, depth, t));
        }
        if tail.contains(goal) {
            let t = choose|t: TaskView| #[trigger]
                is_due(w, delete, rest, depth, t) && change_of(options, t) == Some(action);
            assert(is_due(w, delete, tasks, depth, t));
        }
        assert forall|t: TaskView| #[trigger]
            is_due(w, delete, tasks, depth, t) && change_of(options, t) == Some(
                action,
            ) implies tree_emissions(w, options, tasks, depth).contains(goal) by {
            if t != tasks.first() && !is_due(w, delete, rest, depth, t) {
                assert(is_due(w, delete, below, (depth - 1) as nat, t));
            }
        }
    }
}

/// Whether a run visits a directory of the host.
pub open spec fn is_visited(
    w: World,
    delete: bool,
    host_dir: Seq<char>,
    device_dir: Seq<char>,
    depth: nat,
    dir: DirView,
) -> bool {
    is_due(w, delete, sync_run::start(host_dir, device_dir).pending, depth, TaskView::Enter(dir))
}

/// Whether a run sweeps a directory of the device.
pub open spec fn is_swept(
    w: World,
    delete: bool,
    host_dir: Seq<char>,
    device_dir: Seq<char>,
    depth: nat,
    sweep: SweepView,
) -> bool {
    is_due(w, delete, sync_run::start(host_dir, device_dir).pending, depth, TaskView::Sweep(sweep))
}

/// Whether the entry at `i` of the host's listing of a directory is to be uploaded,
/// from the one path to the other.
pub open spec fn calls_for_upload(
    w: World,
    dir: DirView,
    i: int,
    host_path: Seq<char>,
    device_path: Seq<char>,
) -> bool {
    let host = (w.host)(dir.host_dir);
    let device = name_map::map_of((w.device)(dir.device_dir));
    &&& 0 <= i < host.len()
    &&& !host[i].1.is_dir
    &&& !device.contains_key(host[i].0) || device[host[i].0].size != host[i].1.size
    &&& host_path == sync::child_path(dir.host_dir, host[i].0)
    &&& device_path == sync::child_path(dir.device_dir, host[i].0)
}

/// Whether the entry at `i` of the device's listing of a directory is a file that the
/// host lacks, at the given path.
pub open spec fn calls_for_removal(w: World, dir: DirView, i: int, device_path: Seq<char>) -> bool {
    let host = name_map::map_of((w.host)(dir.host_dir));
    let device = (w.device)(dir.device_dir);
    &&& 0 <= i < device.len()
    &&& !device[i].1.is_dir
    &&& !host.contains_key(device[i].0)
    &&& device_path == sync::child_path(dir.device_dir, device[i].0)
}

/// Whether the entry at `i` of the device's listing of a directory that the host lacks
/// is a file, at the given path.
pub open spec fn is_swept_file(
    w: World,
    sweep: SweepView,
    i: int,
    device_path: Seq<char>,
) -> bool {
    let device = (w.device)(sweep.device_dir);
    &&& 0 <= i < device.len()
    &&& !device[i].1.is_dir
    &&& device_path == sync::child_path(sweep.device_dir, device[i].0)
}

/// Whether a directory is that of the entry at `i` of the host's listing of another.
pub open spec fn is_sub_dir(w: World, dir: DirView, i: int, sub: DirView) -> bool {
    let host = (w.host)(dir.host_dir);
    &&& 0 <= i < host.len()
    &&& host[i].1.is_dir
    &&& sub == sync::sub_dir(dir, host[i].0)
}

/// Whether a sweep is that of the entry at `i` of the device's listing of a directory,
/// which is a directory that the host lacks.
pub open spec fn is_unmatched_sub_dir(w: World, dir: DirView, i: int, sweep: SweepView) -> bool {
    let host = name_map::map_of((w.host)(dir.host_dir));
    let device = (w.device)(dir.device_dir);
    &&& 0 <= i < device.len()
    &&& device[i].1.is_dir
    &&& !(host.contains_key(device[i].0) && host[device[i].0].is_dir)
    &&& sweep == SweepView {
        device_dir: sync::child_path(dir.device_dir, device[i].0),
        trail: dir.trail,
    }
}

/// Whether a sweep is that of the entry at `i` of the device's listing of a directory
/// that is swept.
pub open spec fn is_swept_sub_dir(w: World, above: SweepView, i: int, sweep: SweepView) -> bool {
    let device = (w.device)(above.device_dir);
    &&& 0 <= i < device.len()
    &&& device[i].1.is_dir
    &&& sweep == SweepView {
        device_dir: sync::child_path(above.device_dir, device[i].0),
        trail: above.trail,
    }
}

/// Whether a job uploads an entry of a directory for the reason that holds.
pub open spec fn is_upload_from(w: World, dir: DirView, j: UploadView) -> bool {
    (exists|i: int|
        calls_for_upload(w, dir, i, j.host_path, j.device_path) && sync::upload_reason(
            (w.host)(dir.host_dir)[i].0,
            (w.host)(dir.host_dir)[i].1,
            name_map::map_of((w.device)(dir.device_dir)),
        ) == Some(j.reason)) && j.trail == dir.trail
}

/// What an entry maps to is among the results, and nothing else.
pub proof fn lemma_in_filter_map<A, B>(s: Seq<A>, f: spec_fn(A) -> Option<B>, b: B)
    ensures
        s.filter_map(f).contains(b) <==> exists|i: int|
            0 <= i < s.len() && f(#[trigger] s[i]) == Some(b),
{
    if s.filter_map(f).contains(b) {
        s.lemma_filter_map_contains(f, b);
        let a = choose|a: A| #[trigger] s.contains(a) && f(a) == Some(b);
        let i = choose|i: int| 0 <= i < s.len() && s[i] == a;
        assert(f(s[i]) == Some(b));
    }
    if exists|i: int| 0 <= i < s.len() && f(#[trigger] s[i]) == Some(b) {
        let i = choose|i: int| 0 <= i < s.len() && f(#[trigger] s[i]) == Some(b);
        lemma_filter_map_member(s, f, i, b);
    }
}

/// Whether a task is one of a directory that is visited.
pub open spec fn is_task_in(w: World, delete: bool, dir: DirView, task: TaskView) -> bool {
    match task {
        TaskView::Enter(sub) => exists|i: int| is_sub_dir(w, dir, i, sub),
        TaskView::Upload(j) => is_upload_from(w, dir, j),
        TaskView::Sweep(k) => delete && exists|i: int| is_unmatched_sub_dir(w, dir, i, k),
        TaskView::Remove(j) => delete && (exists|i: int|
            calls_for_removal(w, dir, i, j.device_path)) && j.trail == dir.trail,
    }
}

/// The tasks of a directory that is visited, kind by kind.
pub proof fn lemma_tasks_in(w: World, delete: bool, dir: DirView, task: TaskView)
    ensures
        tasks_in(w, delete, dir).contains(task) <==> is_task_in(w, delete, dir, task),
{
    let host = (w.host)(dir.host_dir);
    let device = (w.device)(dir.device_dir);
    let f = sync::upload_of(dir, name_map::map_of(device));
    let g = sync::enter_of(dir);
    let k = sync::sweep_of(dir.device_dir, dir.trail, name_map::map_of(host));
    let h = sync::remove_of(dir.device_dir, dir.trail, name_map::map_of(host));
    let a = sync::uploads(dir, host, device);
    let b = sync::visits(dir, host);
    let c = sync::sweeps(dir, delete, host, device);
    let d = sync::removals(dir, delete, host, device);
    lemma_seq_concat_contains_all_elements(a, b, task);
    lemma_seq_concat_contains_all_elements(a + b, c, task);
    lemma_seq_concat_contains_all_elements(a + b + c, d, task);
    lemma_in_filter_map(host, f, task);
    lemma_in_filter_map(host, g, task);
    lemma_in_filter_map(device, k, task);
    lemma_in_filter_map(device, h, task);
    if tasks_in(w, delete, dir).contains(task) {
        match task {
            TaskView::Enter(sub) => {
                let i = choose|i: int| 0 <= i < host.len() && g(#[trigger] host[i]) == Some(task);
                assert(is_sub_dir(w, dir, i, sub));
            },
            TaskView::Upload(j) => {
                let i = choose|i: int| 0 <= i < host.len() && f(#[trigger] host[i]) == Some(task);
                assert(calls_for_upload(w, dir, i, j.host_path, j.device_path));
            },
            TaskView::Sweep(j) => {
                let i = choose|i: int|
                    0 <= i < device.len() && k(#[trigger] device[i]) == Some(task);
                assert(is_unmatched_sub_dir(w, dir, i, j));
            },
            TaskView::Remove(j) => {
                let i = choose|i: int|
                    0 <= i < device.len() && h(#[trigger] device[i]) == Some(task);
                assert(calls_for_removal(w, dir, i, j.device_path));
            },
        }
    }
    if is_task_in(w, delete, dir, task) {
        match task {
            TaskView::Enter(sub) => {
                let i = choose|i: int| is_sub_dir(w, dir, i, sub);
                assert(g(host[i]) == Some(task));
            },
            TaskView::Upload(j) => {
                let i = choose|i: int| #[trigger]
                    calls_for_upload(w, dir, i, j.host_path, j.device_path) && sync::upload_reason(
                        host[i].0,
                        host[i].1,
                        name_map::map_of(device),
                    ) == Some(j.reason);
                assert(f(host[i]) == Some(task));
            },
            TaskView::Sweep(j) => {
                let i = choose|i: int| is_unmatched_sub_dir(w, dir, i, j);
                assert(k(device[i]) == Some(task));
            },
            TaskView::Remove(j) => {
                let i = choose|i: int| calls_for_removal(w, dir, i, j.device_path);
                assert(h(device[i]) == Some(task));
            },
        }
    }
}

/// Whether a task is one of a directory that is swept.
pub open spec fn is_task_of_sweep(w: World, sweep: SweepView, task: TaskView) -> bool {
    match task {
        TaskView::Sweep(k) => exists|i: int| is_swept_sub_dir(w, sweep, i, k),
        TaskView::Remove(j) => (exists|i: int| is_swept_file(w, sweep, i, j.device_path))
            && j.trail == sweep.trail,
        _ => false,
    }
}

/// The tasks of a directory that is swept, kind by kind.
pub proof fn lemma_tasks_of_sweep(w: World, delete: bool, sweep: SweepView, task: TaskView)
    ensures
        tasks_of(w, delete, TaskView::Sweep(sweep)).contains(task) <==> is_task_of_sweep(
            w,
            sweep,
            task,
        ),
{
    let device = (w.device)(sweep.device_dir);
    let k = sync::sweep_of(sweep.device_dir, sweep.trail, Map::empty());
    let h = sync::remove_of(sweep.device_dir, sweep.trail, Map::empty());
    lemma_seq_concat_contains_all_elements(device.filter_map(k), device.filter_map(h), task);
    lemma_in_filter_map(device, k, task);
    lemma_in_filter_map(device, h, task);
    if device.filter_map(k).contains(task) {
        let i = choose|i: int| 0 <= i < device.len() && k(#[trigger] device[i]) == Some(task);
        assert(is_swept_sub_dir(w, sweep, i, task->Sweep_0));
    }
    if device.filter_map(h).contains(task) {
        let i = choose|i: int| 0 <= i < device.len() && h(#[trigger] device[i]) == Some(task);
        assert(is_swept_file(w, sweep, i, task->Remove_0.device_path));
    }
    if is_task_of_sweep(w, sweep, task) {
        match task {
            TaskView::Sweep(j) => {
                let i = choose|i: int| is_swept_sub_dir(w, sweep, i, j);
                assert(k(device[i]) == Some(task));
            },
            TaskView::Remove(j) => {
                let i = choose|i: int| is_swept_file(w, sweep, i, j.device_path);
                assert(h(device[i]) == Some(task));
            },
            _ => {},
        }
    }
}

/// A task that is due is the visit that the run was made for, or one of a directory
/// that is visited, or one of a directory that is swept.
proof fn lemma_due_in_run(
    w: World,
    delete: bool,
    host_dir: Seq<char>,
    device_dir: Seq<char>,
    depth: nat,
    task: TaskView,
)
    requires
        nested_within(w, delete, sync_run::start(host_dir, device_dir).pending, depth),
    ensures
        is_due(w, delete, sync_run::start(host_dir, device_dir).pending, depth, task) <==> {
            ||| task == TaskView::Enter(DirView { host_dir, device_dir, trail: Seq::empty() })
            ||| exists|dir: DirView| #[trigger]
                is_visited(w, delete, host_dir, device_dir, depth, dir) && is_task_in(
                    w,
                    delete,
                    dir,
                    task,
                )
            ||| exists|sweep: SweepView| #[trigger]
                is_swept(w, delete, host_dir, device_dir, depth, sweep) && is_task_of_sweep(
                    w,
                    sweep,
                    task,
                )
        },
{
    let tasks = sync_run::start(host_dir, device_dir).pending;
    let top = TaskView::Enter(DirView { host_dir, device_dir, trail: Seq::empty() });
    assert(tasks[0] == top);
    if is_due(w, delete, tasks, depth, task) {
        lemma_due_origin(w, delete, tasks, depth, task);
        if !tasks.contains(task) {
            let above = choose|above: TaskView| #[trigger]
                is_due(w, delete, tasks, depth, above) && tasks_of(w, delete, above).contains(task);
            match above {
                TaskView::Enter(dir) => {
                    lemma_tasks_in(w, delete, dir, task);
                    assert(is_visited(w, delete, host_dir, device_dir, depth, dir));
                },
                TaskView::Sweep(sweep) => {
                    lemma_tasks_of_sweep(w, delete, sweep, task);
                    assert(is_swept(w, delete, host_dir, device_dir, depth, sweep));
                },
                _ => {},
            }
        }
    }
    assert forall|dir: DirView| #[trigger]
        is_visited(w, delete, host_dir, device_dir, depth, dir) && is_task_in(
            w,
            delete,
            dir,
            task,
        ) implies is_due(w, delete, tasks, depth, task) by {
        lemma_tasks_in(w, delete, dir, task);
        lemma_due_below(w, delete, tasks, depth, TaskView::Enter(dir), task);
    }
    assert forall|sweep: SweepView| #[trigger]
        is_swept(w, delete, host_dir, device_dir, depth, sweep) && is_task_of_sweep(
            w,
            sweep,
            task,
        ) implies is_due(w, delete, tasks, depth, task) by {
        lemma_tasks_of_sweep(w, delete, sweep, task);
        lemma_due_below(w, delete, tasks, depth, TaskView::Sweep(sweep), task);
    }
}

/// A run visits the host directory that it was made for, and the host directories in
/// those that it visits, and no other.
pub proof fn law_every_host_directory_is_visited(
    w: World,
    delete: bool,
    host_dir: Seq<char>,
    device_dir: Seq<char>,
    depth: nat,
    dir: DirView,
)
    requires
        nested_within(w, delete, sync_run::start(host_dir, device_dir).pending, depth),
    ensures
        is_visited(w, delete, host_dir, device_dir, depth, dir) <==> {
            ||| dir == (DirView { host_dir, device_dir, trail: Seq::empty() })
            ||| exists|above: DirView, i: int| #[trigger]
                is_sub_dir(w, above, i, dir) && is_visited(
                    w,
                    delete,
                    host_dir,
                    device_dir,
                    depth,
                    above,
                )
        },
{
    let task = TaskView::Enter(dir);
    lemma_due_in_run(w, delete, host_dir, device_dir, depth, task);
    assert forall|above: DirView, i: int| #[trigger]
        is_sub_dir(w, above, i, dir) && is_visited(
            w,
            delete,
            host_dir,
            device_dir,
            depth,
            above,
        ) implies is_visited(w, delete, host_dir, device_dir, depth, dir) by {
        assert(is_sub_dir(w, above, i, task->Enter_0));
        assert(is_task_in(w, delete, above, task));
    }
    if is_visited(w, delete, host_dir, device_dir, depth, dir) && dir != (DirView {
        host_dir,
        device_dir,
        trail: Seq::empty(),
    }) {
        let above = choose|above: DirView| #[trigger]
            is_visited(w, delete, host_dir, device_dir, depth, above) && is_task_in(
                w,
                delete,
                above,
                task,
            );
        let i = choose|i: int| is_sub_dir(w, above, i, task->Enter_0);
        assert(is_sub_dir(w, above, i, dir));
    }
}

/// With `delete`, a run sweeps the device directories that the host lacks in the
/// directories that it visits, and the directories in those that it sweeps. Otherwise
/// it sweeps none.
pub proof fn law_every_unmatched_directory_is_swept(
    w: World,
    delete: bool,
    host_dir: Seq<char>,
    device_dir: Seq<char>,
    depth: nat,
    sweep: SweepView,
)
    requires
        nested_within(w, delete, sync_run::start(host_dir, device_dir).pending, depth),
    ensures
        is_swept(w, delete, host_dir, device_dir, depth, sweep) <==> {
            ||| delete && exists|above: DirView, i: int| #[trigger]
                is_unmatched_sub_dir(w, above, i, sweep) && is_visited(
                    w,
                    delete,
                    host_dir,
                    device_dir,
                    depth,
                    above,
                )
            ||| exists|above: SweepView, i: int| #[trigger]
                is_swept_sub_dir(w, above, i, sweep) && is_swept(
                    w,
                    delete,
                    host_dir,
                    device_dir,
                    depth,
                    above,
                )
        },
{
    let task = TaskView::Sweep(sweep);
    lemma_due_in_run(w, delete, host_dir, device_dir, depth, task);
    assert forall|above: DirView, i: int| #[trigger]
        is_unmatched_sub_dir(w, above, i, sweep) && delete && is_visited(
            w,
            delete,
            host_dir,
            device_dir,
            depth,
            above,
        ) implies is_swept(w, delete, host_dir, device_dir, depth, sweep) by {
        assert(is_unmatched_sub_dir(w, above, i, task->Sweep_0));
        assert(is_task_in(w, delete, above, task));
    }
    assert forall|above: SweepView, i: int| #[trigger]
        is_swept_sub_dir(w, above, i, sweep) && is_swept(
            w,
            delete,
            host_dir,
            device_dir,
            depth,
            above,
        ) implies is_swept(w, delete, host_dir, device_dir, depth, sweep) by {
        assert(is_swept_sub_dir(w, above, i, task->Sweep_0));
        assert(is_task_of_sweep(w, above, task));
    }
    if is_swept(w, delete, host_dir, device_dir, depth, sweep) {
        if exists|above: DirView| #[trigger]
            is_visited(w, delete, host_dir, device_dir, depth, above) && is_task_in(
                w,
                delete,
                above,
                task,
            ) {
            let above = choose|above: DirView| #[trigger]
                is_visited(w, delete, host_dir, device_dir, depth, above) && is_task_in(
                    w,
                    delete,
                    above,
                    task,
                );
            let i = choose|i: int| is_unmatched_sub_dir(w, above, i, task->Sweep_0);
            assert(is_unmatched_sub_dir(w, above, i, sweep));
        } else {
            let above = choose|above: SweepView| #[trigger]
                is_swept(w, delete, host_dir, device_dir, depth, above) && is_task_of_sweep(
                    w,
                    above,
                    task,
                );
            let i = choose|i: int| is_swept_sub_dir(w, above, i, task->Sweep_0);
            assert(is_swept_sub_dir(w, above, i, sweep));
        }
    }
}

/// With `delete`, a run leaves out no device directory: each one in a directory that
/// it visits is itself visited or swept, and each one in a directory that it sweeps is
/// swept.
pub proof fn law_no_device_directory_is_left_out(
    w: World,
    host_dir: Seq<char>,
    device_dir: Seq<char>,
    depth: nat,
    dir: DirView,
    sweep: SweepView,
    i: int,
)
    requires
        nested_within(w, true, sync_run::start(host_dir, device_dir).pending, depth),
    ensures
        is_visited(w, true, host_dir, device_dir, depth, dir) && 0 <= i < (w.device)(
            dir.device_dir,
        ).len() && (w.device)(dir.device_dir)[i].1.is_dir ==> {
            let path = sync::child_path(dir.device_dir, (w.device)(dir.device_dir)[i].0);
            ||| exists|sub: DirView| #[trigger]
                is_visited(w, true, host_dir, device_dir, depth, sub) && sub.device_dir == path
            ||| exists|sub: SweepView| #[trigger]
                is_swept(w, true, host_dir, device_dir, depth, sub) && sub.device_dir == path
        },
        is_swept(w, true, host_dir, device_dir, depth, sweep) && 0 <= i < (w.device)(
            sweep.device_dir,
        ).len() && (w.device)(sweep.device_dir)[i].1.is_dir ==> exists|sub: SweepView| #[trigger]
            is_swept(w, true, host_dir, device_dir, depth, sub) && sub.device_dir
                == sync::child_path(sweep.device_dir, (w.device)(sweep.device_dir)[i].0),
{
    let device = (w.device)(dir.device_dir);
    if is_visited(w, true, host_dir, device_dir, depth, dir) && 0 <= i < device.len()
        && device[i].1.is_dir {
        let listing = (w.host)(dir.host_dir);
        let host = name_map::map_of(listing);
        let name = device[i].0;
        if host.contains_key(name) && host[name].is_dir {
            let k = choose|k: int| name_map::named_at(listing, name, k);
            let sub = sync::sub_dir(dir, name);
            assert(is_sub_dir(w, dir, k, sub));
            law_every_host_directory_is_visited(w, true, host_dir, device_dir, depth, sub);
            assert(is_visited(w, true, host_dir, device_dir, depth, sub));
        } else {
            let sub = SweepView {
                device_dir: sync::child_path(dir.device_dir, name),
                trail: dir.trail,
            };
            assert(is_unmatched_sub_dir(w, dir, i, sub));
            law_every_unmatched_directory_is_swept(w, true, host_dir, device_dir, depth, sub);
            assert(is_swept(w, true, host_dir, device_dir, depth, sub));
        }
    }
    let below = (w.device)(sweep.device_dir);
    if is_swept(w, true, host_dir, device_dir, depth, sweep) && 0 <= i < below.len()
        && below[i].1.is_dir {
        let sub = SweepView {
            device_dir: sync::child_path(sweep.device_dir, below[i].0),
            trail: sweep.trail,
        };
        assert(is_swept_sub_dir(w, sweep, i, sub));
        law_every_unmatched_directory_is_swept(w, true, host_dir, device_dir, depth, sub);
        assert(is_swept(w, true, host_dir, device_dir, depth, sub));
    }
}

/// Whether a run is to upload a host file: a directory that it visits has it, and the
/// device lacks it or holds it with another size.
pub open spec fn upload_is_due(
    w: World,
    delete: bool,
    host_dir: Seq<char>,
    device_dir: Seq<char>,
    depth: nat,
    host_path: Seq<char>,
    device_path: Seq<char>,
) -> bool {
    exists|dir: DirView, i: int| #[trigger]
        calls_for_upload(w, dir, i, host_path, device_path) && is_visited(
            w,
            delete,
            host_dir,
            device_dir,
            depth,
            dir,
        )
}

/// Whether a run is to remove a device file: removals were asked for, and a directory
/// that it visits has the file on the device and not on the host, or a directory that
/// the host lacks has it.
pub open spec fn removal_is_due(
    w: World,
    delete: bool,
    host_dir: Seq<char>,
    device_dir: Seq<char>,
    depth: nat,
    device_path: Seq<char>,
) -> bool {
    delete && {
        ||| exists|dir: DirView, i: int| #[trigger]
            calls_for_removal(w, dir, i, device_path) && is_visited(
                w,
                delete,
                host_dir,
                device_dir,
                depth,
                dir,
            )
        ||| exists|sweep: SweepView, i: int| #[trigger]
            is_swept_file(w, sweep, i, device_path) && is_swept(
                w,
                delete,
                host_dir,
                device_dir,
                depth,
                sweep,
            )
    }
}

/// Without `delete` there is no sweep among the tasks, nor below them.
pub proof fn lemma_no_sweep_without_delete(
    w: World,
    tasks: Seq<TaskView>,
    depth: nat,
    sweep: SweepView,
)
    requires
        forall|i: int| 0 <= i < tasks.len() ==> !(#[trigger] tasks[i] is Sweep),
    ensures
        !is_due(w, false, tasks, depth, TaskView::Sweep(sweep)),
    decreases depth, tasks.len(),
{
    if tasks.len() > 0 {
        let rest = tasks.drop_first();
        assert(!(tasks[0] is Sweep));
        assert forall|i: int| 0 <= i < rest.len() implies !(#[trigger] rest[i] is Sweep) by {
            assert(rest[i] == tasks[i + 1]);
        }
        lemma_no_sweep_without_delete(w, rest, depth, sweep);
        if depth > 0 {
            let below = tasks_of(w, false, tasks.first());
            assert forall|i: int| 0 <= i < below.len() implies !(#[trigger] below[i] is Sweep) by {
                let dir = tasks[0]->Enter_0;
                assert(below.contains(below[i]));
                lemma_tasks_in(w, false, dir, below[i]);
            }
            lemma_no_sweep_without_delete(w, below, (depth - 1) as nat, sweep);
        }
    }
}

proof fn lemma_upload_is_due(
    w: World,
    options: SyncOptions,
    host_dir: Seq<char>,
    device_dir: Seq<char>,
    depth: nat,
    host_path: Seq<char>,
    device_path: Seq<char>,
    perform: bool,
)
    requires
        nested_within(w, options.delete, sync_run::start(host_dir, device_dir).pending, depth),
    ensures
        (exists|t: TaskView| #[trigger]
            is_due(
                w,
                options.delete,
                sync_run::start(host_dir, device_dir).pending,
                depth,
                t,
            ) && change_of(options, t) == Some(
                ActionView::Upload { host_path, device_path, perform },
            )) <==> perform == !options.dry_run && upload_is_due(
            w,
            options.delete,
            host_dir,
            device_dir,
            depth,
            host_path,
            device_path,
        ),
{
    let delete = options.delete;
    let tasks = sync_run::start(host_dir, device_dir).pending;
    let action = ActionView::Upload { host_path, device_path, perform };
    assert forall|t: TaskView| #[trigger]
        is_due(w, delete, tasks, depth, t) && change_of(options, t) == Some(
            action,
        ) implies upload_is_due(w, delete, host_dir, device_dir, depth, host_path, device_path) by {
        lemma_due_in_run(w, delete, host_dir, device_dir, depth, t);
        let dir = choose|dir: DirView| #[trigger]
            is_visited(w, delete, host_dir, device_dir, depth, dir) && is_task_in(
                w,
                delete,
                dir,
                t,
            );
        let i = choose|i: int| calls_for_upload(w, dir, i, host_path, device_path);
        assert(calls_for_upload(w, dir, i, host_path, device_path));
    }
    if perform == !options.dry_run && upload_is_due(
        w,
        delete,
        host_dir,
        device_dir,
        depth,
        host_path,
        device_path,
    ) {
        let (dir, i) = choose|dir: DirView, i: int| #[trigger]
            calls_for_upload(w, dir, i, host_path, device_path) && is_visited(
                w,
                delete,
                host_dir,
                device_dir,
                depth,
                dir,
            );
        let p = (w.host)(dir.host_dir)[i];
        let reason = sync::upload_reason(
            p.0,
            p.1,
            name_map::map_of((w.device)(dir.device_dir)),
        )->0;
        let job = UploadView { host_path, device_path, reason, trail: dir.trail };
        assert(calls_for_upload(w, dir, i, job.host_path, job.device_path));
        assert(is_upload_from(w, dir, job));
        lemma_due_in_run(w, delete, host_dir, device_dir, depth, TaskView::Upload(job));
        assert(change_of(options, TaskView::Upload(job)) == Some(action));
    }
}

proof fn lemma_removal_is_due(
    w: World,
    options: SyncOptions,
    host_dir: Seq<char>,
    device_dir: Seq<char>,
    depth: nat,
    device_path: Seq<char>,
    perform: bool,
)
    requires
        nested_within(w, options.delete, sync_run::start(host_dir, device_dir).pending, depth),
    ensures
        (exists|t: TaskView| #[trigger]
            is_due(
                w,
                options.delete,
                sync_run::start(host_dir, device_dir).pending,
                depth,
                t,
            ) && change_of(options, t) == Some(ActionView::Remove { device_path, perform }))
            <==> perform == !options.dry_run && removal_is_due(
            w,
            options.delete,
            host_dir,
            device_dir,
            depth,
            device_path,
        ),
{
    let delete = options.delete;
    let tasks = sync_run::start(host_dir, device_dir).pending;
    let action = ActionView::Remove { device_path, perform };
    assert forall|t: TaskView| #[trigger]
        is_due(w, delete, tasks, depth, t) && change_of(options, t) == Some(
            action,
        ) implies removal_is_due(w, delete, host_dir, device_dir, depth, device_path) by {
        lemma_due_in_run(w, delete, host_dir, device_dir, depth, t);
        if exists|dir: DirView| #[trigger]
            is_visited(w, delete, host_dir, device_dir, depth, dir) && is_task_in(
                w,
                delete,
                dir,
                t,
            ) {
            let dir = choose|dir: DirView| #[trigger]
                is_visited(w, delete, host_dir, device_dir, depth, dir) && is_task_in(
                    w,
                    delete,
                    dir,
                    t,
                );
            let i = choose|i: int| calls_for_removal(w, dir, i, device_path);
            assert(calls_for_removal(w, dir, i, device_path));
        } else {
            let sweep = choose|sweep: SweepView| #[trigger]
                is_swept(w, delete, host_dir, device_dir, depth, sweep) && is_task_of_sweep(
                    w,
                    sweep,
                    t,
                );
            let i = choose|i: int| is_swept_file(w, sweep, i, device_path);
            assert(is_swept_file(w, sweep, i, device_path));
            if !delete {
                lemma_no_sweep_without_delete(w, tasks, depth, sweep);
            }
        }
    }
    if perform == !options.dry_run && removal_is_due(
        w,
        delete,
        host_dir,
        device_dir,
        depth,
        device_path,
    ) {
        if exists|dir: DirView, i: int| #[trigger]
            calls_for_removal(w, dir, i, device_path) && is_visited(
                w,
                delete,
                host_dir,
                device_dir,
                depth,
                dir,
            ) {
            let (dir, i) = choose|dir: DirView, i: int| #[trigger]
                calls_for_removal(w, dir, i, device_path) && is_visited(
                    w,
                    delete,
                    host_dir,
                    device_dir,
                    depth,
                    dir,
                );
            let job = RemoveView { device_path, trail: dir.trail };
            let t = TaskView::Remove(job);
            assert(calls_for_removal(w, dir, i, job.device_path));
            assert(is_task_in(w, delete, dir, t));
            lemma_due_in_run(w, delete, host_dir, device_dir, depth, t);
            assert(change_of(options, t) == Some(action));
        } else {
            let (sweep, i) = choose|sweep: SweepView, i: int| #[trigger]
                is_swept_file(w, sweep, i, device_path) && is_swept(
                    w,
                    delete,
                    host_dir,
                    device_dir,
                    depth,
                    sweep,
                );
            let job = RemoveView { device_path, trail: sweep.trail };
            let t = TaskView::Remove(job);
            assert(is_swept_file(w, sweep, i, job.device_path));
            assert(is_task_of_sweep(w, sweep, t));
            lemma_due_in_run(w, delete, host_dir, device_dir, depth, t);
            assert(change_of(options, t) == Some(action));
        }
    }
}

/// What a run emits asks for the upload of a file if and only if that is due.
pub proof fn lemma_uploads_are_due(
    w: World,
    options: SyncOptions,
    host_dir: Seq<char>,
    device_dir: Seq<char>,
    depth: nat,
    host_path: Seq<char>,
    device_path: Seq<char>,
    perform: bool,
)
    requires
        nested_within(w, options.delete, sync_run::start(host_dir, device_dir).pending, depth),
    ensures
        tree_emissions(
            w,
            options,
            sync_run::start(host_dir, device_dir).pending,
            depth,
        ).contains(Emission::Act(ActionView::Upload { host_path, device_path, perform })) <==> (
        perform == !options.dry_run && upload_is_due(
            w,
            options.delete,
            host_dir,
            device_dir,
            depth,
            host_path,
            device_path,
        )),
{
    let tasks = sync_run::start(host_dir, device_dir).pending;
    let action = ActionView::Upload { host_path, device_path, perform };
    lemma_changes_are_due(w, options, tasks, depth, action);
    lemma_upload_is_due(
        w,
        options,
        host_dir,
        device_dir,
        depth,
        host_path,
        device_path,
        perform,
    );
}

/// What a run emits asks for the removal of a file if and only if that is due.
pub proof fn lemma_removals_are_due(
    w: World,
    options: SyncOptions,
    host_dir: Seq<char>,
    device_dir: Seq<char>,
    depth: nat,
    device_path: Seq<char>,
    perform: bool,
)
    requires
        nested_within(w, options.delete, sync_run::start(host_dir, device_dir).pending, depth),
    ensures
        tree_emissions(
            w,
            options,
            sync_run::start(host_dir, device_dir).pending,
            depth,
        ).contains(Emission::Act(ActionView::Remove { device_path, perform })) <==> (perform
            == !options.dry_run && removal_is_due(
            w,
            options.delete,
            host_dir,
            device_dir,
            depth,
            device_path,
        )),
{
    let tasks = sync_run::start(host_dir, device_dir).pending;
    let action = ActionView::Remove { device_path, perform };
    lemma_changes_are_due(w, options, tasks, depth, action);
    lemma_removal_is_due(w, options, host_dir, device_dir, depth, device_path, perform);
}

/// A run over trees of finite depth comes to its end after `n` steps, and on the way
/// asks for an upload if and only if a directory that it visits has a file on the host
/// which the device lacks or holds with another size. It asks for a removal if and
/// only if removals were asked for and a directory that it visits or sweeps has a file
/// on the device which the host lacks.
pub proof fn law_run_makes_exactly_the_changes_that_are_due(
    w: World,
    options: SyncOptions,
    host_dir: Seq<char>,
    device_dir: Seq<char>,
    depth: nat,
) -> (n: nat)
    requires
        nested_within(
            w,
            options.delete,
            sync_run::start(host_dir, device_dir).pending,
            depth,
        ),
    ensures
        ({
            let (end, all) = run_for(w, options, sync_run::start(host_dir, device_dir), n);
            &&& end.pending.len() == 0
            &&& end.current == CurrentView::Idle
            &&& forall|host_path: Seq<char>, device_path: Seq<char>, perform: bool| #[trigger]
                all.contains(
                    Emission::Act(ActionView::Upload { host_path, device_path, perform }),
                ) <==> perform == !options.dry_run && upload_is_due(
                    w,
                    options.delete,
                    host_dir,
                    device_dir,
                    depth,
                    host_path,
                    device_path,
                )
            &&& forall|device_path: Seq<char>, perform: bool| #[trigger]
                all.contains(Emission::Act(ActionView::Remove { device_path, perform })) <==> perform
                    == !options.dry_run && removal_is_due(
                    w,
                    options.delete,
                    host_dir,
                    device_dir,
                    depth,
                    device_path,
                )
        }),
{
    let tasks = sync_run::start(host_dir, device_dir).pending;
    let tree = tree_emissions(w, options, tasks, depth);
    let n = law_run_covers_tree(w, options, host_dir, device_dir, depth);
    let all = run_for(w, options, sync_run::start(host_dir, device_dir), n).1;
    let done = Emission::Act(ActionView::Done);
    assert(all =~= tree + seq![done]);
    assert forall|host_path: Seq<char>, device_path: Seq<char>, perform: bool| #[trigger]
        all.contains(Emission::Act(ActionView::Upload { host_path, device_path, perform })) <==> (
        perform == !options.dry_run && upload_is_due(
            w,
            options.delete,
            host_dir,
            device_dir,
            depth,
            host_path,
            device_path,
        )) by {
        let action = ActionView::Upload { host_path, device_path, perform };
        lemma_seq_concat_contains_all_elements(tree, seq![done], Emission::Act(action));
        lemma_uploads_are_due(
            w,
            options,
            host_dir,
            device_dir,
            depth,
            host_path,
            device_path,
            perform,
        );
    }
    assert forall|device_path: Seq<char>, perform: bool| #[trigger]
        all.contains(Emission::Act(ActionView::Remove { device_path, perform })) <==> (perform
            == !options.dry_run && removal_is_due(
            w,
            options.delete,
            host_dir,
            device_dir,
            depth,
            device_path,
        )) by {
        let action = ActionView::Remove { device_path, perform };
        lemma_seq_concat_contains_all_elements(tree, seq![done], Emission::Act(action));
        lemma_removals_are_due(w, options, host_dir, device_dir, depth, device_path, perform);
    }
    n
}

/// Whether a task is about the entry `name` of a device directory.
pub open spec fn task_of_entry(device_dir: Seq<char>, task: TaskView, name: Seq<char>) -> bool {
    match task {
        TaskView::Enter(e) => e.device_dir == sync::child_path(device_dir, name),
        TaskView::Upload(j) => j.device_path == sync::child_path(device_dir, name),
        TaskView::Sweep(j) => j.device_dir == sync::child_path(device_dir, name),
        TaskView::Remove(j) => j.device_path == sync::child_path(device_dir, name),
    }
}

/// Each task of a directory is about one of its entries.
pub proof fn lemma_dir_task(
    d: DirView,
    delete: bool,
    host: Seq<(Seq<char>, FileAttributes)>,
    device: Seq<(Seq<char>, FileAttributes)>,
    task: TaskView,
)
    requires
        sync::dir_tasks(d, delete, host, device).contains(task),
    ensures
        exists|name: Seq<char>| #[trigger] task_of_entry(d.device_dir, task, name),
{
    let f = sync::upload_of(d, name_map::map_of(device));
    let g = sync::enter_of(d);
    let k = sync::sweep_of(d.device_dir, d.trail, name_map::map_of(host));
    let h = sync::remove_of(d.device_dir, d.trail, name_map::map_of(host));
    let a = sync::uploads(d, host, device);
    let b = sync::visits(d, host);
    let c = sync::sweeps(d, delete, host, device);
    let e = sync::removals(d, delete, host, device);
    lemma_seq_concat_contains_all_elements(a, b, task);
    lemma_seq_concat_contains_all_elements(a + b, c, task);
    lemma_seq_concat_contains_all_elements(a + b + c, e, task);
    lemma_in_filter_map(host, f, task);
    lemma_in_filter_map(host, g, task);
    lemma_in_filter_map(device, k, task);
    lemma_in_filter_map(device, h, task);
    let on_host = a.contains(task) || b.contains(task);
    let i = if on_host {
        choose|i: int|
            0 <= i < host.len() && (f(#[trigger] host[i]) == Some(task) || g(host[i]) == Some(task))
    } else {
        choose|i: int|
            0 <= i < device.len() && (k(#[trigger] device[i]) == Some(task) || h(device[i]) == Some(
                task,
            ))
    };
    let name = if on_host {
        host[i].0
    } else {
        device[i].0
    };
    assert(task_of_entry(d.device_dir, task, name));
}

/// Each task of a directory that is swept is about one of its entries.
pub proof fn lemma_sweep_task(
    sweep: SweepView,
    device: Seq<(Seq<char>, FileAttributes)>,
    task: TaskView,
)
    requires
        sync::sweep_tasks(sweep, device).contains(task),
    ensures
        exists|name: Seq<char>| #[trigger] task_of_entry(sweep.device_dir, task, name),
{
    let k = sync::sweep_of(sweep.device_dir, sweep.trail, Map::empty());
    let h = sync::remove_of(sweep.device_dir, sweep.trail, Map::empty());
    lemma_seq_concat_contains_all_elements(device.filter_map(k), device.filter_map(h), task);
    lemma_in_filter_map(device, k, task);
    lemma_in_filter_map(device, h, task);
    let i = choose|i: int|
        0 <= i < device.len() && (k(#[trigger] device[i]) == Some(task) || h(device[i]) == Some(
            task,
        ));
    assert(task_of_entry(sweep.device_dir, task, device[i].0));
}

} // verus!
