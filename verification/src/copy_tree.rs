//! Copying a directory with all that is below it.
//!
//! A run hands out what to copy next, entry by entry. Names are numbered by the
//! caller, so that a name need not be text; a path is the sequence of the numbers of
//! its names, from the directory that is copied downwards.

use vstd::prelude::*;
use vstd::seq_lib::*;

verus! {

/// An entry to copy, by its path.
#[derive(Debug)]
pub enum CopyTask {
    /// A directory to create at the target, and to list at the source.
    Dir(Vec<usize>),
    /// A file to copy.
    File(Vec<usize>),
}

/// An entry of a directory: the number of its name, and whether it is a directory.
#[derive(Debug, Clone, Copy, PartialEq, Eq, Structural)]
pub struct CopyEntry {
    pub name: usize,
    pub is_dir: bool,
}

/// A run that copies a directory: the pending entries, the next one last, and the
/// directory whose listing it waits for.
#[derive(Debug)]
pub struct CopyRun {
    pub pending: Vec<CopyTask>,
    pub current: Option<Vec<usize>>,
}

/// The contents of a [`CopyTask`].
pub enum CopyView {
    Dir(Seq<usize>),
    File(Seq<usize>),
}

/// The contents of a [`CopyRun`].
pub struct CopyRunView {
    pub pending: Seq<CopyView>,
    pub current: Option<Seq<usize>>,
}

impl View for CopyTask {
    type V = CopyView;

    open spec fn view(&self) -> CopyView {
        match self {
            CopyTask::Dir(path) => CopyView::Dir(path@),
            CopyTask::File(path) => CopyView::File(path@),
        }
    }
}

impl View for CopyRun {
    type V = CopyRunView;

    open spec fn view(&self) -> CopyRunView {
        CopyRunView {
            pending: copy_views(self.pending@),
            current: match self.current {
                Some(path) => Some(path@),
                None => None,
            },
        }
    }
}

/// The contents of each task.
pub open spec fn copy_views(v: Seq<CopyTask>) -> Seq<CopyView> {
    v.map_values(|t: CopyTask| t@)
}

/// The task for an entry of the directory at `path`.
pub open spec fn task_of(path: Seq<usize>, entry: CopyEntry) -> CopyView {
    if entry.is_dir {
        CopyView::Dir(path.push(entry.name))
    } else {
        CopyView::File(path.push(entry.name))
    }
}

/// The tasks for the entries of the directory at `path`, in order.
pub open spec fn tasks_below(path: Seq<usize>, entries: Seq<CopyEntry>) -> Seq<CopyView> {
    entries.map_values(|e: CopyEntry| task_of(path, e))
}

/// The pending tasks once the directory that the run waits for is listed.
pub open spec fn pending_after(run: CopyRunView, entries: Seq<CopyEntry>) -> Seq<CopyView> {
    match run.current {
        Some(path) => run.pending + tasks_below(path, entries).reverse(),
        None => run.pending,
    }
}

/// The run after its next task was handed out, and that task, if there is one.
pub open spec fn taken(pending: Seq<CopyView>) -> (CopyRunView, Option<CopyView>) {
    if pending.len() == 0 {
        (CopyRunView { pending, current: None }, None)
    } else {
        (
            CopyRunView {
                pending: pending.drop_last(),
                current: match pending.last() {
                    CopyView::Dir(path) => Some(path),
                    CopyView::File(path) => None,
                },
            },
            Some(pending.last()),
        )
    }
}

/// The state in which a run begins.
pub open spec fn start() -> CopyRunView {
    CopyRunView { pending: seq![CopyView::Dir(Seq::empty())], current: None }
}

/// A copy of a path.
fn copy_path(path: &Vec<usize>) -> (r: Vec<usize>)
    ensures
        r@ == path@,
{
    let mut r: Vec<usize> = Vec::new();
    let mut i: usize = 0;
    while i < path.len()
        invariant
            i <= path@.len(),
            r@ == path@.take(i as int),
        decreases path@.len() - i,
    {
        r.push(path[i]);
        i = i + 1;
    }
    r
}

impl CopyRun {
    /// A run that copies a directory.
    pub fn new() -> (r: CopyRun)
        ensures
            r@ == start(),
    {
        let mut pending: Vec<CopyTask> = Vec::new();
        let path: Vec<usize> = Vec::new();
        pending.push(CopyTask::Dir(path));
        let r = CopyRun { pending, current: None };
        assert(path@ =~= Seq::<usize>::empty());
        assert(r@.pending =~= start().pending);
        r
    }

    /// Hands out the next task, if one is left. Where the last task was a directory,
    /// `entries` is its listing.
    pub fn step(&mut self, entries: &Vec<CopyEntry>) -> (r: Option<CopyTask>)
        ensures
            (
                final(self)@,
                match r {
                    Some(task) => Some(task@),
                    None => None,
                },
            ) == taken(pending_after(old(self)@, entries@)),
    {
        let ghost base = self@.pending;
        let ghost all = pending_after(self@, entries@);
        if let Some(path) = &self.current {
            let ghost below = tasks_below(path@, entries@);
            let mut i: usize = entries.len();
            let mut tasks: Vec<CopyTask> = Vec::new();
            assert(copy_views(tasks@) =~= below.skip(i as int).reverse());
            while i > 0
                invariant
                    i <= entries@.len(),
                    below == tasks_below(path@, entries@),
                    copy_views(tasks@) == below.skip(i as int).reverse(),
                decreases i,
            {
                let ghost before = copy_views(tasks@);
                let mut below_path = copy_path(path);
                below_path.push(entries[i - 1].name);
                let task = if entries[i - 1].is_dir {
                    CopyTask::Dir(below_path)
                } else {
                    CopyTask::File(below_path)
                };
                tasks.push(task);
                assert(copy_views(tasks@) =~= before.push(task@));
                assert(below[i - 1] == task@);
                assert(below.skip(i - 1).reverse() =~= below.skip(i as int).reverse().push(task@));
                i = i - 1;
            }
            assert(below.skip(0) =~= below);
            let ghost added = copy_views(tasks@);
            self.pending.append(&mut tasks);
            assert(copy_views(self.pending@) =~= base + added);
        }
        assert(copy_views(self.pending@) == all);
        match self.pending.pop() {
            Some(task) => {
                assert(copy_views(self.pending@) =~= all.drop_last());
                assert(all.last() == task@);
                self.current = match &task {
                    CopyTask::Dir(path) => Some(copy_path(path)),
                    CopyTask::File(path) => None,
                };
                Some(task)
            },
            None => {
                self.current = None;
                assert(copy_views(self.pending@) =~= all);
                None
            },
        }
    }
}

/// The listings of the directories at the source, by path.
pub type Listings = spec_fn(Seq<usize>) -> Seq<CopyEntry>;

/// The tasks for the directory at `path` as the source lists it.
pub open spec fn listed(w: Listings, path: Seq<usize>) -> Seq<CopyView> {
    tasks_below(path, w(path))
}

/// What the next step of a run answers to, given the listings.
pub open spec fn full(w: Listings, run: CopyRunView) -> Seq<CopyView> {
    pending_after(
        run,
        match run.current {
            Some(path) => w(path),
            None => Seq::empty(),
        },
    )
}

/// The state after `n` steps, and the tasks that these steps handed out.
pub open spec fn run_for(w: Listings, run: CopyRunView, n: nat) -> (CopyRunView, Seq<CopyView>)
    decreases n,
{
    if n == 0 {
        (run, Seq::empty())
    } else {
        let (after, task) = taken(full(w, run));
        let (end, rest) = run_for(w, after, (n - 1) as nat);
        (
            end,
            match task {
                Some(t) => seq![t] + rest,
                None => rest,
            },
        )
    }
}

/// Whether directories are nested no deeper than `depth` below the tasks.
pub open spec fn nested_within(w: Listings, tasks: Seq<CopyView>, depth: nat) -> bool
    decreases depth, tasks.len(),
{
    if tasks.len() == 0 {
        true
    } else {
        &&& match tasks.first() {
            CopyView::Dir(path) => depth > 0 && nested_within(
                w,
                listed(w, path),
                (depth - 1) as nat,
            ),
            CopyView::File(path) => true,
        }
        &&& nested_within(w, tasks.drop_first(), depth)
    }
}

/// The tasks, each directory followed by all that is below it.
pub open spec fn all_below(w: Listings, tasks: Seq<CopyView>, depth: nat) -> Seq<CopyView>
    decreases depth, tasks.len(),
{
    if tasks.len() == 0 {
        Seq::empty()
    } else {
        seq![tasks.first()] + (match tasks.first() {
            CopyView::Dir(path) => if depth == 0 {
                Seq::empty()
            } else {
                all_below(w, listed(w, path), (depth - 1) as nat)
            },
            CopyView::File(path) => Seq::empty(),
        }) + all_below(w, tasks.drop_first(), depth)
    }
}

/// A greater depth changes nothing where the directories are nested within a lesser.
proof fn lemma_deeper(w: Listings, tasks: Seq<CopyView>, depth: nat)
    requires
        nested_within(w, tasks, depth),
    ensures
        nested_within(w, tasks, depth + 1),
        all_below(w, tasks, depth + 1) == all_below(w, tasks, depth),
    decreases depth, tasks.len(),
{
    if tasks.len() > 0 {
        if let CopyView::Dir(path) = tasks.first() {
            lemma_deeper(w, listed(w, path), (depth - 1) as nat);
        }
        lemma_deeper(w, tasks.drop_first(), depth);
    }
}

/// Tasks that follow one another are done one after the other.
proof fn lemma_tasks_append(w: Listings, a: Seq<CopyView>, b: Seq<CopyView>, depth: nat)
    requires
        nested_within(w, a, depth),
        nested_within(w, b, depth),
    ensures
        nested_within(w, a + b, depth),
        all_below(w, a + b, depth) == all_below(w, a, depth) + all_below(w, b, depth),
    decreases a.len(),
{
    if a.len() == 0 {
        assert(a + b =~= b);
        assert(all_below(w, a + b, depth) =~= all_below(w, a, depth) + all_below(w, b, depth));
    } else {
        lemma_tasks_append(w, a.drop_first(), b, depth);
        assert((a + b).drop_first() =~= a.drop_first() + b);
        assert((a + b).first() == a.first());
        assert(all_below(w, a + b, depth) =~= all_below(w, a, depth) + all_below(w, b, depth));
    }
}

/// A run hands out all that is pending, each directory followed by what is below it.
proof fn lemma_run(w: Listings, run: CopyRunView, depth: nat) -> (n: nat)
    requires
        nested_within(w, full(w, run).reverse(), depth),
    ensures
        ({
            let (end, tasks) = run_for(w, run, n);
            &&& end.pending.len() == 0
            &&& end.current is None
            &&& tasks == all_below(w, full(w, run).reverse(), depth)
        }),
    decreases all_below(w, full(w, run).reverse(), depth).len(),
{
    let pending = full(w, run);
    let order = pending.reverse();
    let (after, task) = taken(pending);
    if pending.len() == 0 {
        assert(run_for(w, after, 0) == (after, Seq::<CopyView>::empty()));
        assert(run_for(w, run, 1).1 =~= all_below(w, order, depth));
        1
    } else {
        let rest = pending.drop_last();
        assert(order.first() == pending.last());
        assert(order.drop_first() =~= rest.reverse());
        match pending.last() {
            CopyView::Dir(path) => {
                let plan = listed(w, path);
                assert(full(w, after) == rest + plan.reverse());
                assert(full(w, after).reverse() =~= plan + rest.reverse());
                lemma_deeper(w, plan, (depth - 1) as nat);
                lemma_tasks_append(w, plan, rest.reverse(), depth);
                assert(all_below(w, order, depth) =~= seq![pending.last()] + all_below(
                    w,
                    full(w, after).reverse(),
                    depth,
                ));
            },
            CopyView::File(path) => {
                assert(full(w, after) == rest);
                assert(all_below(w, order, depth) =~= seq![pending.last()] + all_below(
                    w,
                    full(w, after).reverse(),
                    depth,
                ));
            },
        }
        let m = lemma_run(w, after, depth);
        assert(run_for(w, run, m + 1).1 == seq![pending.last()] + run_for(w, after, m).1);
        m + 1
    }
}

/// A run over a tree of finite depth comes to its end after `n` steps, and hands out
/// the directory itself and then exactly what is below it, each directory before what
/// it holds.
pub proof fn law_copy_covers_tree(w: Listings, depth: nat) -> (n: nat)
    requires
        nested_within(w, start().pending, depth),
    ensures
        ({
            let (end, tasks) = run_for(w, start(), n);
            &&& end.pending.len() == 0
            &&& end.current is None
            &&& tasks == all_below(w, start().pending, depth)
        }),
{
    assert(full(w, start()).reverse() =~= start().pending);
    lemma_run(w, start(), depth)
}

/// Whether there is an entry at a path below the directory at `base`: each name of the
/// path is in the listing of the directory before it, and all but the last are those
/// of directories.
pub open spec fn exists_below(w: Listings, base: Seq<usize>, path: Seq<usize>, is_dir: bool) -> bool
    decreases path.len(),
{
    if path.len() == 0 {
        false
    } else if path.len() == 1 {
        w(base).contains(CopyEntry { name: path[0], is_dir })
    } else {
        w(base).contains(CopyEntry { name: path[0], is_dir: true }) && exists_below(
            w,
            base.push(path[0]),
            path.drop_first(),
            is_dir,
        )
    }
}

/// What is among the tasks or below one of them is handed out, and nothing else.
proof fn lemma_all_below_member(w: Listings, tasks: Seq<CopyView>, depth: nat, task: CopyView)
    requires
        nested_within(w, tasks, depth),
    ensures
        all_below(w, tasks, depth).contains(task) <==> (tasks.contains(task) || exists|
            path: Seq<usize>,
        |
            #[trigger] tasks.contains(CopyView::Dir(path)) && depth > 0 && all_below(
                w,
                listed(w, path),
                (depth - 1) as nat,
            ).contains(task)),
    decreases tasks.len(),
{
    let all = all_below(w, tasks, depth);
    if tasks.len() > 0 {
        let rest = tasks.drop_first();
        let head = seq![tasks.first()];
        let tail = all_below(w, rest, depth);
        lemma_all_below_member(w, rest, depth, task);
        assert(tasks =~= head + rest);
        assert(head.contains(tasks.first())) by {
            assert(head[0] == tasks.first());
        }
        assert forall|t: CopyView| tasks.contains(t) <==> (t == tasks.first() || rest.contains(t)) by {
            lemma_seq_concat_contains_all_elements(head, rest, t);
        }
        match tasks.first() {
            CopyView::Dir(path) => {
                let mid = all_below(w, listed(w, path), (depth - 1) as nat);
                lemma_seq_concat_contains_all_elements(head + mid, tail, task);
                lemma_seq_concat_contains_all_elements(head, mid, task);
                assert(tasks.contains(CopyView::Dir(path)));
            },
            CopyView::File(path) => {
                let mid = Seq::<CopyView>::empty();
                lemma_seq_concat_contains_all_elements(head + mid, tail, task);
                lemma_seq_concat_contains_all_elements(head, mid, task);
            },
        }
    }
}

/// What the directory at `base` leads to, level by level.
proof fn lemma_reaches(w: Listings, base: Seq<usize>, depth: nat, path: Seq<usize>, is_dir: bool)
    requires
        nested_within(w, listed(w, base), depth),
    ensures
        all_below(w, listed(w, base), depth).contains(
            if is_dir {
                CopyView::Dir(base + path)
            } else {
                CopyView::File(base + path)
            },
        ) <==> exists_below(w, base, path, is_dir),
    decreases depth,
{
    let tasks = listed(w, base);
    let goal = if is_dir {
        CopyView::Dir(base + path)
    } else {
        CopyView::File(base + path)
    };
    lemma_all_below_member(w, tasks, depth, goal);
    lemma_listed(w, base);
    if tasks.contains(goal) {
        assert(path.len() == 1);
        assert(base.push(path[0]) =~= base + path);
    }
    if path.len() == 1 {
        assert(base.push(path[0]) =~= base + path);
    }
    assert forall|p: Seq<usize>| #[trigger]
        tasks.contains(CopyView::Dir(p)) && depth > 0 && all_below(
            w,
            listed(w, p),
            (depth - 1) as nat,
        ).contains(goal) implies exists_below(w, base, path, is_dir) by {
        lemma_nested_at(w, tasks, depth, p);
        lemma_longer(w, p, (depth - 1) as nat, goal);
        assert(p.is_prefix_of(base + path) && p.len() < base.len() + path.len());
        assert(p[base.len() as int] == (base + path)[base.len() as int]);
        assert(p =~= base.push(path[0]));
        assert(p + path.drop_first() =~= base + path);
        lemma_reaches(w, p, (depth - 1) as nat, path.drop_first(), is_dir);
    }
    if exists_below(w, base, path, is_dir) && path.len() > 1 {
        let p = base.push(path[0]);
        assert(tasks.contains(CopyView::Dir(p)));
        lemma_nested_at(w, tasks, depth, p);
        assert(p + path.drop_first() =~= base + path);
        lemma_reaches(w, p, (depth - 1) as nat, path.drop_first(), is_dir);
    }
}

/// The tasks for a directory are those for its entries.
proof fn lemma_listed(w: Listings, base: Seq<usize>)
    ensures
        forall|p: Seq<usize>| #[trigger]
            listed(w, base).contains(CopyView::Dir(p)) ==> p.len() == base.len() + 1 && p.drop_last()
                == base && w(base).contains(CopyEntry { name: p.last(), is_dir: true }),
        forall|p: Seq<usize>| #[trigger]
            listed(w, base).contains(CopyView::File(p)) ==> p.len() == base.len() + 1
                && p.drop_last() == base && w(base).contains(
                CopyEntry { name: p.last(), is_dir: false },
            ),
        forall|name: usize| #[trigger]
            w(base).contains(CopyEntry { name, is_dir: true }) ==> listed(w, base).contains(
                CopyView::Dir(base.push(name)),
            ),
        forall|name: usize| #[trigger]
            w(base).contains(CopyEntry { name, is_dir: false }) ==> listed(w, base).contains(
                CopyView::File(base.push(name)),
            ),
{
    let entries = w(base);
    let tasks = listed(w, base);
    assert forall|p: Seq<usize>| #[trigger] tasks.contains(CopyView::Dir(p)) implies p.len()
        == base.len() + 1 && p.drop_last() == base && entries.contains(
        CopyEntry { name: p.last(), is_dir: true },
    ) by {
        let i = choose|i: int| 0 <= i < tasks.len() && tasks[i] == CopyView::Dir(p);
        assert(tasks[i] == task_of(base, entries[i]));
        assert(p.drop_last() =~= base);
        assert(entries[i] == CopyEntry { name: p.last(), is_dir: true });
    }
    assert forall|p: Seq<usize>| #[trigger] tasks.contains(CopyView::File(p)) implies p.len()
        == base.len() + 1 && p.drop_last() == base && entries.contains(
        CopyEntry { name: p.last(), is_dir: false },
    ) by {
        let i = choose|i: int| 0 <= i < tasks.len() && tasks[i] == CopyView::File(p);
        assert(tasks[i] == task_of(base, entries[i]));
        assert(p.drop_last() =~= base);
        assert(entries[i] == CopyEntry { name: p.last(), is_dir: false });
    }
    assert forall|name: usize| #[trigger]
        entries.contains(CopyEntry { name, is_dir: true }) implies tasks.contains(
        CopyView::Dir(base.push(name)),
    ) by {
        let i = choose|i: int|
            0 <= i < entries.len() && entries[i] == (CopyEntry { name, is_dir: true });
        assert(tasks[i] == CopyView::Dir(base.push(name)));
    }
    assert forall|name: usize| #[trigger]
        entries.contains(CopyEntry { name, is_dir: false }) implies tasks.contains(
        CopyView::File(base.push(name)),
    ) by {
        let i = choose|i: int|
            0 <= i < entries.len() && entries[i] == (CopyEntry { name, is_dir: false });
        assert(tasks[i] == CopyView::File(base.push(name)));
    }
}

/// What is below a directory among the tasks is nested one level less.
proof fn lemma_nested_at(w: Listings, tasks: Seq<CopyView>, depth: nat, path: Seq<usize>)
    requires
        nested_within(w, tasks, depth),
        tasks.contains(CopyView::Dir(path)),
    ensures
        depth > 0,
        nested_within(w, listed(w, path), (depth - 1) as nat),
    decreases tasks.len(),
{
    let i = choose|i: int| 0 <= i < tasks.len() && tasks[i] == CopyView::Dir(path);
    if i > 0 {
        assert(tasks.drop_first()[i - 1] == CopyView::Dir(path));
        lemma_nested_at(w, tasks.drop_first(), depth, path);
    }
}

/// The path of a task.
spec fn path_of(task: CopyView) -> Seq<usize> {
    match task {
        CopyView::Dir(path) => path,
        CopyView::File(path) => path,
    }
}

/// What is below a directory has a longer path that begins with the directory's.
proof fn lemma_longer(w: Listings, base: Seq<usize>, depth: nat, task: CopyView)
    requires
        nested_within(w, listed(w, base), depth),
        all_below(w, listed(w, base), depth).contains(task),
    ensures
        base.is_prefix_of(path_of(task)),
        base.len() < path_of(task).len(),
    decreases depth,
{
    let tasks = listed(w, base);
    lemma_all_below_member(w, tasks, depth, task);
    lemma_listed(w, base);
    if tasks.contains(task) {
        assert(tasks.contains(CopyView::Dir(path_of(task))) || tasks.contains(
            CopyView::File(path_of(task)),
        ));
        assert(path_of(task).drop_last() == base);
        assert(path_of(task).subrange(0, base.len() as int) =~= base);
    } else {
        let p = choose|p: Seq<usize>| #[trigger]
            tasks.contains(CopyView::Dir(p)) && depth > 0 && all_below(
                w,
                listed(w, p),
                (depth - 1) as nat,
            ).contains(task);
        lemma_nested_at(w, tasks, depth, p);
        lemma_longer(w, p, (depth - 1) as nat, task);
        let q = path_of(task);
        assert(q.subrange(0, p.len() as int) == p);
        assert(p.drop_last() == base);
        assert(q.subrange(0, base.len() as int) =~= q.subrange(0, p.len() as int).drop_last());
    }
}

/// A run copies a file, or creates a directory, at a path below the top if and only if
/// the source has one there.
pub proof fn law_copies_exactly_what_exists(
    w: Listings,
    depth: nat,
    path: Seq<usize>,
    is_dir: bool,
)
    requires
        nested_within(w, start().pending, depth),
        path.len() > 0,
    ensures
        all_below(w, start().pending, depth).contains(
            if is_dir {
                CopyView::Dir(path)
            } else {
                CopyView::File(path)
            },
        ) <==> exists_below(w, Seq::empty(), path, is_dir),
{
    let top = Seq::<usize>::empty();
    let tasks = start().pending;
    let goal = if is_dir {
        CopyView::Dir(path)
    } else {
        CopyView::File(path)
    };
    assert(tasks[0] == CopyView::Dir(top));
    assert(tasks.contains(CopyView::Dir(top)));
    lemma_nested_at(w, tasks, depth, top);
    lemma_all_below_member(w, tasks, depth, goal);
    lemma_reaches(w, top, (depth - 1) as nat, path, is_dir);
    assert(top + path =~= path);
    assert forall|p: Seq<usize>| #[trigger] tasks.contains(CopyView::Dir(p)) implies p == top by {
        let i = choose|i: int| 0 <= i < tasks.len() && tasks[i] == CopyView::Dir(p);
        assert(i == 0);
    }
    assert(!tasks.contains(goal));
}

} // verus!
