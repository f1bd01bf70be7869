//! What each step of copying a directory hands out, for every state and listing.

use vstd::prelude::*;

use crate::copy_tree;
use crate::copy_tree::{CopyEntry, CopyRun, CopyTask};

verus! {

/// Whether a task copies an entry of the directory at a path: a directory as a directory and
/// a file as a file, at the path with the entry's name behind it.
pub open spec fn copies(task: CopyTask, path: Seq<usize>, entry: CopyEntry) -> bool {
    match task {
        CopyTask::Dir(p) => entry.is_dir && p@ == path.push(entry.name),
        CopyTask::File(p) => !entry.is_dir && p@ == path.push(entry.name),
    }
}

/// Whether a task is the same as another.
pub open spec fn same_task(a: CopyTask, b: CopyTask) -> bool {
    match a {
        CopyTask::Dir(p) => b matches CopyTask::Dir(q) && p@ == q@,
        CopyTask::File(p) => b matches CopyTask::File(q) && p@ == q@,
    }
}

/// Whether a step hands out what comes next. Where a directory was handed out last, that is
/// what is in it, in the order of its listing, before all that is pending; otherwise it is
/// the task that is pending last; and nothing once there is none.
pub open spec fn hands_out(
    before: CopyRun,
    entries: Seq<CopyEntry>,
    after: CopyRun,
    r: Option<CopyTask>,
) -> bool {
    let old_pending = before.pending@;
    let pending = after.pending@;
    &&& if before.current is Some && entries.len() > 0 {
        let path = before.current->0@;
        &&& r is Some && copies(r->0, path, entries[0])
        &&& pending.len() == old_pending.len() + entries.len() - 1
        &&& forall|i: int|
            0 <= i < old_pending.len() ==> same_task(#[trigger] pending[i], old_pending[i])
        &&& forall|i: int|
            0 < i < entries.len() ==> copies(
                pending[pending.len() - i],
                path,
                #[trigger] entries[i],
            )
    } else if old_pending.len() > 0 {
        &&& r is Some && same_task(r->0, old_pending.last())
        &&& pending.len() == old_pending.len() - 1
        &&& forall|i: int|
            0 <= i < pending.len() ==> same_task(#[trigger] pending[i], old_pending[i])
    } else {
        r is None && pending.len() == 0
    }
    &&& after.current is Some <==> r is Some && r->0 is Dir
    &&& r matches Some(CopyTask::Dir(p)) ==> after.current->0@ == p@
}

proof fn lemma_views(tasks: Seq<CopyTask>)
    ensures
        copy_tree::copy_views(tasks).len() == tasks.len(),
        forall|i: int|
            0 <= i < tasks.len() ==> copy_tree::copy_views(tasks)[i] == (#[trigger] tasks[i])@,
{
}

/// Copying begins with the directory itself, and nothing else.
pub proof fn law_copying_begins_at_the_top(r: CopyRun)
    requires
        call_ensures(CopyRun::new, (), r),
    ensures
        r.pending@.len() == 1,
        r.pending@[0] matches CopyTask::Dir(p) && p@.len() == 0,
        r.current is None,
{
    lemma_views(r.pending@);
    assert(copy_tree::copy_views(r.pending@)[0] == r.pending@[0]@);
}

/// Each step of copying hands out what comes next.
pub proof fn law_next_entry_is_handed_out()
    ensures
        forall|run: &mut CopyRun, entries: &Vec<CopyEntry>, r: Option<CopyTask>| #[trigger]
            call_ensures(CopyRun::step, (run, entries), r) ==> hands_out(
                *run,
                entries@,
                *final(run),
                r,
            ),
{
    assert forall|run: &mut CopyRun, entries: &Vec<CopyEntry>, r: Option<CopyTask>| #[trigger]
        call_ensures(CopyRun::step, (run, entries), r) implies hands_out(
        *run,
        entries@,
        *final(run),
        r,
    ) by {
        let before = *run;
        let after = *final(run);
        let all = copy_tree::pending_after(before@, entries@);
        lemma_views(before.pending@);
        lemma_views(after.pending@);
        assert((after@, match r {
            Some(task) => Some(task@),
            None => None,
        }) == copy_tree::taken(all));
        assert(after@.pending == copy_tree::copy_views(after.pending@));
        assert forall|i: int| 0 <= i < after.pending@.len() implies (#[trigger] after.pending@[i])@
            == all[i] by {
            assert(after@.pending[i] == after.pending@[i]@);
        }
        if before.current is Some && entries@.len() > 0 {
            let path = before.current->0@;
            let tasks = copy_tree::tasks_below(path, entries@);
            assert(all.last() == tasks[0]);
            assert forall|i: int| 0 < i < entries@.len() implies copies(
                after.pending@[after.pending@.len() - i],
                path,
                #[trigger] entries@[i],
            ) by {
                assert(tasks.reverse()[tasks.len() - 1 - i] == tasks[i]);
                assert(all[before.pending@.len() + (tasks.len() - 1 - i)] == tasks[i]);
            }
        } else {
            assert(all =~= before@.pending);
        }
    }
}

} // verus!
