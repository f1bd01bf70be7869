//! What a synchronisation plans for a directory, and what each step of a run asks for and
//! shows, for every input.

use vstd::prelude::*;
use vstd::seq_lib::*;

use crate::name_map::NameMap;
use crate::sync;
use crate::sync::{
    child, plan_dir, plan_sweep, DirView, FileAttributes, Reason, Reporting, SweepJob, SyncDir,
    SyncOptions, SyncTask, TaskView, UploadJob,
};
use crate::sync_run;
use crate::sync_run::{
    reason_text, upload_text, Current, EventView, FailurePoint, SyncAction, SyncEvent, SyncRun,
    SyncStep,
};
use crate::sync_tree;
use crate::sync_tree::World;
use crate::text;
use crate::text::decimal_of;

verus! {

/// The path of an entry is that of its directory, a slash, and its name.
pub open spec fn below(dir: Seq<char>, name: Seq<char>) -> Seq<char> {
    dir.push('/') + name
}

proof fn lemma_below(dir: Seq<char>, name: Seq<char>)
    ensures
        sync::child_path(dir, name) == below(dir, name),
{
    reveal_strlit("/");
    assert(sync::child_path(dir, name) =~= below(dir, name));
}

/// The path of an entry is that of its directory, a slash, and its name.
pub proof fn law_entry_is_below_its_directory(dir: &str, name: &str, r: String)
    requires
        call_ensures(child, (dir, name), r),
    ensures
        r@ == below(dir@, name@),
{
    lemma_below(dir@, name@);
}

/// Whether a task uploads an entry of a directory for a reason: from below the host
/// directory to below the device directory.
pub open spec fn uploads_entry(
    task: SyncTask,
    dir: SyncDir,
    name: Seq<char>,
    reason: Reason,
) -> bool {
    &&& task matches SyncTask::Upload(j)
    &&& j.host_path@ == below(dir.host_dir@, name)
    &&& j.device_path@ == below(dir.device_dir@, name)
    &&& j.reason == reason
    &&& text::views(j.trail@) == text::views(dir.trail@)
}

/// Whether a task visits an entry of a directory, on both sides.
pub open spec fn enters_entry(task: SyncTask, dir: SyncDir, name: Seq<char>) -> bool {
    &&& task matches SyncTask::Enter(d)
    &&& d.host_dir@ == below(dir.host_dir@, name)
    &&& d.device_dir@ == below(dir.device_dir@, name)
    &&& text::views(d.trail@) == text::views(dir.trail@).push(dir.host_dir@)
}

/// Whether a task sweeps an entry of a device directory.
pub open spec fn sweeps_entry(
    task: SyncTask,
    device_dir: Seq<char>,
    trail: Seq<Seq<char>>,
    name: Seq<char>,
) -> bool {
    &&& task matches SyncTask::Sweep(j)
    &&& j.device_dir@ == below(device_dir, name)
    &&& text::views(j.trail@) == trail
}

/// Whether a task removes an entry of a device directory.
pub open spec fn removes_entry(
    task: SyncTask,
    device_dir: Seq<char>,
    trail: Seq<Seq<char>>,
    name: Seq<char>,
) -> bool {
    &&& task matches SyncTask::Remove(j)
    &&& j.device_path@ == below(device_dir, name)
    &&& text::views(j.trail@) == trail
}

/// Whether a task is what an entry of the host's listing calls for: a file that the device
/// lacks or holds with another size is uploaded, a directory is visited.
pub open spec fn answers_host_entry(
    task: SyncTask,
    dir: SyncDir,
    entry: (Seq<char>, FileAttributes),
    device: Map<Seq<char>, FileAttributes>,
) -> bool {
    let name = entry.0;
    if entry.1.is_dir {
        enters_entry(task, dir, name)
    } else if !device.contains_key(name) {
        uploads_entry(task, dir, name, Reason::Missing)
    } else {
        device[name].size != entry.1.size && uploads_entry(task, dir, name, Reason::SizesDiffer)
    }
}

/// Whether a task is what an entry of the device's listing calls for: a file whose name the
/// host lacks is removed, a directory that is none of the host's is swept.
pub open spec fn answers_device_entry(
    task: SyncTask,
    device_dir: Seq<char>,
    trail: Seq<Seq<char>>,
    entry: (Seq<char>, FileAttributes),
    host: Map<Seq<char>, FileAttributes>,
) -> bool {
    let name = entry.0;
    if entry.1.is_dir {
        !(host.contains_key(name) && host[name].is_dir) && sweeps_entry(
            task,
            device_dir,
            trail,
            name,
        )
    } else {
        !host.contains_key(name) && removes_entry(task, device_dir, trail, name)
    }
}

/// The turn in which a kind of task is done: uploads, visits, sweeps, removals.
pub open spec fn turn(task: SyncTask) -> int {
    match task {
        SyncTask::Upload(_) => 0,
        SyncTask::Enter(_) => 1,
        SyncTask::Sweep(_) => 2,
        SyncTask::Remove(_) => 3,
    }
}

proof fn lemma_filter_map_order<A, B>(s: Seq<A>, f: spec_fn(A) -> Option<B>, i: int, j: int)
    requires
        0 <= i < j < s.filter_map(f).len(),
    ensures
        exists|k: int, l: int|
            0 <= k < l < s.len() && f(#[trigger] s[k]) == Some(s.filter_map(f)[i]) && f(
                #[trigger] s[l],
            ) == Some(s.filter_map(f)[j]),
    decreases s.len(),
{
    let rest = s.drop_last();
    let all = s.filter_map(f);
    if j < rest.filter_map(f).len() {
        lemma_filter_map_order(rest, f, i, j);
        let (k, l) = choose|k: int, l: int|
            0 <= k < l < rest.len() && f(#[trigger] rest[k]) == Some(rest.filter_map(f)[i]) && f(
                #[trigger] rest[l],
            ) == Some(rest.filter_map(f)[j]);
        assert(f(s[k]) == Some(all[i]));
        assert(f(s[l]) == Some(all[j]));
    } else {
        assert(all[i] == rest.filter_map(f)[i]);
        assert(rest.filter_map(f).contains(all[i]));
        sync_tree::lemma_in_filter_map(rest, f, all[i]);
        let k = choose|k: int| 0 <= k < rest.len() && f(#[trigger] rest[k]) == Some(all[i]);
        assert(f(s[k]) == Some(all[i]));
        assert(f(s[s.len() - 1]) == Some(all[j]));
    }
}

proof fn lemma_filter_map_source<A, B>(s: Seq<A>, f: spec_fn(A) -> Option<B>, i: int)
    requires
        0 <= i < s.filter_map(f).len(),
    ensures
        exists|k: int| 0 <= k < s.len() && f(#[trigger] s[k]) == Some(s.filter_map(f)[i]),
{
    assert(s.filter_map(f).contains(s.filter_map(f)[i]));
    sync_tree::lemma_in_filter_map(s, f, s.filter_map(f)[i]);
}

/// Whether a task is what some entry of the host's listing calls for.
pub open spec fn comes_of_host(
    task: SyncTask,
    dir: SyncDir,
    host: Seq<(Seq<char>, FileAttributes)>,
    device: Map<Seq<char>, FileAttributes>,
) -> bool {
    exists|k: int|
        0 <= k < host.len() && answers_host_entry(task, dir, #[trigger] host[k], device)
}

/// Whether a task is what some entry of the device's listing calls for.
pub open spec fn comes_of_device(
    task: SyncTask,
    device_dir: Seq<char>,
    trail: Seq<Seq<char>>,
    host: Map<Seq<char>, FileAttributes>,
    device: Seq<(Seq<char>, FileAttributes)>,
) -> bool {
    exists|k: int|
        0 <= k < device.len() && answers_device_entry(
            task,
            device_dir,
            trail,
            #[trigger] device[k],
            host,
        )
}

proof fn lemma_host_answer(
    task: SyncTask,
    dir: SyncDir,
    entry: (Seq<char>, FileAttributes),
    device: Map<Seq<char>, FileAttributes>,
)
    ensures
        sync::upload_of(dir@, device)(entry) == Some(task@) ==> answers_host_entry(
            task,
            dir,
            entry,
            device,
        ) && task is Upload,
        sync::enter_of(dir@)(entry) == Some(task@) ==> answers_host_entry(task, dir, entry, device)
            && task is Enter,
{
    lemma_below(dir.host_dir@, entry.0);
    lemma_below(dir.device_dir@, entry.0);
}

proof fn lemma_device_answer(
    task: SyncTask,
    device_dir: Seq<char>,
    trail: Seq<Seq<char>>,
    entry: (Seq<char>, FileAttributes),
    host: Map<Seq<char>, FileAttributes>,
)
    ensures
        sync::sweep_of(device_dir, trail, host)(entry) == Some(task@) ==> answers_device_entry(
            task,
            device_dir,
            trail,
            entry,
            host,
        ) && task is Sweep,
        sync::remove_of(device_dir, trail, host)(entry) == Some(task@) ==> answers_device_entry(
            task,
            device_dir,
            trail,
            entry,
            host,
        ) && task is Remove,
{
    lemma_below(device_dir, entry.0);
}

proof fn lemma_views(r: Seq<SyncTask>)
    ensures
        sync::task_views(r).len() == r.len(),
        forall|i: int| 0 <= i < r.len() ==> sync::task_views(r)[i] == (#[trigger] r[i])@,
{
}

/// Each task of a plan is what an entry of a listing calls for: of the host's for uploads and
/// visits, of the device's for sweeps and removals, and these only where files are deleted.
pub proof fn law_plan_holds_only_what_is_called_for(
    dir: &SyncDir,
    delete: bool,
    host: &NameMap<FileAttributes>,
    device: &NameMap<FileAttributes>,
    r: Vec<SyncTask>,
    i: int,
)
    requires
        call_ensures(plan_dir, (dir, delete, host, device), r),
        0 <= i < r@.len(),
    ensures
        turn(r@[i]) <= 1 ==> comes_of_host(r@[i], *dir, host.pairs(), device@),
        turn(r@[i]) >= 2 ==> delete && comes_of_device(
            r@[i],
            dir.device_dir@,
            text::views(dir.trail@),
            host@,
            device.pairs(),
        ),
{
    lemma_plan_place(dir, delete, host, device, r, i);
}

proof fn lemma_plan_place(
    dir: &SyncDir,
    delete: bool,
    host: &NameMap<FileAttributes>,
    device: &NameMap<FileAttributes>,
    r: Vec<SyncTask>,
    i: int,
)
    requires
        call_ensures(plan_dir, (dir, delete, host, device), r),
        0 <= i < r@.len(),
    ensures
        ({
            let a = sync::uploads(dir@, host.pairs(), device.pairs()).len();
            let b = a + sync::visits(dir@, host.pairs()).len();
            let c = b + sync::sweeps(dir@, delete, host.pairs(), device.pairs()).len();
            &&& r@[i] is Upload <==> i < a
            &&& r@[i] is Enter <==> a <= i < b
            &&& r@[i] is Sweep <==> b <= i < c
            &&& r@[i] is Remove <==> c <= i
        }),
        turn(r@[i]) <= 1 ==> comes_of_host(r@[i], *dir, host.pairs(), device@),
        turn(r@[i]) >= 2 ==> delete && comes_of_device(
            r@[i],
            dir.device_dir@,
            text::views(dir.trail@),
            host@,
            device.pairs(),
        ),
{
    lemma_views(r@);
    let hs = host.pairs();
    let ds = device.pairs();
    let d = dir.device_dir@;
    let t = text::views(dir.trail@);
    let a = sync::uploads(dir@, hs, ds);
    let b = sync::visits(dir@, hs);
    let c = sync::sweeps(dir@, delete, hs, ds);
    let e = sync::removals(dir@, delete, hs, ds);
    let all = a + b + c + e;
    assert(all[i] == r@[i]@);
    if i < a.len() {
        assert(all[i] == a[i]);
        let f = sync::upload_of(dir@, device@);
        lemma_filter_map_source(hs, f, i);
        let k = choose|k: int| 0 <= k < hs.len() && f(#[trigger] hs[k]) == Some(a[i]);
        lemma_host_answer(r@[i], *dir, hs[k], device@);
        assert(answers_host_entry(r@[i], *dir, hs[k], device@));
    } else if i < a.len() + b.len() {
        let x = i - a.len();
        assert(all[i] == b[x]);
        let f = sync::enter_of(dir@);
        lemma_filter_map_source(hs, f, x);
        let k = choose|k: int| 0 <= k < hs.len() && f(#[trigger] hs[k]) == Some(b[x]);
        lemma_host_answer(r@[i], *dir, hs[k], device@);
        assert(answers_host_entry(r@[i], *dir, hs[k], device@));
    } else if i < a.len() + b.len() + c.len() {
        let x = i - a.len() - b.len();
        assert(all[i] == c[x]);
        let f = sync::sweep_of(d, t, host@);
        lemma_filter_map_source(ds, f, x);
        let k = choose|k: int| 0 <= k < ds.len() && f(#[trigger] ds[k]) == Some(c[x]);
        lemma_device_answer(r@[i], d, t, ds[k], host@);
        assert(answers_device_entry(r@[i], d, t, ds[k], host@));
    } else {
        let x = i - a.len() - b.len() - c.len();
        assert(all[i] == e[x]);
        let f = sync::remove_of(d, t, host@);
        lemma_filter_map_source(ds, f, x);
        let k = choose|k: int| 0 <= k < ds.len() && f(#[trigger] ds[k]) == Some(e[x]);
        lemma_device_answer(r@[i], d, t, ds[k], host@);
        assert(answers_device_entry(r@[i], d, t, ds[k], host@));
    }
}

proof fn lemma_is_planned(r: Seq<SyncTask>, task: TaskView) -> (i: int)
    requires
        sync::task_views(r).contains(task),
    ensures
        0 <= i < r.len(),
        r[i]@ == task,
{
    lemma_views(r);
    choose|i: int| 0 <= i < sync::task_views(r).len() && sync::task_views(r)[i] == task
}

/// An entry of the host's listing has its task in the plan: a directory, and a file that the
/// device lacks or holds with another size.
pub proof fn law_host_entry_is_planned(
    dir: &SyncDir,
    delete: bool,
    host: &NameMap<FileAttributes>,
    device: &NameMap<FileAttributes>,
    r: Vec<SyncTask>,
    k: int,
)
    requires
        call_ensures(plan_dir, (dir, delete, host, device), r),
        0 <= k < host.pairs().len(),
    ensures
        ({
            let (name, attr) = host.pairs()[k];
            attr.is_dir || !device@.contains_key(name) || device@[name].size != attr.size
        }) ==> exists|i: int|
            0 <= i < r@.len() && answers_host_entry(
                #[trigger] r@[i],
                *dir,
                host.pairs()[k],
                device@,
            ),
{
    let hs = host.pairs();
    let ds = device.pairs();
    let (name, attr) = hs[k];
    let a = sync::uploads(dir@, hs, ds);
    let b = sync::visits(dir@, hs);
    let c = sync::sweeps(dir@, delete, hs, ds);
    let e = sync::removals(dir@, delete, hs, ds);
    if attr.is_dir || !device@.contains_key(name) || device@[name].size != attr.size {
        let f = if attr.is_dir {
            sync::enter_of(dir@)
        } else {
            sync::upload_of(dir@, device@)
        };
        let task = f(hs[k])->0;
        sync_tree::lemma_filter_map_member(hs, f, k, task);
        lemma_seq_concat_contains_all_elements(a, b, task);
        lemma_seq_concat_contains_all_elements(a + b, c, task);
        lemma_seq_concat_contains_all_elements(a + b + c, e, task);
        let i = lemma_is_planned(r@, task);
        lemma_host_answer(r@[i], *dir, hs[k], device@);
        assert(answers_host_entry(r@[i], *dir, hs[k], device@));
    }
}

/// Where files are deleted, an entry of the device's listing has its task in the plan: a file
/// whose name the host lacks, and a directory that is none of the host's.
pub proof fn law_device_entry_is_planned(
    dir: &SyncDir,
    delete: bool,
    host: &NameMap<FileAttributes>,
    device: &NameMap<FileAttributes>,
    r: Vec<SyncTask>,
    k: int,
)
    requires
        call_ensures(plan_dir, (dir, delete, host, device), r),
        0 <= k < device.pairs().len(),
        delete,
    ensures
        ({
            let (name, attr) = device.pairs()[k];
            !host@.contains_key(name) || (attr.is_dir && !host@[name].is_dir)
        }) ==> exists|i: int|
            0 <= i < r@.len() && answers_device_entry(
                #[trigger] r@[i],
                dir.device_dir@,
                text::views(dir.trail@),
                device.pairs()[k],
                host@,
            ),
{
    let hs = host.pairs();
    let ds = device.pairs();
    let d = dir.device_dir@;
    let t = text::views(dir.trail@);
    let (name, attr) = ds[k];
    let a = sync::uploads(dir@, hs, ds);
    let b = sync::visits(dir@, hs);
    let c = sync::sweeps(dir@, delete, hs, ds);
    let e = sync::removals(dir@, delete, hs, ds);
    if !host@.contains_key(name) || (attr.is_dir && !host@[name].is_dir) {
        let f = if attr.is_dir {
            sync::sweep_of(d, t, host@)
        } else {
            sync::remove_of(d, t, host@)
        };
        let task = f(ds[k])->0;
        sync_tree::lemma_filter_map_member(ds, f, k, task);
        lemma_seq_concat_contains_all_elements(a, b, task);
        lemma_seq_concat_contains_all_elements(a + b, c, task);
        lemma_seq_concat_contains_all_elements(a + b + c, e, task);
        let i = lemma_is_planned(r@, task);
        lemma_device_answer(r@[i], d, t, ds[k], host@);
        assert(answers_device_entry(r@[i], d, t, ds[k], host@));
    }
}

/// Uploads are done before visits, these before sweeps, and these before removals. Tasks of
/// one kind are done in the order in which their entries are listed.
pub proof fn law_plan_is_in_order(
    dir: &SyncDir,
    delete: bool,
    host: &NameMap<FileAttributes>,
    device: &NameMap<FileAttributes>,
    r: Vec<SyncTask>,
    i: int,
    j: int,
)
    requires
        call_ensures(plan_dir, (dir, delete, host, device), r),
        0 <= i < j < r@.len(),
    ensures
        turn(r@[i]) <= turn(r@[j]),
        turn(r@[i]) == turn(r@[j]) && turn(r@[i]) <= 1 ==> exists|k: int, l: int|
            0 <= k < l < host.pairs().len() && answers_host_entry(
                r@[i],
                *dir,
                #[trigger] host.pairs()[k],
                device@,
            ) && answers_host_entry(r@[j], *dir, #[trigger] host.pairs()[l], device@),
        turn(r@[i]) == turn(r@[j]) && turn(r@[i]) >= 2 ==> exists|k: int, l: int|
            0 <= k < l < device.pairs().len() && answers_device_entry(
                r@[i],
                dir.device_dir@,
                text::views(dir.trail@),
                #[trigger] device.pairs()[k],
                host@,
            ) && answers_device_entry(
                r@[j],
                dir.device_dir@,
                text::views(dir.trail@),
                #[trigger] device.pairs()[l],
                host@,
            ),
{
    lemma_views(r@);
    lemma_plan_place(dir, delete, host, device, r, i);
    lemma_plan_place(dir, delete, host, device, r, j);
    let hs = host.pairs();
    let ds = device.pairs();
    let d = dir.device_dir@;
    let t = text::views(dir.trail@);
    let a = sync::uploads(dir@, hs, ds);
    let b = sync::visits(dir@, hs);
    let c = sync::sweeps(dir@, delete, hs, ds);
    let e = sync::removals(dir@, delete, hs, ds);
    let all = a + b + c + e;
    assert(all[i] == r@[i]@ && all[j] == r@[j]@);
    if turn(r@[i]) == turn(r@[j]) && turn(r@[i]) <= 1 {
        let (f, part, x) = if r@[i] is Upload {
            (sync::upload_of(dir@, device@), a, i)
        } else {
            (sync::enter_of(dir@), b, i - a.len())
        };
        let y = x + (j - i);
        assert(part == hs.filter_map(f));
        assert(part[x] == all[i] && part[y] == all[j]);
        lemma_filter_map_order(hs, f, x, y);
        let (k, l) = choose|k: int, l: int|
            0 <= k < l < hs.len() && f(#[trigger] hs[k]) == Some(part[x]) && f(#[trigger] hs[l])
                == Some(part[y]);
        lemma_host_answer(r@[i], *dir, hs[k], device@);
        lemma_host_answer(r@[j], *dir, hs[l], device@);
        assert(answers_host_entry(r@[i], *dir, hs[k], device@));
        assert(answers_host_entry(r@[j], *dir, hs[l], device@));
    }
    if turn(r@[i]) == turn(r@[j]) && turn(r@[i]) >= 2 {
        let (f, part, x) = if r@[i] is Sweep {
            (sync::sweep_of(d, t, host@), c, i - a.len() - b.len())
        } else {
            (sync::remove_of(d, t, host@), e, i - a.len() - b.len() - c.len())
        };
        let y = x + (j - i);
        assert(part == ds.filter_map(f));
        assert(part[x] == all[i] && part[y] == all[j]);
        lemma_filter_map_order(ds, f, x, y);
        let (k, l) = choose|k: int, l: int|
            0 <= k < l < ds.len() && f(#[trigger] ds[k]) == Some(part[x]) && f(#[trigger] ds[l])
                == Some(part[y]);
        lemma_device_answer(r@[i], d, t, ds[k], host@);
        lemma_device_answer(r@[j], d, t, ds[l], host@);
        assert(answers_device_entry(r@[i], d, t, ds[k], host@));
        assert(answers_device_entry(r@[j], d, t, ds[l], host@));
    }
}

/// A directory that is swept is swept of its directories first. Tasks of one kind are done in
/// the order in which their entries are listed.
pub proof fn law_sweep_is_in_order(
    job: &SweepJob,
    device: &NameMap<FileAttributes>,
    r: Vec<SyncTask>,
    i: int,
    j: int,
)
    requires
        call_ensures(plan_sweep, (job, device), r),
        0 <= i < j < r@.len(),
    ensures
        turn(r@[i]) <= turn(r@[j]),
        turn(r@[i]) == turn(r@[j]) ==> exists|x: int, y: int|
            0 <= x < y < device.pairs().len() && clears_entry(
                r@[i],
                *job,
                #[trigger] device.pairs()[x],
            ) && clears_entry(r@[j], *job, #[trigger] device.pairs()[y]),
{
    lemma_views(r@);
    lemma_sweep_place(job, device, r, i);
    lemma_sweep_place(job, device, r, j);
    let ds = device.pairs();
    let d = job.device_dir@;
    let t = text::views(job.trail@);
    let none = Map::<Seq<char>, FileAttributes>::empty();
    let c = ds.filter_map(sync::sweep_of(d, t, none));
    let e = ds.filter_map(sync::remove_of(d, t, none));
    let all = c + e;
    if turn(r@[i]) == turn(r@[j]) {
        let (g, part, x) = if r@[i] is Sweep {
            (sync::sweep_of(d, t, none), c, i)
        } else {
            (sync::remove_of(d, t, none), e, i - c.len())
        };
        let y = x + (j - i);
        assert(part[x] == all[i] && part[y] == all[j]);
        lemma_filter_map_order(ds, g, x, y);
        let (u, v) = choose|u: int, v: int|
            0 <= u < v < ds.len() && g(#[trigger] ds[u]) == Some(part[x]) && g(#[trigger] ds[v])
                == Some(part[y]);
        lemma_device_answer(r@[i], d, t, ds[u], none);
        lemma_device_answer(r@[j], d, t, ds[v], none);
        assert(clears_entry(r@[i], *job, ds[u]));
        assert(clears_entry(r@[j], *job, ds[v]));
    }
}

/// Whether a task clears an entry of a directory that is swept.
pub open spec fn clears_entry(
    task: SyncTask,
    job: SweepJob,
    entry: (Seq<char>, FileAttributes),
) -> bool {
    if entry.1.is_dir {
        sweeps_entry(task, job.device_dir@, text::views(job.trail@), entry.0)
    } else {
        removes_entry(task, job.device_dir@, text::views(job.trail@), entry.0)
    }
}

/// A device directory that the host lacks is swept whole: each file in it is removed, and each
/// directory in it is swept.
pub proof fn law_sweep_clears_each_entry(
    job: &SweepJob,
    device: &NameMap<FileAttributes>,
    r: Vec<SyncTask>,
    k: int,
)
    requires
        call_ensures(plan_sweep, (job, device), r),
        0 <= k < device.pairs().len(),
    ensures
        exists|x: int| 0 <= x < r@.len() && clears_entry(#[trigger] r@[x], *job, device.pairs()[k]),
{
    lemma_views(r@);
    let ds = device.pairs();
    let d = job.device_dir@;
    let t = text::views(job.trail@);
    let none = Map::<Seq<char>, FileAttributes>::empty();
    let c = ds.filter_map(sync::sweep_of(d, t, none));
    let e = ds.filter_map(sync::remove_of(d, t, none));
    let f = if ds[k].1.is_dir {
        sync::sweep_of(d, t, none)
    } else {
        sync::remove_of(d, t, none)
    };
    let task = f(ds[k])->0;
    sync_tree::lemma_filter_map_member(ds, f, k, task);
    lemma_seq_concat_contains_all_elements(c, e, task);
    let x = lemma_is_planned(r@, task);
    lemma_device_answer(r@[x], d, t, ds[k], none);
    assert(clears_entry(r@[x], *job, ds[k]));
}

/// A sweep does nothing but clear the entries of its directory.
pub proof fn law_sweep_clears_nothing_else(
    job: &SweepJob,
    device: &NameMap<FileAttributes>,
    r: Vec<SyncTask>,
    i: int,
)
    requires
        call_ensures(plan_sweep, (job, device), r),
        0 <= i < r@.len(),
    ensures
        exists|k: int|
            0 <= k < device.pairs().len() && clears_entry(
                r@[i],
                *job,
                #[trigger] device.pairs()[k],
            ),
{
    lemma_sweep_place(job, device, r, i);
}

proof fn lemma_sweep_place(
    job: &SweepJob,
    device: &NameMap<FileAttributes>,
    r: Vec<SyncTask>,
    i: int,
)
    requires
        call_ensures(plan_sweep, (job, device), r),
        0 <= i < r@.len(),
    ensures
        ({
            let c = device.pairs().filter_map(
                sync::sweep_of(
                    job.device_dir@,
                    text::views(job.trail@),
                    Map::<Seq<char>, FileAttributes>::empty(),
                ),
            ).len();
            &&& r@[i] is Sweep <==> i < c
            &&& r@[i] is Remove <==> c <= i
        }),
        exists|k: int|
            0 <= k < device.pairs().len() && clears_entry(
                r@[i],
                *job,
                #[trigger] device.pairs()[k],
            ),
{
    lemma_views(r@);
    let ds = device.pairs();
    let d = job.device_dir@;
    let t = text::views(job.trail@);
    let none = Map::<Seq<char>, FileAttributes>::empty();
    let f = sync::sweep_of(d, t, none);
    let g = sync::remove_of(d, t, none);
    let c = ds.filter_map(f);
    let e = ds.filter_map(g);
    let all = c + e;
    assert(all[i] == r@[i]@);
    if i < c.len() {
        lemma_filter_map_source(ds, f, i);
        let k = choose|k: int| 0 <= k < ds.len() && f(#[trigger] ds[k]) == Some(c[i]);
        lemma_device_answer(r@[i], d, t, ds[k], none);
        assert(clears_entry(r@[i], *job, ds[k]));
    } else {
        let x = i - c.len();
        assert(all[i] == e[x]);
        lemma_filter_map_source(ds, g, x);
        let k = choose|k: int| 0 <= k < ds.len() && g(#[trigger] ds[k]) == Some(e[x]);
        lemma_device_answer(r@[i], d, t, ds[k], none);
        assert(clears_entry(r@[i], *job, ds[k]));
    }
}

/// A directory that a run visits is at the same place below both directories that the run is
/// made for, and the directories above it are named from the top.
pub proof fn law_visited_directories_match(
    w: World,
    delete: bool,
    host_dir: Seq<char>,
    device_dir: Seq<char>,
    depth: nat,
    dir: DirView,
)
    requires
        sync_tree::is_visited(w, delete, host_dir, device_dir, depth, dir),
    ensures
        is_same_place(host_dir, device_dir, dir),
{
    let holds = |t: TaskView| t matches TaskView::Enter(d) ==> is_same_place(host_dir, device_dir, d);
    let tasks = sync_run::start(host_dir, device_dir).pending;
    assert forall|i: int| 0 <= i < tasks.len() implies holds(#[trigger] tasks[i]) by {
        let none = Seq::<char>::empty();
        assert(host_dir + none =~= host_dir);
        assert(device_dir + none =~= device_dir);
        assert(is_at(host_dir, device_dir, tasks[i]->Enter_0, none));
    }
    assert forall|above: TaskView, t: TaskView|
        holds(above) && #[trigger] sync_tree::tasks_of(w, delete, above).contains(t) implies holds(
        t,
    ) by {
        if let TaskView::Enter(d) = above {
            sync_tree::lemma_tasks_in(w, delete, d, t);
            if let TaskView::Enter(e) = t {
                let i = choose|i: int| sync_tree::is_sub_dir(w, d, i, e);
                let name = (w.host)(d.host_dir)[i].0;
                let place = choose|place: Seq<char>| is_at(host_dir, device_dir, d, place);
                let next = below(place, name);
                lemma_below(d.host_dir, name);
                lemma_below(d.device_dir, name);
                assert(below(host_dir + place, name) =~= host_dir + next);
                assert(below(device_dir + place, name) =~= device_dir + next);
                assert(is_at(host_dir, device_dir, e, next));
            }
        } else if let TaskView::Sweep(j) = above {
            sync_tree::lemma_tasks_of_sweep(w, delete, j, t);
        }
    }
    sync_tree::lemma_due_induction(w, delete, tasks, depth, holds, TaskView::Enter(dir));
}

/// Whether a directory is at a place below both directories.
pub open spec fn is_at(
    host_dir: Seq<char>,
    device_dir: Seq<char>,
    dir: DirView,
    place: Seq<char>,
) -> bool {
    &&& dir.host_dir == host_dir + place
    &&& dir.device_dir == device_dir + place
    &&& dir.trail.len() > 0 ==> dir.trail[0] == host_dir
    &&& dir.trail.len() == 0 ==> place.len() == 0
}

/// Whether a directory is at some one place below both directories.
pub open spec fn is_same_place(host_dir: Seq<char>, device_dir: Seq<char>, dir: DirView) -> bool {
    exists|place: Seq<char>| is_at(host_dir, device_dir, dir, place)
}

/// The words for a reason, and the line that reports an upload with its paths, its size in
/// decimal and its reason.
pub proof fn law_upload_is_told(
    reporting: Reporting,
    job: &UploadJob,
    size: u64,
    line: String,
    words: &'static str,
    digits: String,
)
    requires
        call_ensures(upload_text, (reporting, job, size), line),
        call_ensures(reason_text, (job.reason,), words),
        call_ensures(decimal_of, (size,), digits),
    ensures
        job.reason == Reason::Missing ==> words@ == "file is missing on device"@,
        job.reason == Reason::SizesDiffer ==> words@ == "sizes are different"@,
        reporting is Callbacks ==> line@ == "Uploading "@ + job.host_path@ + " -> "@
            + job.device_path@ + " ("@ + digits@ + " bytes, "@ + words@ + ")"@,
        reporting is Console ==> line@ == "Uploading "@ + digits@ + " bytes from "@ + job.host_path@
            + " to "@ + job.device_path@ + " because "@ + words@,
{
}

/// A run begins with the visit of the directory that it is made for, and nothing else.
pub proof fn law_run_begins_with_its_directory(
    host_dir: &str,
    device_dir: &str,
    options: SyncOptions,
    r: SyncRun,
)
    requires
        call_ensures(SyncRun::new, (host_dir, device_dir, options), r),
    ensures
        r.options == options,
        r.current is Idle,
        r.pending@.len() == 1,
        r.pending@[0] matches SyncTask::Enter(d) && d.host_dir@ == host_dir@ && d.device_dir@
            == device_dir@ && d.trail@.len() == 0,
{
    lemma_views(r.pending@);
    assert(sync::task_views(r.pending@)[0] == r.pending@[0]@);
    if let SyncTask::Enter(d) = r.pending@[0] {
        assert(text::views(d.trail@).len() == d.trail@.len());
    }
}

/// Whether a step begins a task after some lines: the task of a directory by listing it, on
/// both sides or on the device's; an upload by reading the file; a removal, which is told, by
/// asking for it, to be performed unless changes are only reported.
pub open spec fn begins(
    task: SyncTask,
    dry_run: bool,
    shown: Seq<Seq<char>>,
    current: Current,
    step: SyncStep,
) -> bool {
    match task {
        SyncTask::Enter(d) => {
            &&& step.action matches SyncAction::List { host_dir, device_dir }
            &&& host_dir@ == d.host_dir@
            &&& device_dir@ == d.device_dir@
            &&& text::views(step.lines@) == shown
            &&& current matches Current::Waiting(t)
            &&& t@ == task@
        },
        SyncTask::Upload(j) => {
            &&& step.action matches SyncAction::Read { host_path }
            &&& host_path@ == j.host_path@
            &&& text::views(step.lines@) == shown
            &&& current matches Current::Waiting(t)
            &&& t@ == task@
        },
        SyncTask::Sweep(j) => {
            &&& step.action matches SyncAction::ListDevice { device_dir }
            &&& device_dir@ == j.device_dir@
            &&& text::views(step.lines@) == shown
            &&& current matches Current::Waiting(t)
            &&& t@ == task@
        },
        SyncTask::Remove(j) => {
            &&& step.action matches SyncAction::Remove { device_path, perform }
            &&& device_path@ == j.device_path@
            &&& perform == !dry_run
            &&& text::views(step.lines@) == shown.push("Removing "@ + j.device_path@)
            &&& current matches Current::Sent(t)
            &&& t@ == task@
        },
    }
}

/// Whether a run goes on with tasks that are to be done in order before those that are
/// pending, after some lines: the first of them is begun, and the others are pending before
/// those that were; with no task left the run is over.
pub open spec fn goes_on(
    before: SyncRun,
    tasks: Seq<SyncTask>,
    shown: Seq<Seq<char>>,
    after: SyncRun,
    step: SyncStep,
) -> bool {
    if tasks.len() > 0 {
        &&& begins(tasks[0], before.options.dry_run, shown, after.current, step)
        &&& after.pending@.len() == before.pending@.len() + tasks.len() - 1
        &&& forall|i: int|
            0 <= i < before.pending@.len() ==> (#[trigger] after.pending@[i])@
                == before.pending@[i]@
        &&& forall|i: int|
            0 < i < tasks.len() ==> (#[trigger] tasks[i])@ == after.pending@[after.pending@.len()
                - i]@
    } else if before.pending@.len() > 0 {
        &&& begins(before.pending@.last(), before.options.dry_run, shown, after.current, step)
        &&& after.pending@.len() == before.pending@.len() - 1
        &&& forall|i: int|
            0 <= i < after.pending@.len() ==> (#[trigger] after.pending@[i])@
                == before.pending@[i]@
    } else {
        &&& step.action is Done
        &&& after.current is Idle
        &&& after.pending@.len() == 0
        &&& text::views(step.lines@) == shown
    }
}

proof fn lemma_goes_on(
    before: SyncRun,
    tasks: Seq<SyncTask>,
    shown: Seq<Seq<char>>,
    after: SyncRun,
    step: SyncStep,
)
    requires
        (after@, step@) == sync_run::begin_next(
            before.options,
            before@.pending + sync::task_views(tasks).reverse(),
            shown,
        ),
    ensures
        goes_on(before, tasks, shown, after, step),
{
    let p = before@.pending;
    let q = sync::task_views(tasks).reverse();
    let all = p + q;
    lemma_views(before.pending@);
    lemma_views(after.pending@);
    lemma_views(tasks);
    if all.len() > 0 {
        assert(after@.pending == all.drop_last());
        let task = if tasks.len() > 0 {
            tasks[0]
        } else {
            before.pending@.last()
        };
        assert(all.last() == task@);
        assert forall|i: int| 0 <= i < after.pending@.len() implies (#[trigger] after.pending@[i])@
            == all[i] by {
            assert(after@.pending[i] == after.pending@[i]@);
        }
        assert forall|i: int| 0 < i < tasks.len() implies (#[trigger] tasks[i])@
            == after.pending@[after.pending@.len() - i]@ by {
            assert(q[tasks.len() - 1 - i] == tasks[i]@);
            assert(all[p.len() + (tasks.len() - 1 - i)] == q[tasks.len() - 1 - i]);
        }
        assert(begins(task, before.options.dry_run, shown, after.current, step));
    }
}

/// When a run was just made, or a change of the device is done, the next pending task is
/// begun, or the run is over.
pub proof fn law_next_task_is_begun()
    ensures
        forall|run: &mut SyncRun, r: SyncStep| #[trigger]
            call_ensures(SyncRun::step, (run, SyncEvent::Proceed), r) && !((*run).current is Waiting)
                ==> final(run).options == (*run).options && goes_on(
                *run,
                Seq::empty(),
                Seq::empty(),
                *final(run),
                r,
            ),
{
    assert forall|run: &mut SyncRun, r: SyncStep| #[trigger]
        call_ensures(SyncRun::step, (run, SyncEvent::Proceed), r) && !((*run).current is Waiting)
        implies final(run).options == (*run).options && goes_on(
        *run,
        Seq::empty(),
        Seq::empty(),
        *final(run),
        r,
    ) by {
        let none = Seq::<SyncTask>::empty();
        assert(SyncEvent::Proceed@ == EventView::Proceed);
        assert((*run)@.pending + sync::task_views(none).reverse() =~= (*run)@.pending);
        lemma_goes_on(*run, none, Seq::empty(), *final(run), r);
    }
}

/// When a directory is listed on both sides, what is planned for it is done next, in order.
/// The directory is named if and only if the run reports verbosely to the console.
pub proof fn law_listed_directory_is_worked_on()
    ensures
        forall|
            run: &mut SyncRun,
            host: NameMap<FileAttributes>,
            device: NameMap<FileAttributes>,
            r: SyncStep,
            dir: SyncDir,
            tasks: Vec<SyncTask>,
        |
            #![trigger call_ensures(
                SyncRun::step,
                (run, SyncEvent::Listed { host, device }),
                r,
            ), call_ensures(plan_dir, (&dir, (*run).options.delete, &host, &device), tasks)]
            call_ensures(SyncRun::step, (run, SyncEvent::Listed { host, device }), r)
                && call_ensures(plan_dir, (&dir, (*run).options.delete, &host, &device), tasks) && (
            *run).current == Current::Waiting(SyncTask::Enter(dir)) ==> final(run).options == (
            *run).options && goes_on(
                *run,
                tasks@,
                if (*run).options.reporting == (Reporting::Console { verbose: true }) {
                    seq!["Syncing "@ + dir.host_dir@ + " to "@ + dir.device_dir@]
                } else {
                    Seq::empty()
                },
                *final(run),
                r,
            ),
{
    assert forall|
        run: &mut SyncRun,
        host: NameMap<FileAttributes>,
        device: NameMap<FileAttributes>,
        r: SyncStep,
        dir: SyncDir,
        tasks: Vec<SyncTask>,
    |
        #![trigger call_ensures(
            SyncRun::step,
            (run, SyncEvent::Listed { host, device }),
            r,
        ), call_ensures(plan_dir, (&dir, (*run).options.delete, &host, &device), tasks)]
        call_ensures(SyncRun::step, (run, SyncEvent::Listed { host, device }), r) && call_ensures(
            plan_dir,
            (&dir, (*run).options.delete, &host, &device),
            tasks,
        ) && (*run).current == Current::Waiting(SyncTask::Enter(dir)) implies final(run).options == (
    *run).options && goes_on(
        *run,
        tasks@,
        if (*run).options.reporting == (Reporting::Console { verbose: true }) {
            seq!["Syncing "@ + dir.host_dir@ + " to "@ + dir.device_dir@]
        } else {
            Seq::empty()
        },
        *final(run),
        r,
    ) by {
        lemma_goes_on(
            *run,
            tasks@,
            sync_run::listing_lines((*run).options.reporting, dir@),
            *final(run),
            r,
        );
    }
}

/// When a device directory that the host lacks is listed, it is cleared next, in order.
pub proof fn law_listed_sweep_is_worked_on()
    ensures
        forall|
            run: &mut SyncRun,
            device: NameMap<FileAttributes>,
            r: SyncStep,
            job: SweepJob,
            tasks: Vec<SyncTask>,
        |
            #![trigger call_ensures(
                SyncRun::step,
                (run, SyncEvent::ListedDevice { device }),
                r,
            ), call_ensures(plan_sweep, (&job, &device), tasks)]
            call_ensures(SyncRun::step, (run, SyncEvent::ListedDevice { device }), r)
                && call_ensures(plan_sweep, (&job, &device), tasks) && (*run).current
                == Current::Waiting(SyncTask::Sweep(job)) ==> final(run).options == (
            *run).options && goes_on(*run, tasks@, Seq::empty(), *final(run), r),
{
    assert forall|
        run: &mut SyncRun,
        device: NameMap<FileAttributes>,
        r: SyncStep,
        job: SweepJob,
        tasks: Vec<SyncTask>,
    |
        #![trigger call_ensures(
            SyncRun::step,
            (run, SyncEvent::ListedDevice { device }),
            r,
        ), call_ensures(plan_sweep, (&job, &device), tasks)]
        call_ensures(SyncRun::step, (run, SyncEvent::ListedDevice { device }), r) && call_ensures(
            plan_sweep,
            (&job, &device),
            tasks,
        ) && (*run).current == Current::Waiting(SyncTask::Sweep(job)) implies final(run).options == (
    *run).options && goes_on(*run, tasks@, Seq::empty(), *final(run), r) by {
        lemma_goes_on(*run, tasks@, Seq::empty(), *final(run), r);
    }
}

/// Whether a step uploads the file that was read: to the device path of its own task, to be
/// performed unless changes are only reported; and tells so, unless a progress bar is shown
/// in its place.
pub open spec fn uploads(
    options: SyncOptions,
    job: UploadJob,
    size: u64,
    current: Current,
    step: SyncStep,
) -> bool {
    let quiet = options.reporting == (Reporting::Callbacks { progress: true }) && !options.dry_run;
    &&& step.action matches SyncAction::Upload { host_path, device_path, perform }
    &&& host_path@ == job.host_path@
    &&& device_path@ == job.device_path@
    &&& perform == !options.dry_run
    &&& current matches Current::Sent(t)
    &&& t@ == TaskView::Upload(job@)
    &&& if quiet {
        step.lines@.len() == 0
    } else {
        step.lines@.len() == 1 && forall|line: String| #[trigger]
            call_ensures(upload_text, (options.reporting, &job, size), line) ==> step.lines@[0]@
                == line@
    }
}

/// Once the file of an upload was read, it is uploaded; the pending tasks stay.
pub proof fn law_file_that_was_read_is_uploaded()
    ensures
        forall|run: &mut SyncRun, size: u64, r: SyncStep, job: UploadJob|
            #![trigger call_ensures(SyncRun::step, (run, SyncEvent::Read { size }), r), job@]
            call_ensures(SyncRun::step, (run, SyncEvent::Read { size }), r) && (*run).current
                == Current::Waiting(SyncTask::Upload(job)) ==> final(run).options == (*run).options
                && uploads((*run).options, job, size, final(run).current, r) && sync::task_views(
                final(run).pending@,
            ) == sync::task_views((*run).pending@),
{
    assert forall|run: &mut SyncRun, size: u64, r: SyncStep, job: UploadJob|
        #![trigger call_ensures(SyncRun::step, (run, SyncEvent::Read { size }), r), job@]
        call_ensures(SyncRun::step, (run, SyncEvent::Read { size }), r) && (*run).current
            == Current::Waiting(SyncTask::Upload(job)) implies final(run).options == (*run).options
        && uploads((*run).options, job, size, final(run).current, r) && sync::task_views(
        final(run).pending@,
    ) == sync::task_views((*run).pending@) by {
        assert(text::views(r.lines@).len() == r.lines@.len());
        if r.lines@.len() > 0 {
            assert(text::views(r.lines@)[0] == r.lines@[0]@);
        }
    }
}

/// An event that does not answer the last action changes nothing.
pub proof fn law_unexpected_event_changes_nothing()
    ensures
        forall|run: &mut SyncRun, event: SyncEvent, r: SyncStep| #[trigger]
            call_ensures(SyncRun::step, (run, event), r) && !is_answer((*run).current, event)
                ==> r.action is Unexpected && r.lines@.len() == 0 && final(run).options == (
            *run).options && final(run)@ == (*run)@,
{
    assert forall|run: &mut SyncRun, event: SyncEvent, r: SyncStep| #[trigger]
        call_ensures(SyncRun::step, (run, event), r) && !is_answer((*run).current, event) implies
        r.action is Unexpected && r.lines@.len() == 0 && final(run).options == (*run).options
        && final(run)@ == (*run)@ by {
        assert(text::views(r.lines@).len() == r.lines@.len());
    }
}

/// Whether an event answers what a run asked for.
pub open spec fn is_answer(current: Current, event: SyncEvent) -> bool {
    match event {
        SyncEvent::Proceed => !(current is Waiting),
        SyncEvent::Listed { .. } => current matches Current::Waiting(t) && t is Enter,
        SyncEvent::ListedDevice { .. } => current matches Current::Waiting(t) && t is Sweep,
        SyncEvent::Read { .. } => current matches Current::Waiting(t) && t is Upload,
    }
}

/// Whether contexts are one for each directory above, outermost first, and then one more if
/// there is one.
pub open spec fn wraps(r: Seq<String>, trail: Seq<String>, own: Option<Seq<char>>) -> bool {
    &&& r.len() == trail.len() + (if own is Some {
        1int
    } else {
        0
    })
    &&& forall|i: int|
        0 <= i < trail.len() ==> (#[trigger] r[i])@ == "failed to sync host dir: "@ + trail[i]@
    &&& own is Some ==> r.last()@ == own->0
}

proof fn lemma_wraps(r: Seq<String>, trail: Seq<String>, own: Option<Seq<char>>)
    requires
        text::views(r) == ({
            let above = text::views(trail).map_values(
                |dir: Seq<char>| "failed to sync host dir: "@ + dir,
            );
            match own {
                Some(c) => above.push(c),
                None => above,
            }
        }),
    ensures
        wraps(r, trail, own),
{
    assert(text::views(r).len() == r.len());
    assert forall|i: int| 0 <= i < r.len() implies (#[trigger] r[i])@ == text::views(r)[i] by {}
    assert forall|i: int| 0 <= i < trail.len() implies text::views(trail)[i] == (
    #[trigger] trail[i])@ by {}
}

/// A failure is told with each host directory above, outermost first, and then with what was
/// being done: a host directory that could not be opened, a file that could not be read or
/// uploaded, or one that could not be removed. On the console a file that could not be read
/// counts as one that could not be uploaded, and nothing is said of directories and removals.
pub proof fn law_failure_says_where(run: &SyncRun, point: FailurePoint, r: Vec<String>)
    requires
        call_ensures(SyncRun::failure, (run, point), r),
    ensures
        run.current is Idle ==> r@.len() == 0,
        run.current matches Current::Waiting(SyncTask::Enter(d)) ==> wraps(
            r@,
            d.trail@,
            if run.options.reporting is Callbacks && point == FailurePoint::HostDir {
                Some("failed to read host directory "@ + d.host_dir@)
            } else {
                None
            },
        ),
        run.current matches Current::Waiting(SyncTask::Upload(j)) ==> wraps(
            r@,
            j.trail@,
            Some(
                (if run.options.reporting is Callbacks {
                    "failed to read "@
                } else {
                    "failed to upload "@
                }) + j.host_path@,
            ),
        ),
        run.current matches Current::Waiting(SyncTask::Sweep(j)) ==> wraps(r@, j.trail@, None),
        run.current matches Current::Waiting(SyncTask::Remove(j)) ==> wraps(r@, j.trail@, None),
        run.current matches Current::Sent(SyncTask::Enter(d)) ==> wraps(r@, d.trail@, None),
        run.current matches Current::Sent(SyncTask::Sweep(j)) ==> wraps(r@, j.trail@, None),
        run.current matches Current::Sent(SyncTask::Upload(j)) ==> wraps(
            r@,
            j.trail@,
            Some("failed to upload "@ + j.host_path@),
        ),
        run.current matches Current::Sent(SyncTask::Remove(j)) ==> wraps(
            r@,
            j.trail@,
            if run.options.reporting is Callbacks {
                Some("failed to remove "@ + j.device_path@)
            } else {
                None
            },
        ),
{
    assert(text::views(r@).len() == r@.len());
    let own = sync_run::own_context(run.options.reporting, run@.current, point);
    match run.current {
        Current::Idle => {},
        Current::Waiting(SyncTask::Enter(d)) => {
            lemma_wraps(r@, d.trail@, own);
        },
        Current::Waiting(SyncTask::Upload(j)) => {
            lemma_wraps(r@, j.trail@, own);
        },
        Current::Waiting(SyncTask::Sweep(j)) => {
            lemma_wraps(r@, j.trail@, own);
        },
        Current::Sent(SyncTask::Upload(j)) => {
            lemma_wraps(r@, j.trail@, own);
        },
        Current::Sent(SyncTask::Remove(j)) => {
            lemma_wraps(r@, j.trail@, own);
        },
        Current::Waiting(SyncTask::Remove(j)) => {
            lemma_wraps(r@, j.trail@, own);
        },
        Current::Sent(SyncTask::Enter(d)) => {
            lemma_wraps(r@, d.trail@, own);
        },
        Current::Sent(SyncTask::Sweep(j)) => {
            lemma_wraps(r@, j.trail@, own);
        },
    }
}

} // verus!
