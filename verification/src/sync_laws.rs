//! What holds of every synchronisation run.

use vstd::prelude::*;
use vstd::seq_lib::*;

use crate::name_map;
use crate::sync;
use crate::sync::{DirView, FileAttributes, RemoveView, SweepView, SyncOptions, TaskView, UploadView};
use crate::sync_run;
use crate::sync_run::{ActionView, CurrentView, EventView, RunView};
use crate::sync_tree;
use crate::sync_tree::{Emission, World};

verus! {

/// Whether the tasks hold an upload of the host file at `path`.
pub open spec fn uploads_path(tasks: Seq<TaskView>, path: Seq<char>) -> bool {
    exists|j: UploadView| #[trigger] tasks.contains(TaskView::Upload(j)) && j.host_path == path
}

/// Whether the tasks hold the removal of the device file at `path`.
pub open spec fn removes_path(tasks: Seq<TaskView>, path: Seq<char>) -> bool {
    exists|j: RemoveView| #[trigger] tasks.contains(TaskView::Remove(j)) && j.device_path == path
}

/// A host entry is uploaded if and only if it is a file that the device lacks or
/// holds with a different size.
pub proof fn law_uploaded_iff_missing_or_different(
    dir: DirView,
    host: Seq<(Seq<char>, FileAttributes)>,
    device: Seq<(Seq<char>, FileAttributes)>,
    i: int,
)
    requires
        name_map::distinct_names(host),
        0 <= i < host.len(),
    ensures
        uploads_path(
            sync::uploads(dir, host, device),
            sync::child_path(dir.host_dir, host[i].0),
        ) <==> (!host[i].1.is_dir && (!name_map::map_of(device).contains_key(host[i].0)
            || name_map::map_of(device)[host[i].0].size != host[i].1.size)),
{
    let d = name_map::map_of(device);
    let f = sync::upload_of(dir, d);
    let tasks = sync::uploads(dir, host, device);
    let path = sync::child_path(dir.host_dir, host[i].0);
    if let Some(reason) = sync::upload_reason(host[i].0, host[i].1, d) {
        let job = UploadView {
            host_path: path,
            device_path: sync::child_path(dir.device_dir, host[i].0),
            reason,
            trail: dir.trail,
        };
        sync_tree::lemma_filter_map_member(host, f, i, TaskView::Upload(job));
        assert(tasks.contains(TaskView::Upload(job)));
    }
    if uploads_path(tasks, path) {
        let job = choose|j: UploadView| #[trigger]
            tasks.contains(TaskView::Upload(j)) && j.host_path == path;
        host.lemma_filter_map_contains(f, TaskView::Upload(job));
        let p = choose|p: (Seq<char>, FileAttributes)| #[trigger]
            host.contains(p) && f(p) == Some(TaskView::Upload(job));
        let k = choose|k: int| 0 <= k < host.len() && host[k] == p;
        sync_tree::lemma_child_path_injective(dir.host_dir, p.0, host[i].0);
        name_map::lemma_entry(host, i);
        assert(name_map::named_at(host, host[i].0, k));
    }
}

/// A device entry is removed if and only if removal was asked for and it is a file
/// that the host lacks.
pub proof fn law_removed_iff_extraneous(
    dir: DirView,
    delete: bool,
    host: Seq<(Seq<char>, FileAttributes)>,
    device: Seq<(Seq<char>, FileAttributes)>,
    i: int,
)
    requires
        name_map::distinct_names(device),
        0 <= i < device.len(),
    ensures
        removes_path(
            sync::removals(dir, delete, host, device),
            sync::child_path(dir.device_dir, device[i].0),
        ) <==> (delete && !device[i].1.is_dir && !name_map::map_of(host).contains_key(
            device[i].0,
        )),
{
    let h = name_map::map_of(host);
    let f = sync::remove_of(dir.device_dir, dir.trail, h);
    let tasks = sync::removals(dir, delete, host, device);
    let path = sync::child_path(dir.device_dir, device[i].0);
    if delete && sync::is_extraneous(device[i].0, device[i].1, h) {
        let job = RemoveView { device_path: path, trail: dir.trail };
        sync_tree::lemma_filter_map_member(device, f, i, TaskView::Remove(job));
        assert(tasks.contains(TaskView::Remove(job)));
    }
    if removes_path(tasks, path) {
        let job = choose|j: RemoveView| #[trigger]
            tasks.contains(TaskView::Remove(j)) && j.device_path == path;
        device.lemma_filter_map_contains(f, TaskView::Remove(job));
        let p = choose|p: (Seq<char>, FileAttributes)| #[trigger]
            device.contains(p) && f(p) == Some(TaskView::Remove(job));
        let k = choose|k: int| 0 <= k < device.len() && device[k] == p;
        sync_tree::lemma_child_path_injective(dir.device_dir, p.0, device[i].0);
        name_map::lemma_entry(device, i);
        assert(name_map::named_at(device, device[i].0, k));
    }
}

/// What distinct entries map to is distinct, where no two map to the same.
proof fn lemma_filter_map_distinct<A, B>(s: Seq<A>, f: spec_fn(A) -> Option<B>)
    requires
        forall|i: int, j: int|
            0 <= i < j < s.len() && f(#[trigger] s[i]) is Some ==> f(s[i]) != f(#[trigger] s[j]),
    ensures
        s.filter_map(f).no_duplicates(),
    decreases s.len(),
{
    if s.len() > 0 {
        let rest = s.drop_last();
        assert forall|i: int, j: int|
            0 <= i < j < rest.len() && f(#[trigger] rest[i]) is Some implies f(rest[i]) != f(
            #[trigger] rest[j],
        ) by {
            assert(f(s[i]) != f(s[j]));
        }
        lemma_filter_map_distinct(rest, f);
        if let Some(b) = f(s.last()) {
            let before = rest.filter_map(f);
            sync_tree::lemma_in_filter_map(rest, f, b);
            if before.contains(b) {
                let i = choose|i: int| 0 <= i < rest.len() && f(#[trigger] rest[i]) == Some(b);
                assert(f(s[i]) != f(s[s.len() - 1]));
            }
            assert(s.filter_map(f) =~= before.push(b));
        }
    }
}

/// No file is uploaded twice.
pub proof fn law_uploads_are_distinct(
    dir: DirView,
    host: Seq<(Seq<char>, FileAttributes)>,
    device: Seq<(Seq<char>, FileAttributes)>,
)
    requires
        name_map::distinct_names(host),
    ensures
        sync::uploads(dir, host, device).no_duplicates(),
{
    let f = sync::upload_of(dir, name_map::map_of(device));
    assert forall|i: int, j: int|
        0 <= i < j < host.len() && f(#[trigger] host[i]) is Some implies f(host[i]) != f(
        #[trigger] host[j],
    ) by {
        if f(host[i]) == f(host[j]) {
            sync_tree::lemma_child_path_injective(dir.host_dir, host[i].0, host[j].0);
        }
    }
    lemma_filter_map_distinct(host, f);
}

/// No file is removed twice.
pub proof fn law_removals_are_distinct(
    dir: DirView,
    delete: bool,
    host: Seq<(Seq<char>, FileAttributes)>,
    device: Seq<(Seq<char>, FileAttributes)>,
)
    requires
        name_map::distinct_names(device),
    ensures
        sync::removals(dir, delete, host, device).no_duplicates(),
{
    lemma_removals_distinct(dir.device_dir, dir.trail, name_map::map_of(host), device);
}

proof fn lemma_removals_distinct(
    device_dir: Seq<char>,
    trail: Seq<Seq<char>>,
    host: Map<Seq<char>, FileAttributes>,
    device: Seq<(Seq<char>, FileAttributes)>,
)
    requires
        name_map::distinct_names(device),
    ensures
        device.filter_map(sync::remove_of(device_dir, trail, host)).no_duplicates(),
        device.filter_map(sync::sweep_of(device_dir, trail, host)).no_duplicates(),
{
    let f = sync::remove_of(device_dir, trail, host);
    let g = sync::sweep_of(device_dir, trail, host);
    assert forall|i: int, j: int|
        0 <= i < j < device.len() && f(#[trigger] device[i]) is Some implies f(device[i]) != f(
        #[trigger] device[j],
    ) by {
        if f(device[i]) == f(device[j]) {
            sync_tree::lemma_child_path_injective(device_dir, device[i].0, device[j].0);
        }
    }
    assert forall|i: int, j: int|
        0 <= i < j < device.len() && g(#[trigger] device[i]) is Some implies g(device[i]) != g(
        #[trigger] device[j],
    ) by {
        if g(device[i]) == g(device[j]) {
            sync_tree::lemma_child_path_injective(device_dir, device[i].0, device[j].0);
        }
    }
    lemma_filter_map_distinct(device, f);
    lemma_filter_map_distinct(device, g);
}

/// No task of a directory that is visited occurs twice.
pub proof fn law_tasks_of_directory_are_distinct(
    dir: DirView,
    delete: bool,
    host: Seq<(Seq<char>, FileAttributes)>,
    device: Seq<(Seq<char>, FileAttributes)>,
)
    requires
        name_map::distinct_names(host),
        name_map::distinct_names(device),
    ensures
        sync::dir_tasks(dir, delete, host, device).no_duplicates(),
{
    let a = sync::uploads(dir, host, device);
    let b = sync::visits(dir, host);
    let c = sync::sweeps(dir, delete, host, device);
    let d = sync::removals(dir, delete, host, device);
    law_uploads_are_distinct(dir, host, device);
    let g = sync::enter_of(dir);
    assert forall|i: int, j: int|
        0 <= i < j < host.len() && g(#[trigger] host[i]) is Some implies g(host[i]) != g(
        #[trigger] host[j],
    ) by {
        if g(host[i]) == g(host[j]) {
            sync_tree::lemma_child_path_injective(dir.host_dir, host[i].0, host[j].0);
        }
    }
    lemma_filter_map_distinct(host, g);
    lemma_removals_distinct(dir.device_dir, dir.trail, name_map::map_of(host), device);
    assert forall|i: int| 0 <= i < a.len() implies #[trigger] a[i] is Upload by {
        assert(a.contains(a[i]));
        sync_tree::lemma_in_filter_map(
            host,
            sync::upload_of(dir, name_map::map_of(device)),
            a[i],
        );
    }
    assert forall|i: int| 0 <= i < b.len() implies #[trigger] b[i] is Enter by {
        assert(b.contains(b[i]));
        sync_tree::lemma_in_filter_map(host, g, b[i]);
    }
    assert forall|i: int| 0 <= i < c.len() implies #[trigger] c[i] is Sweep by {
        assert(c.contains(c[i]));
        sync_tree::lemma_in_filter_map(
            device,
            sync::sweep_of(dir.device_dir, dir.trail, name_map::map_of(host)),
            c[i],
        );
    }
    assert forall|i: int| 0 <= i < d.len() implies #[trigger] d[i] is Remove by {
        assert(d.contains(d[i]));
        sync_tree::lemma_in_filter_map(
            device,
            sync::remove_of(dir.device_dir, dir.trail, name_map::map_of(host)),
            d[i],
        );
    }
    lemma_no_dup_in_concat(a, b);
    lemma_no_dup_in_concat(a + b, c);
    lemma_no_dup_in_concat(a + b + c, d);
}

/// No task of a directory that is swept occurs twice.
pub proof fn law_tasks_of_sweep_are_distinct(
    sweep: SweepView,
    device: Seq<(Seq<char>, FileAttributes)>,
)
    requires
        name_map::distinct_names(device),
    ensures
        sync::sweep_tasks(sweep, device).no_duplicates(),
{
    let k = sync::sweep_of(sweep.device_dir, sweep.trail, Map::empty());
    let h = sync::remove_of(sweep.device_dir, sweep.trail, Map::empty());
    let c = device.filter_map(k);
    let d = device.filter_map(h);
    lemma_removals_distinct(sweep.device_dir, sweep.trail, Map::empty(), device);
    assert forall|i: int| 0 <= i < c.len() implies #[trigger] c[i] is Sweep by {
        assert(c.contains(c[i]));
        sync_tree::lemma_in_filter_map(device, k, c[i]);
    }
    assert forall|i: int| 0 <= i < d.len() implies #[trigger] d[i] is Remove by {
        assert(d.contains(d[i]));
        sync_tree::lemma_in_filter_map(device, h, d[i]);
    }
    lemma_no_dup_in_concat(c, d);
}

/// A dry run never asks for a change of the device to be performed.
pub proof fn law_dry_run_changes_nothing(options: SyncOptions, run: RunView, event: EventView)
    requires
        options.dry_run,
    ensures
        match sync_run::next(options, run, event).1.action {
            ActionView::Upload { host_path, device_path, perform } => !perform,
            ActionView::Remove { device_path, perform } => !perform,
            _ => true,
        },
{
}

/// An emission, whether or not what it asks for is to be performed.
pub open spec fn planned(e: Emission) -> Emission {
    match e {
        Emission::Act(ActionView::Upload { host_path, device_path, perform }) => Emission::Act(
            ActionView::Upload { host_path, device_path, perform: true },
        ),
        Emission::Act(ActionView::Remove { device_path, perform }) => Emission::Act(
            ActionView::Remove { device_path, perform: true },
        ),
        _ => e,
    }
}

/// The settings with or without a dry run.
pub open spec fn with_dry_run(options: SyncOptions, dry_run: bool) -> SyncOptions {
    SyncOptions { dry_run, ..options }
}

/// Where uploads are reported in lines, a dry run goes through the same states as a
/// run that performs its changes, shows the same lines, and asks for the same, but for
/// whether it is to be performed.
pub proof fn law_dry_run_shows_what_a_run_does(
    w: World,
    options: SyncOptions,
    run: RunView,
    n: nat,
)
    requires
        sync_run::shows_upload(with_dry_run(options, false)),
    ensures
        ({
            let (end, all) = sync_tree::run_for(w, with_dry_run(options, false), run, n);
            let (dry_end, dry_all) = sync_tree::run_for(w, with_dry_run(options, true), run, n);
            &&& dry_end == end
            &&& dry_all.map_values(|e: Emission| planned(e)) == all.map_values(
                |e: Emission| planned(e),
            )
        }),
    decreases n,
{
    if n > 0 {
        let event = sync_tree::answer(w, run.current);
        let wet = with_dry_run(options, false);
        let dry = with_dry_run(options, true);
        let (after, step) = sync_run::next(wet, run, event);
        let (dry_after, dry_step) = sync_run::next(dry, run, event);
        assert(dry_after == after && dry_step.lines == step.lines);
        law_dry_run_shows_what_a_run_does(w, options, after, (n - 1) as nat);
        let f = |e: Emission| planned(e);
        let rest = sync_tree::run_for(w, wet, after, (n - 1) as nat).1;
        let dry_rest = sync_tree::run_for(w, dry, after, (n - 1) as nat).1;
        let own = sync_tree::emitted(step);
        let dry_own = sync_tree::emitted(dry_step);
        assert(dry_own.map_values(f) =~= own.map_values(f));
        assert((own + rest).map_values(f) =~= own.map_values(f) + rest.map_values(f));
        assert((dry_own + dry_rest).map_values(f) =~= dry_own.map_values(f) + dry_rest.map_values(
            f,
        ));
    }
}

/// A dry run reports every change in a line of the step that asks for it. So does any
/// run of a removal, and of an upload unless it shows a progress bar.
pub proof fn law_changes_are_reported(options: SyncOptions, run: RunView, event: EventView)
    ensures
        ({
            let step = sync_run::next(options, run, event).1;
            match step.action {
                ActionView::Upload { host_path, device_path, perform } => (options.dry_run
                    || sync_run::shows_upload(options)) ==> exists|job: UploadView, size: nat|
                    job.host_path == host_path && job.device_path == device_path && step.lines
                        == seq![
                        #[trigger] sync_run::upload_line(options.reporting, job, size),
                    ],
                ActionView::Remove { device_path, perform } => step.lines.len() > 0
                    && step.lines.last() == sync_run::removal_line(device_path),
                _ => true,
            }
        }),
{
    if let ActionView::Upload { host_path, device_path, perform } = sync_run::next(
        options,
        run,
        event,
    ).1.action {
        let job = run.current->Waiting_0->Upload_0;
        let line = sync_run::upload_line(options.reporting, job, event->Read_size);
        assert(job.host_path == host_path && job.device_path == device_path);
        if sync_run::shows_upload(options) {
            assert(sync_run::next(options, run, event).1.lines == seq![line]);
        }
    }
}

/// Whether a task removes nothing and leads to no removal.
pub open spec fn removes_nothing(task: TaskView) -> bool {
    !(task is Remove) && !(task is Sweep)
}

/// Whether neither the current task nor a pending one is a removal or a sweep.
pub open spec fn removal_free(run: RunView) -> bool {
    &&& forall|i: int| 0 <= i < run.pending.len() ==> removes_nothing(#[trigger] run.pending[i])
    &&& match run.current {
        CurrentView::Idle => true,
        CurrentView::Waiting(t) => removes_nothing(t),
        CurrentView::Sent(t) => removes_nothing(t),
    }
}

/// Without `delete` no step ever asks for a removal or sweeps a directory: nothing of
/// the kind is pending at the start, and nothing comes to be.
pub proof fn law_without_delete_nothing_is_removed(
    options: SyncOptions,
    host_dir: Seq<char>,
    device_dir: Seq<char>,
    run: RunView,
    event: EventView,
)
    requires
        !options.delete,
    ensures
        removal_free(sync_run::start(host_dir, device_dir)),
        removal_free(run) ==> removal_free(sync_run::next(options, run, event).0)
            && !(sync_run::next(options, run, event).1.action is Remove) && !(sync_run::next(
            options,
            run,
            event,
        ).1.action is ListDevice),
{
    if removal_free(run) {
        match (run.current, event) {
            (CurrentView::Waiting(TaskView::Enter(d)), EventView::Listed { host, device }) => {
                let tasks = sync::dir_tasks(d, false, host, device);
                assert forall|i: int| 0 <= i < tasks.len() implies removes_nothing(
                    #[trigger] tasks[i],
                ) by {
                    let a = sync::uploads(d, host, device);
                    let b = sync::visits(d, host);
                    if i < a.len() {
                        assert(a.contains(a[i]));
                        host.lemma_filter_map_contains(
                            sync::upload_of(d, name_map::map_of(device)),
                            a[i],
                        );
                    } else {
                        assert(tasks[i] == b[i - a.len()]);
                        assert(b.contains(b[i - a.len()]));
                        host.lemma_filter_map_contains(sync::enter_of(d), b[i - a.len()]);
                    }
                }
                let all = run.pending + tasks.reverse();
                assert forall|i: int| 0 <= i < all.len() implies removes_nothing(#[trigger] all[i]) by {
                    if i >= run.pending.len() {
                        assert(all[i] == tasks[tasks.len() - 1 - (i - run.pending.len())]);
                    }
                }
            },
            _ => {},
        }
    }
}

/// The device's listing of a directory once its uploads and removals are done: it
/// holds each uploaded file as the host does, and its other entries but for those
/// that were removed.
pub open spec fn synced(
    host: Map<Seq<char>, FileAttributes>,
    device: Map<Seq<char>, FileAttributes>,
    delete: bool,
) -> Map<Seq<char>, FileAttributes> {
    Map::new(
        |name: Seq<char>|
            is_uploaded(name, host, device) || (device.contains_key(name) && !(delete
                && sync::is_extraneous(name, device[name], host))),
        |name: Seq<char>|
            if is_uploaded(name, host, device) {
                host[name]
            } else {
                device[name]
            },
    )
}

/// Whether the host has an entry of this name that is uploaded.
pub open spec fn is_uploaded(
    name: Seq<char>,
    host: Map<Seq<char>, FileAttributes>,
    device: Map<Seq<char>, FileAttributes>,
) -> bool {
    host.contains_key(name) && sync::upload_reason(name, host[name], device) is Some
}

/// The files of the device, by path, after the changes that the tasks ask for. An
/// uploaded file has the size that the host file has.
pub open spec fn applied(
    files: Map<Seq<char>, FileAttributes>,
    tasks: Seq<TaskView>,
    size: spec_fn(Seq<char>) -> u64,
) -> Map<Seq<char>, FileAttributes>
    decreases tasks.len(),
{
    if tasks.len() == 0 {
        files
    } else {
        let before = applied(files, tasks.drop_last(), size);
        match tasks.last() {
            TaskView::Upload(j) => before.insert(
                j.device_path,
                FileAttributes { size: size(j.host_path), is_dir: false },
            ),
            TaskView::Remove(j) => before.remove(j.device_path),
            _ => before,
        }
    }
}

/// Whether the files below `dir` are those that the listing has.
pub open spec fn lists(
    files: Map<Seq<char>, FileAttributes>,
    dir: Seq<char>,
    listing: Map<Seq<char>, FileAttributes>,
) -> bool {
    forall|name: Seq<char>|
        #![trigger sync::child_path(dir, name)]
        {
            &&& files.contains_key(sync::child_path(dir, name)) == listing.contains_key(name)
            &&& listing.contains_key(name) ==> files[sync::child_path(dir, name)] == listing[name]
        }
}

proof fn lemma_applied_append(
    files: Map<Seq<char>, FileAttributes>,
    a: Seq<TaskView>,
    b: Seq<TaskView>,
    size: spec_fn(Seq<char>) -> u64,
)
    ensures
        applied(files, a + b, size) == applied(applied(files, a, size), b, size),
    decreases b.len(),
{
    if b.len() == 0 {
        assert(a + b =~= a);
    } else {
        lemma_applied_append(files, a, b.drop_last(), size);
        assert((a + b).drop_last() =~= a + b.drop_last());
        assert((a + b).last() == b.last());
    }
}

/// Uploads put each uploaded file in place and leave every other path as it was.
proof fn lemma_applied_uploads(
    files: Map<Seq<char>, FileAttributes>,
    dir: DirView,
    host: Seq<(Seq<char>, FileAttributes)>,
    device: Map<Seq<char>, FileAttributes>,
    size: spec_fn(Seq<char>) -> u64,
    name: Seq<char>,
)
    requires
        name_map::distinct_names(host),
        forall|i: int|
            0 <= i < host.len() && !host[i].1.is_dir ==> size(
                sync::child_path(dir.host_dir, (#[trigger] host[i]).0),
            ) == host[i].1.size,
    ensures
        ({
            let path = sync::child_path(dir.device_dir, name);
            let after = applied(files, host.filter_map(sync::upload_of(dir, device)), size);
            let hit = exists|i: int|
                name_map::named_at(host, name, i) && sync::upload_reason(name, host[i].1, device)
                    is Some;
            &&& hit ==> after.contains_key(path) && forall|i: int| #[trigger]
                name_map::named_at(host, name, i) ==> after[path] == host[i].1
            &&& !hit ==> after.contains_key(path) == files.contains_key(path) && (
            files.contains_key(path) ==> after[path] == files[path])
        }),
    decreases host.len(),
{
    let path = sync::child_path(dir.device_dir, name);
    let f = sync::upload_of(dir, device);
    if host.len() > 0 {
        let rest = host.drop_last();
        let last = host.last();
        let n = host.len() - 1;
        assert forall|i: int| 0 <= i < rest.len() implies #[trigger] rest[i] == host[i] by {}
        assert forall|i: int, j: int| 0 <= i < j < rest.len() implies #[trigger] rest[i].0
            != #[trigger] rest[j].0 by {
            assert(host[i].0 != host[j].0);
        }
        lemma_applied_uploads(files, dir, rest, device, size, name);
        assert forall|i: int| #[trigger] name_map::named_at(rest, name, i) implies name_map::named_at(
            host,
            name,
            i,
        ) by {}
        assert forall|i: int| #[trigger]
            name_map::named_at(host, name, i) && i != n implies name_map::named_at(rest, name, i) by {}
        if last.0 == name {
            assert(name_map::named_at(host, name, n));
            name_map::lemma_entry(host, n);
        }
        if let Some(task) = f(last) {
            let tasks = host.filter_map(f);
            assert(tasks =~= rest.filter_map(f).push(task));
            assert(tasks.drop_last() =~= rest.filter_map(f));
            assert(size(sync::child_path(dir.host_dir, host[n].0)) == host[n].1.size);
            if last.0 != name {
                if path == sync::child_path(dir.device_dir, last.0) {
                    sync_tree::lemma_child_path_injective(dir.device_dir, name, last.0);
                }
            }
        }
    }
}

/// Removals take the extraneous files away and leave every other path as it was.
proof fn lemma_applied_removals(
    files: Map<Seq<char>, FileAttributes>,
    dir: DirView,
    host: Map<Seq<char>, FileAttributes>,
    device: Seq<(Seq<char>, FileAttributes)>,
    size: spec_fn(Seq<char>) -> u64,
    name: Seq<char>,
)
    ensures
        ({
            let path = sync::child_path(dir.device_dir, name);
            let after = applied(
                files,
                device.filter_map(sync::remove_of(dir.device_dir, dir.trail, host)),
                size,
            );
            let hit = exists|i: int|
                name_map::named_at(device, name, i) && sync::is_extraneous(
                    name,
                    device[i].1,
                    host,
                );
            &&& hit ==> !after.contains_key(path)
            &&& !hit ==> after.contains_key(path) == files.contains_key(path) && (
            files.contains_key(path) ==> after[path] == files[path])
        }),
    decreases device.len(),
{
    let path = sync::child_path(dir.device_dir, name);
    let f = sync::remove_of(dir.device_dir, dir.trail, host);
    if device.len() > 0 {
        let rest = device.drop_last();
        let last = device.last();
        let n = device.len() - 1;
        lemma_applied_removals(files, dir, host, rest, size, name);
        assert forall|i: int| #[trigger] name_map::named_at(rest, name, i) implies name_map::named_at(
            device,
            name,
            i,
        ) && rest[i] == device[i] by {}
        assert forall|i: int| #[trigger]
            name_map::named_at(device, name, i) && i != n implies name_map::named_at(rest, name, i)
            && rest[i] == device[i] by {}
        if last.0 == name {
            assert(name_map::named_at(device, name, n));
        }
        if let Some(task) = f(last) {
            let tasks = device.filter_map(f);
            assert(tasks =~= rest.filter_map(f).push(task));
            assert(tasks.drop_last() =~= rest.filter_map(f));
            if last.0 != name {
                if path == sync::child_path(dir.device_dir, last.0) {
                    sync_tree::lemma_child_path_injective(dir.device_dir, name, last.0);
                }
            }
        }
    }
}

/// Performing the uploads and removals of a directory turns the device's files in it
/// into the synchronised listing.
pub proof fn law_tasks_synchronise_directory(
    files: Map<Seq<char>, FileAttributes>,
    dir: DirView,
    delete: bool,
    host: Seq<(Seq<char>, FileAttributes)>,
    device: Seq<(Seq<char>, FileAttributes)>,
    size: spec_fn(Seq<char>) -> u64,
)
    requires
        name_map::distinct_names(host),
        name_map::distinct_names(device),
        lists(files, dir.device_dir, name_map::map_of(device)),
        forall|i: int|
            0 <= i < host.len() && !host[i].1.is_dir ==> size(
                sync::child_path(dir.host_dir, (#[trigger] host[i]).0),
            ) == host[i].1.size,
    ensures
        lists(
            applied(
                files,
                sync::uploads(dir, host, device) + sync::removals(dir, delete, host, device),
                size,
            ),
            dir.device_dir,
            synced(name_map::map_of(host), name_map::map_of(device), delete),
        ),
{
    let h = name_map::map_of(host);
    let d = name_map::map_of(device);
    let ups = sync::uploads(dir, host, device);
    let rms = sync::removals(dir, delete, host, device);
    let mid = applied(files, ups, size);
    let after = applied(files, ups + rms, size);
    let goal = synced(h, d, delete);
    lemma_applied_append(files, ups, rms, size);
    assert forall|name: Seq<char>|
        #![trigger sync::child_path(dir.device_dir, name)]
        {
            let path = sync::child_path(dir.device_dir, name);
            &&& after.contains_key(path) == goal.contains_key(name)
            &&& goal.contains_key(name) ==> after[path] == goal[name]
        } by {
        lemma_applied_uploads(files, dir, host, d, size, name);
        if delete {
            lemma_applied_removals(mid, dir, h, device, size, name);
        }
        if h.contains_key(name) {
            let i = name_map::lemma_position(host, name);
        }
        if d.contains_key(name) {
            let i = name_map::lemma_position(device, name);
        }
        assert forall|i: int| #[trigger] name_map::named_at(host, name, i) implies h.contains_key(
            name,
        ) && h[name] == host[i].1 by {
            name_map::lemma_entry(host, i);
        }
        assert forall|i: int| #[trigger] name_map::named_at(device, name, i) implies d.contains_key(
            name,
        ) && d[name] == device[i].1 by {
            name_map::lemma_entry(device, i);
        }
    }
}

/// A directory that was synchronised needs no upload, and no removal either where
/// removals were asked for.
pub proof fn law_synced_directory_is_settled(
    dir: DirView,
    delete: bool,
    host: Seq<(Seq<char>, FileAttributes)>,
    device: Seq<(Seq<char>, FileAttributes)>,
    after: Seq<(Seq<char>, FileAttributes)>,
)
    requires
        name_map::distinct_names(host),
        name_map::distinct_names(device),
        name_map::distinct_names(after),
        name_map::map_of(after) == synced(
            name_map::map_of(host),
            name_map::map_of(device),
            delete,
        ),
    ensures
        sync::uploads(dir, host, after) == Seq::<TaskView>::empty(),
        sync::removals(dir, delete, host, after) == Seq::<TaskView>::empty(),
{
    let h = name_map::map_of(host);
    let a = name_map::map_of(after);
    let ups = sync::uploads(dir, host, after);
    let f = sync::upload_of(dir, a);
    if ups.len() > 0 {
        assert(ups.contains(ups[0]));
        host.lemma_filter_map_contains(f, ups[0]);
        let p = choose|p: (Seq<char>, FileAttributes)| #[trigger]
            host.contains(p) && f(p) == Some(ups[0]);
        let k = choose|k: int| 0 <= k < host.len() && host[k] == p;
        name_map::lemma_entry(host, k);
    }
    let rms = sync::removals(dir, delete, host, after);
    let g = sync::remove_of(dir.device_dir, dir.trail, h);
    if rms.len() > 0 {
        assert(rms.contains(rms[0]));
        after.lemma_filter_map_contains(g, rms[0]);
        let p = choose|p: (Seq<char>, FileAttributes)| #[trigger]
            after.contains(p) && g(p) == Some(rms[0]);
        let k = choose|k: int| 0 <= k < after.len() && after[k] == p;
        name_map::lemma_entry(after, k);
    }
    assert(ups =~= Seq::<TaskView>::empty());
    assert(rms =~= Seq::<TaskView>::empty());
}

/// Whether a task touches nothing but a device directory and what is below it.
pub open spec fn task_below(root: Seq<char>, task: TaskView) -> bool {
    match task {
        TaskView::Enter(d) => d.device_dir == root || (root + "/"@).is_prefix_of(d.device_dir),
        TaskView::Upload(j) => (root + "/"@).is_prefix_of(j.device_path),
        TaskView::Sweep(j) => (root + "/"@).is_prefix_of(j.device_dir),
        TaskView::Remove(j) => (root + "/"@).is_prefix_of(j.device_path),
    }
}

/// Whether the current task and each pending one are below a device directory.
pub open spec fn run_below(root: Seq<char>, run: RunView) -> bool {
    &&& forall|i: int| 0 <= i < run.pending.len() ==> task_below(root, #[trigger] run.pending[i])
    &&& match run.current {
        CurrentView::Idle => true,
        CurrentView::Waiting(t) => task_below(root, t),
        CurrentView::Sent(t) => task_below(root, t),
    }
}

proof fn lemma_child_below(root: Seq<char>, dir: Seq<char>, name: Seq<char>)
    requires
        dir == root || (root + "/"@).is_prefix_of(dir),
    ensures
        (root + "/"@).is_prefix_of(sync::child_path(dir, name)),
{
    let head = root + "/"@;
    let path = sync::child_path(dir, name);
    if dir == root {
        assert(path.subrange(0, head.len() as int) =~= head);
    } else {
        assert(path.subrange(0, head.len() as int) =~= dir.subrange(0, head.len() as int));
    }
}

/// A run changes and lists nothing on the device but the directory that it was made
/// for and what is below it.
pub proof fn law_run_stays_below_device_dir(
    options: SyncOptions,
    host_dir: Seq<char>,
    device_dir: Seq<char>,
    run: RunView,
    event: EventView,
)
    ensures
        run_below(device_dir, sync_run::start(host_dir, device_dir)),
        run_below(device_dir, run) ==> run_below(device_dir, sync_run::next(options, run, event).0)
            && match sync_run::next(options, run, event).1.action {
            ActionView::List { host_dir, device_dir: dir } => dir == device_dir || (device_dir
                + "/"@).is_prefix_of(dir),
            ActionView::ListDevice { device_dir: dir } => (device_dir + "/"@).is_prefix_of(dir),
            ActionView::Upload { host_path, device_path, perform } => (device_dir
                + "/"@).is_prefix_of(device_path),
            ActionView::Remove { device_path, perform } => (device_dir + "/"@).is_prefix_of(
                device_path,
            ),
            _ => true,
        },
{
    if run_below(device_dir, run) {
        match (run.current, event) {
            (CurrentView::Waiting(TaskView::Enter(d)), EventView::Listed { host, device }) => {
                let tasks = sync::dir_tasks(d, options.delete, host, device);
                assert forall|i: int| 0 <= i < tasks.len() implies task_below(
                    device_dir,
                    #[trigger] tasks[i],
                ) by {
                    assert(tasks.contains(tasks[i]));
                    sync_tree::lemma_dir_task(d, options.delete, host, device, tasks[i]);
                    let name = choose|name: Seq<char>| #[trigger]
                        sync_tree::task_of_entry(d.device_dir, tasks[i], name);
                    lemma_child_below(device_dir, d.device_dir, name);
                }
                lemma_below_append(device_dir, run.pending, tasks);
            },
            (CurrentView::Waiting(TaskView::Sweep(j)), EventView::ListedDevice { device }) => {
                let tasks = sync::sweep_tasks(j, device);
                assert forall|i: int| 0 <= i < tasks.len() implies task_below(
                    device_dir,
                    #[trigger] tasks[i],
                ) by {
                    assert(tasks.contains(tasks[i]));
                    sync_tree::lemma_sweep_task(j, device, tasks[i]);
                    let name = choose|name: Seq<char>| #[trigger]
                        sync_tree::task_of_entry(j.device_dir, tasks[i], name);
                    lemma_child_below(device_dir, j.device_dir, name);
                }
                lemma_below_append(device_dir, run.pending, tasks);
            },
            _ => {},
        }
    }
}

proof fn lemma_below_append(root: Seq<char>, pending: Seq<TaskView>, tasks: Seq<TaskView>)
    requires
        forall|i: int| 0 <= i < pending.len() ==> task_below(root, #[trigger] pending[i]),
        forall|i: int| 0 <= i < tasks.len() ==> task_below(root, #[trigger] tasks[i]),
    ensures
        ({
            let all = pending + tasks.reverse();
            forall|i: int| 0 <= i < all.len() ==> task_below(root, #[trigger] all[i])
        }),
{
    let all = pending + tasks.reverse();
    assert forall|i: int| 0 <= i < all.len() implies task_below(root, #[trigger] all[i]) by {
        if i >= pending.len() {
            assert(all[i] == tasks[tasks.len() - 1 - (i - pending.len())]);
        }
    }
}

} // verus!
