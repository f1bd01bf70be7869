//! That a synchronisation run changes no device path twice, and lists no device directory
//! twice.

use vstd::prelude::*;

use crate::name_map;
use crate::sync;
use crate::sync::{DirView, FileAttributes, SweepView, SyncOptions, TaskView};
use crate::sync_laws;
use crate::sync_run;
use crate::sync_run::{ActionView, CurrentView};
use crate::sync_tree;
use crate::sync_tree::{Emission, World};

verus! {

/// Whether no name in a listing occurs twice or holds a separator.
pub open spec fn is_plain(listing: Seq<(Seq<char>, FileAttributes)>) -> bool {
    &&& name_map::distinct_names(listing)
    &&& forall|i: int| 0 <= i < listing.len() ==> !(#[trigger] listing[i]).0.contains('/')
}

/// Whether every listing of the two sides is plain.
pub open spec fn is_plain_world(w: World) -> bool {
    &&& forall|dir: Seq<char>| is_plain(#[trigger] (w.host)(dir))
    &&& forall|dir: Seq<char>| is_plain(#[trigger] (w.device)(dir))
}

/// The device path that an emission asks to change.
pub open spec fn changed_path(e: Emission) -> Option<Seq<char>> {
    match e {
        Emission::Act(ActionView::Upload { host_path, device_path, perform }) => Some(device_path),
        Emission::Act(ActionView::Remove { device_path, perform }) => Some(device_path),
        _ => None,
    }
}

/// The device directory that an emission asks to list.
pub open spec fn listed_dir(e: Emission) -> Option<Seq<char>> {
    match e {
        Emission::Act(ActionView::List { host_dir, device_dir }) => Some(device_dir),
        Emission::Act(ActionView::ListDevice { device_dir }) => Some(device_dir),
        _ => None,
    }
}

/// The device path that an emission asks to list, or to change.
pub open spec fn touched(listing: bool, e: Emission) -> Option<Seq<char>> {
    if listing {
        listed_dir(e)
    } else {
        changed_path(e)
    }
}

/// Whether no two emissions ask to list, or to change, the same device path.
pub open spec fn touches_once(listing: bool, s: Seq<Emission>) -> bool {
    forall|i: int, j: int|
        0 <= i < j < s.len() && touched(listing, #[trigger] s[i]) is Some ==> touched(listing, s[i])
            != touched(listing, #[trigger] s[j])
}

/// Whether a path is the one given, or below it.
spec fn at_or_below(path: Seq<char>, p: Seq<char>) -> bool {
    p == path || (path + "/"@).is_prefix_of(p)
}

/// The device path that a task is about.
spec fn path_of(task: TaskView) -> Seq<char> {
    match task {
        TaskView::Enter(d) => d.device_dir,
        TaskView::Upload(j) => j.device_path,
        TaskView::Sweep(j) => j.device_dir,
        TaskView::Remove(j) => j.device_path,
    }
}

/// Whether a task may touch a device path. An upload or a removal changes its own path, a
/// directory those below it. A directory lists itself and those below it.
spec fn may_touch(listing: bool, task: TaskView, p: Seq<char>) -> bool {
    if listing {
        sync_tree::opens(task) && at_or_below(path_of(task), p)
    } else if sync_tree::opens(task) {
        (path_of(task) + "/"@).is_prefix_of(p)
    } else {
        p == path_of(task)
    }
}

/// Whether one of the tasks may touch a device path.
spec fn may_be_touched(listing: bool, tasks: Seq<TaskView>, p: Seq<char>) -> bool {
    exists|i: int| 0 <= i < tasks.len() && may_touch(listing, #[trigger] tasks[i], p)
}

/// Whether no device path may be touched by two of the tasks.
spec fn are_apart(listing: bool, tasks: Seq<TaskView>) -> bool {
    forall|i: int, j: int, p: Seq<char>|
        0 <= i < j < tasks.len() && #[trigger] may_touch(listing, tasks[i], p)
            ==> !#[trigger] may_touch(listing, tasks[j], p)
}

/// Paths that are at or below entries of one directory with different names differ.
proof fn lemma_names_apart(dir: Seq<char>, a: Seq<char>, b: Seq<char>, p: Seq<char>)
    requires
        !a.contains('/'),
        !b.contains('/'),
        at_or_below(sync::child_path(dir, a), p),
        at_or_below(sync::child_path(dir, b), p),
    ensures
        a == b,
{
    reveal_strlit("/");
    let k = dir.len() as int + 1;
    lemma_name_in_path(dir, a, p);
    lemma_name_in_path(dir, b, p);
    if a.len() < b.len() {
        assert(b[a.len() as int] == p[k + a.len()]);
        assert(b.contains('/'));
    }
    if b.len() < a.len() {
        assert(a[b.len() as int] == p[k + b.len()]);
        assert(a.contains('/'));
    }
    assert(a =~= b);
}

/// A path at or below an entry holds the entry's name after its directory, and ends
/// there or goes on with a separator.
proof fn lemma_name_in_path(dir: Seq<char>, a: Seq<char>, p: Seq<char>)
    requires
        at_or_below(sync::child_path(dir, a), p),
    ensures
        p.len() >= dir.len() + 1 + a.len(),
        forall|i: int| 0 <= i < a.len() ==> #[trigger] a[i] == p[dir.len() + 1 + i],
        p.len() > dir.len() + 1 + a.len() ==> p[(dir.len() + 1 + a.len()) as int] == '/',
{
    reveal_strlit("/");
    let path = sync::child_path(dir, a);
    assert(path.len() == dir.len() + 1 + a.len());
    assert forall|i: int| 0 <= i < a.len() implies #[trigger] a[i] == p[dir.len() + 1 + i] by {
        assert(path[dir.len() + 1 + i] == a[i]);
        if p != path {
            let head = path + "/"@;
            assert(head[dir.len() + 1 + i] == path[dir.len() + 1 + i]);
            assert(p.subrange(0, head.len() as int)[dir.len() + 1 + i] == head[dir.len() + 1 + i]);
        }
    }
    if p != path {
        let head = path + "/"@;
        assert(head[path.len() as int] == '/');
        assert(p.subrange(0, head.len() as int)[path.len() as int] == '/');
    }
}

/// What a task about an entry may change is at or below the entry.
proof fn lemma_change_at_entry(
    listing: bool,
    device_dir: Seq<char>,
    task: TaskView,
    name: Seq<char>,
    p: Seq<char>,
)
    requires
        sync_tree::task_of_entry(device_dir, task, name),
        may_touch(listing, task, p),
    ensures
        at_or_below(sync::child_path(device_dir, name), p),
        (device_dir + "/"@).is_prefix_of(p),
{
    reveal_strlit("/");
    let head = device_dir + "/"@;
    let path = sync::child_path(device_dir, name);
    assert(path.subrange(0, head.len() as int) =~= head);
    if p != path {
        let longer = path + "/"@;
        assert(longer.subrange(0, head.len() as int) =~= head);
        assert(p.subrange(0, head.len() as int) =~= p.subrange(0, longer.len() as int).subrange(
            0,
            head.len() as int,
        ));
    }
}

/// An upload of a file and the sweep of a directory of its name change different paths.
proof fn lemma_file_is_not_below(path: Seq<char>)
    ensures
        !(path + "/"@).is_prefix_of(path),
{
    reveal_strlit("/");
}

/// The name of the entry that a task of a directory is about.
proof fn lemma_entry_of_task(w: World, delete: bool, dir: DirView, task: TaskView) -> (r: (
    Seq<char>,
    int,
))
    requires
        sync_tree::is_task_in(w, delete, dir, task),
    ensures
        ({
            let host = (w.host)(dir.host_dir);
            let device = (w.device)(dir.device_dir);
            let (name, i) = r;
            &&& sync_tree::task_of_entry(dir.device_dir, task, name)
            &&& match task {
                TaskView::Enter(sub) => 0 <= i < host.len() && host[i].0 == name
                    && host[i].1.is_dir && sub == sync::sub_dir(dir, name),
                TaskView::Upload(j) => {
                    &&& 0 <= i < host.len()
                    &&& host[i].0 == name
                    &&& !host[i].1.is_dir
                    &&& j.host_path == sync::child_path(dir.host_dir, name)
                    &&& j.trail == dir.trail
                    &&& sync::upload_reason(name, host[i].1, name_map::map_of(device)) == Some(
                        j.reason,
                    )
                },
                TaskView::Sweep(j) => {
                    &&& 0 <= i < device.len()
                    &&& device[i].0 == name
                    &&& device[i].1.is_dir
                    &&& !(name_map::map_of(host).contains_key(name) && name_map::map_of(
                        host,
                    )[name].is_dir)
                    &&& j.trail == dir.trail
                },
                TaskView::Remove(j) => {
                    &&& 0 <= i < device.len()
                    &&& device[i].0 == name
                    &&& !device[i].1.is_dir
                    &&& !name_map::map_of(host).contains_key(name)
                    &&& j.trail == dir.trail
                },
            }
        }),
{
    let host = (w.host)(dir.host_dir);
    let device = (w.device)(dir.device_dir);
    match task {
        TaskView::Enter(sub) => {
            let i = choose|i: int| sync_tree::is_sub_dir(w, dir, i, sub);
            (host[i].0, i)
        },
        TaskView::Upload(j) => {
            let i = choose|i: int| #[trigger]
                sync_tree::calls_for_upload(w, dir, i, j.host_path, j.device_path)
                    && sync::upload_reason(host[i].0, host[i].1, name_map::map_of(device)) == Some(
                    j.reason,
                );
            (host[i].0, i)
        },
        TaskView::Sweep(j) => {
            let i = choose|i: int| sync_tree::is_unmatched_sub_dir(w, dir, i, j);
            (device[i].0, i)
        },
        TaskView::Remove(j) => {
            let i = choose|i: int| sync_tree::calls_for_removal(w, dir, i, j.device_path);
            (device[i].0, i)
        },
    }
}

/// Two tasks of a directory that may change the same path are the same.
proof fn lemma_tasks_in_apart(
    listing: bool,
    w: World,
    delete: bool,
    dir: DirView,
    a: TaskView,
    b: TaskView,
    p: Seq<char>,
)
    requires
        is_plain_world(w),
        sync_tree::is_task_in(w, delete, dir, a),
        sync_tree::is_task_in(w, delete, dir, b),
        may_touch(listing, a, p),
        may_touch(listing, b, p),
    ensures
        a == b,
{
    let host = (w.host)(dir.host_dir);
    let device = (w.device)(dir.device_dir);
    let (x, i) = lemma_entry_of_task(w, delete, dir, a);
    let (y, j) = lemma_entry_of_task(w, delete, dir, b);
    assert(is_plain(host) && is_plain(device));
    lemma_change_at_entry(listing, dir.device_dir, a, x, p);
    lemma_change_at_entry(listing, dir.device_dir, b, y, p);
    lemma_names_apart(dir.device_dir, x, y, p);
    if a is Enter || a is Upload {
        name_map::lemma_entry(host, i);
    } else {
        name_map::lemma_entry(device, i);
    }
    if b is Enter || b is Upload {
        name_map::lemma_entry(host, j);
    } else {
        name_map::lemma_entry(device, j);
    }
    lemma_file_is_not_below(sync::child_path(dir.device_dir, x));
}

/// Two tasks of a directory that is swept which may change the same path are the same.
proof fn lemma_tasks_of_sweep_apart(
    listing: bool,
    w: World,
    sweep: SweepView,
    a: TaskView,
    b: TaskView,
    p: Seq<char>,
)
    requires
        is_plain_world(w),
        sync_tree::is_task_of_sweep(w, sweep, a),
        sync_tree::is_task_of_sweep(w, sweep, b),
        may_touch(listing, a, p),
        may_touch(listing, b, p),
    ensures
        a == b,
{
    let device = (w.device)(sweep.device_dir);
    assert(is_plain(device));
    let i = match a {
        TaskView::Sweep(k) => choose|i: int| sync_tree::is_swept_sub_dir(w, sweep, i, k),
        _ => choose|i: int| sync_tree::is_swept_file(w, sweep, i, a->Remove_0.device_path),
    };
    let j = match b {
        TaskView::Sweep(k) => choose|j: int| sync_tree::is_swept_sub_dir(w, sweep, j, k),
        _ => choose|j: int| sync_tree::is_swept_file(w, sweep, j, b->Remove_0.device_path),
    };
    let x = device[i].0;
    let y = device[j].0;
    lemma_change_at_entry(listing, sweep.device_dir, a, x, p);
    lemma_change_at_entry(listing, sweep.device_dir, b, y, p);
    lemma_names_apart(sweep.device_dir, x, y, p);
    name_map::lemma_entry(device, i);
    name_map::lemma_entry(device, j);
    assert(name_map::named_at(device, x, j));
}

/// No path may be touched by two tasks of a directory.
proof fn lemma_siblings_apart(listing: bool, w: World, delete: bool, task: TaskView)
    requires
        is_plain_world(w),
    ensures
        are_apart(listing, sync_tree::tasks_of(w, delete, task)),
{
    let tasks = sync_tree::tasks_of(w, delete, task);
    match task {
        TaskView::Enter(d) => {
            let host = (w.host)(d.host_dir);
            let device = (w.device)(d.device_dir);
            assert(is_plain(host) && is_plain(device));
            sync_laws::law_tasks_of_directory_are_distinct(d, delete, host, device);
        },
        TaskView::Sweep(s) => {
            let device = (w.device)(s.device_dir);
            assert(is_plain(device));
            sync_laws::law_tasks_of_sweep_are_distinct(s, device);
        },
        _ => {},
    }
    assert forall|i: int, j: int, p: Seq<char>|
        0 <= i < j < tasks.len() && #[trigger] may_touch(
            listing,
            tasks[i],
            p,
        ) implies !#[trigger] may_touch(listing, tasks[j], p) by {
        assert(tasks[i] != tasks[j]);
        assert(tasks.contains(tasks[i]) && tasks.contains(tasks[j]));
        if may_touch(listing, tasks[j], p) {
            match task {
                TaskView::Enter(d) => {
                    sync_tree::lemma_tasks_in(w, delete, d, tasks[i]);
                    sync_tree::lemma_tasks_in(w, delete, d, tasks[j]);
                    lemma_tasks_in_apart(listing, w, delete, d, tasks[i], tasks[j], p);
                },
                TaskView::Sweep(s) => {
                    sync_tree::lemma_tasks_of_sweep(w, delete, s, tasks[i]);
                    sync_tree::lemma_tasks_of_sweep(w, delete, s, tasks[j]);
                    lemma_tasks_of_sweep_apart(listing, w, s, tasks[i], tasks[j], p);
                },
                _ => {},
            }
        }
    }
}

/// What a task of a directory may touch is below the directory.
proof fn lemma_touched_below(listing: bool, w: World, delete: bool, task: TaskView, p: Seq<char>)
    requires
        may_be_touched(listing, sync_tree::tasks_of(w, delete, task), p),
    ensures
        sync_tree::opens(task),
        (path_of(task) + "/"@).is_prefix_of(p),
{
    let tasks = sync_tree::tasks_of(w, delete, task);
    let i = choose|i: int| 0 <= i < tasks.len() && may_touch(listing, #[trigger] tasks[i], p);
    assert(tasks.contains(tasks[i]));
    match task {
        TaskView::Enter(d) => {
            sync_tree::lemma_dir_task(
                d,
                delete,
                (w.host)(d.host_dir),
                (w.device)(d.device_dir),
                tasks[i],
            );
            let name = choose|name: Seq<char>| #[trigger]
                sync_tree::task_of_entry(d.device_dir, tasks[i], name);
            lemma_change_at_entry(listing, d.device_dir, tasks[i], name, p);
        },
        TaskView::Sweep(s) => {
            sync_tree::lemma_sweep_task(s, (w.device)(s.device_dir), tasks[i]);
            let name = choose|name: Seq<char>| #[trigger]
                sync_tree::task_of_entry(s.device_dir, tasks[i], name);
            lemma_change_at_entry(listing, s.device_dir, tasks[i], name, p);
        },
        _ => {},
    }
}

/// A task itself touches at most one path, its own: a directory lists it, any other task
/// changes it.
proof fn lemma_own_touches(listing: bool, w: World, options: SyncOptions, task: TaskView)
    ensures
        touches_once(listing, sync_tree::own_emissions(w, options, task)),
        forall|k: int|
            0 <= k < sync_tree::own_emissions(w, options, task).len() && touched(
                listing,
                #[trigger] sync_tree::own_emissions(w, options, task)[k],
            ) is Some ==> touched(listing, sync_tree::own_emissions(w, options, task)[k]) == Some(
                path_of(task),
            ) && sync_tree::opens(task) == listing,
{
    let own = sync_tree::own_emissions(w, options, task);
    if let TaskView::Upload(j) = task {
        let shows = sync_run::shows_upload(options);
        assert(own.len() == if shows {
            3int
        } else {
            2
        });
    }
    if sync_tree::opens(task) {
        let lines = sync_tree::opened_lines(options, task);
        assert forall|k: int| 0 < k < own.len() implies #[trigger] own[k] is Line by {
            assert(own[k] == sync_tree::shown(lines)[k - 1]);
        }
    }
}

/// Emissions that follow one another touch no path twice where neither part does and
/// they share none.
proof fn lemma_once_append(listing: bool, a: Seq<Emission>, b: Seq<Emission>)
    requires
        touches_once(listing, a),
        touches_once(listing, b),
        forall|i: int, j: int|
            0 <= i < a.len() && 0 <= j < b.len() && touched(listing, #[trigger] a[i]) is Some
                ==> touched(listing, a[i]) != touched(listing, #[trigger] b[j]),
    ensures
        touches_once(listing, a + b),
{
    let all = a + b;
    assert forall|i: int, j: int|
        0 <= i < j < all.len() && touched(listing, #[trigger] all[i]) is Some implies touched(
        listing,
        all[i],
    ) != touched(listing, #[trigger] all[j]) by {
        if j < a.len() {
            assert(touched(listing, a[i]) != touched(listing, a[j]));
        } else if i < a.len() {
            assert(touched(listing, a[i]) != touched(listing, b[j - a.len()]));
        } else {
            assert(touched(listing, b[i - a.len()]) != touched(listing, b[j - a.len()]));
        }
    }
}

/// Tasks that are apart touch no path twice, and none that they may not touch.
proof fn lemma_tree_once(
    listing: bool,
    w: World,
    options: SyncOptions,
    tasks: Seq<TaskView>,
    depth: nat,
)
    requires
        is_plain_world(w),
        are_apart(listing, tasks),
    ensures
        touches_once(listing, sync_tree::tree_emissions(w, options, tasks, depth)),
        forall|k: int|
            0 <= k < sync_tree::tree_emissions(w, options, tasks, depth).len() && touched(
                listing,
                #[trigger] sync_tree::tree_emissions(w, options, tasks, depth)[k],
            ) is Some ==> may_be_touched(
                listing,
                tasks,
                touched(listing, sync_tree::tree_emissions(w, options, tasks, depth)[k])->0,
            ),
    decreases depth, tasks.len(),
{
    if tasks.len() > 0 {
        let first = tasks.first();
        let rest = tasks.drop_first();
        let below = sync_tree::tasks_of(w, options.delete, first);
        let own = sync_tree::own_emissions(w, options, first);
        let inner = if depth == 0 {
            Seq::empty()
        } else {
            sync_tree::tree_emissions(w, options, below, (depth - 1) as nat)
        };
        let head = own + inner;
        let tail = sync_tree::tree_emissions(w, options, rest, depth);
        let all = sync_tree::tree_emissions(w, options, tasks, depth);
        assert(all == head + tail);
        assert(are_apart(listing, rest)) by {
            assert forall|i: int, j: int, p: Seq<char>|
                0 <= i < j < rest.len() && #[trigger] may_touch(
                    listing,
                    rest[i],
                    p,
                ) implies !#[trigger] may_touch(listing, rest[j], p) by {
                assert(may_touch(listing, tasks[i + 1], p));
                assert(!may_touch(listing, tasks[j + 1], p));
            }
        }
        lemma_own_touches(listing, w, options, first);
        lemma_tree_once(listing, w, options, rest, depth);
        if depth > 0 {
            lemma_siblings_apart(listing, w, options.delete, first);
            lemma_tree_once(listing, w, options, below, (depth - 1) as nat);
        }
        assert forall|k: int|
            0 <= k < inner.len() && touched(listing, #[trigger] inner[k]) is Some implies may_touch(
            listing,
            first,
            touched(listing, inner[k])->0,
        ) && sync_tree::opens(first) && touched(listing, inner[k]) != Some(path_of(first)) by {
            lemma_touched_below(listing, w, options.delete, first, touched(listing, inner[k])->0);
            lemma_file_is_not_below(path_of(first));
        }
        assert forall|i: int, j: int|
            0 <= i < own.len() && 0 <= j < inner.len() && touched(
                listing,
                #[trigger] own[i],
            ) is Some implies touched(listing, own[i]) != touched(listing, #[trigger] inner[j]) by {}
        lemma_once_append(listing, own, inner);
        assert forall|k: int|
            0 <= k < head.len() && touched(listing, #[trigger] head[k]) is Some implies may_touch(
            listing,
            first,
            touched(listing, head[k])->0,
        ) by {
            if k < own.len() {
                assert(head[k] == own[k]);
            } else {
                assert(head[k] == inner[k - own.len()]);
            }
        }
        assert forall|i: int, j: int|
            0 <= i < head.len() && 0 <= j < tail.len() && touched(
                listing,
                #[trigger] head[i],
            ) is Some implies touched(listing, head[i]) != touched(listing, #[trigger] tail[j]) by {
            if touched(listing, head[i]) == touched(listing, tail[j]) {
                let p = touched(listing, head[i])->0;
                let k = choose|k: int| 0 <= k < rest.len() && may_touch(listing, #[trigger] rest[k], p);
                assert(may_touch(listing, tasks[0], p));
                assert(may_touch(listing, tasks[k + 1], p));
            }
        }
        lemma_once_append(listing, head, tail);
        assert forall|k: int|
            0 <= k < all.len() && touched(
                listing,
                #[trigger] all[k],
            ) is Some implies may_be_touched(
            listing,
            tasks,
            touched(listing, all[k])->0,
        ) by {
            let p = touched(listing, all[k])->0;
            if k < head.len() {
                assert(all[k] == head[k]);
                assert(may_touch(listing, tasks[0], p));
            } else {
                assert(all[k] == tail[k - head.len()]);
                let i = choose|i: int| 0 <= i < rest.len() && may_touch(listing, #[trigger] rest[i], p);
                assert(may_touch(listing, tasks[i + 1], p));
            }
        }
    }
}

/// A run over trees of finite depth whose names are plain comes to its end after `n`
/// steps, and on the way asks for each upload and each removal once, and lists each
/// directory once: no two of its changes are of the same device path, and no two of its
/// listings of the same device directory.
pub proof fn law_each_change_is_asked_for_once(
    w: World,
    options: SyncOptions,
    host_dir: Seq<char>,
    device_dir: Seq<char>,
    depth: nat,
) -> (n: nat)
    requires
        is_plain_world(w),
        sync_tree::nested_within(
            w,
            options.delete,
            sync_run::start(host_dir, device_dir).pending,
            depth,
        ),
    ensures
        ({
            let (end, all) = sync_tree::run_for(
                w,
                options,
                sync_run::start(host_dir, device_dir),
                n,
            );
            &&& end.pending.len() == 0
            &&& end.current == CurrentView::Idle
            &&& touches_once(false, all)
            &&& touches_once(true, all)
        }),
{
    let tasks = sync_run::start(host_dir, device_dir).pending;
    let n = sync_tree::law_run_covers_tree(w, options, host_dir, device_dir, depth);
    let tree = sync_tree::tree_emissions(w, options, tasks, depth);
    let done = seq![Emission::Act(ActionView::Done)];
    lemma_run_touches_once(false, w, options, host_dir, device_dir, depth);
    lemma_run_touches_once(true, w, options, host_dir, device_dir, depth);
    lemma_once_append(false, tree, done);
    lemma_once_append(true, tree, done);
    assert(tree + done =~= tree.push(done[0]));
    n
}

/// What a run emits touches no path twice.
pub proof fn lemma_run_touches_once(
    listing: bool,
    w: World,
    options: SyncOptions,
    host_dir: Seq<char>,
    device_dir: Seq<char>,
    depth: nat,
)
    requires
        is_plain_world(w),
    ensures
        touches_once(
            listing,
            sync_tree::tree_emissions(
                w,
                options,
                sync_run::start(host_dir, device_dir).pending,
                depth,
            ),
        ),
{
    lemma_tree_once(listing, w, options, sync_run::start(host_dir, device_dir).pending, depth);
}

} // verus!
