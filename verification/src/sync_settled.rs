//! What the device holds after a whole synchronisation run, and that a second run finds
//! nothing to change.

use vstd::prelude::*;

use crate::name_map;
use crate::sync;
use crate::sync::{DirView, FileAttributes, SweepView, SyncOptions, TaskView};
use crate::sync_laws;
use crate::sync_once;
use crate::sync_run;
use crate::sync_run::{ActionView, CurrentView};
use crate::sync_tree;
use crate::sync_tree::{Emission, World};

verus! {

/// A run: what the two sides answer, its settings, the two directories, and how deep
/// directories are nested.
pub struct Tour {
    pub w: World,
    pub options: SyncOptions,
    pub host_dir: Seq<char>,
    pub device_dir: Seq<char>,
    pub depth: nat,
}

impl Tour {
    /// Whether names are plain and directories are nested within the depth.
    pub open spec fn is_valid(self) -> bool {
        &&& sync_once::is_plain_world(self.w)
        &&& sync_tree::nested_within(
            self.w,
            self.options.delete,
            sync_run::start(self.host_dir, self.device_dir).pending,
            self.depth,
        )
    }

    /// Whether the run visits a directory of the host.
    pub open spec fn visits(self, dir: DirView) -> bool {
        sync_tree::is_visited(
            self.w,
            self.options.delete,
            self.host_dir,
            self.device_dir,
            self.depth,
            dir,
        )
    }

    /// Whether the run sweeps a directory of the device.
    pub open spec fn sweeps(self, sweep: SweepView) -> bool {
        sync_tree::is_swept(
            self.w,
            self.options.delete,
            self.host_dir,
            self.device_dir,
            self.depth,
            sweep,
        )
    }

    /// What the run emits before it is over.
    pub open spec fn emissions(self) -> Seq<Emission> {
        sync_tree::tree_emissions(
            self.w,
            self.options,
            sync_run::start(self.host_dir, self.device_dir).pending,
            self.depth,
        )
    }

    /// The host's entries of a directory, by name.
    pub open spec fn host(self, dir: DirView) -> Map<Seq<char>, FileAttributes> {
        name_map::map_of((self.w.host)(dir.host_dir))
    }

    /// The device's entries of a directory, by name.
    pub open spec fn device(self, device_dir: Seq<char>) -> Map<Seq<char>, FileAttributes> {
        name_map::map_of((self.w.device)(device_dir))
    }

    /// Whether each host file that may be uploaded has, when it is read, the size that it
    /// is listed with.
    pub open spec fn sizes_hold(self) -> bool {
        forall|dir: DirView, i: int|
            self.visits(dir) && 0 <= i < (self.w.host)(dir.host_dir).len() && !(#[trigger] (
            self.w.host)(dir.host_dir)[i]).1.is_dir ==> (self.w.size)(
                sync::child_path(dir.host_dir, (self.w.host)(dir.host_dir)[i].0),
            ) == (self.w.host)(dir.host_dir)[i].1.size
    }

    /// Whether the device lists, in each directory that the run visits or sweeps, the
    /// files that it holds.
    pub open spec fn lists_files(self, files: Map<Seq<char>, FileAttributes>) -> bool {
        &&& forall|dir: DirView| #[trigger]
            self.visits(dir) ==> holds(files, dir.device_dir, self.device(dir.device_dir))
        &&& forall|sweep: SweepView| #[trigger]
            self.sweeps(sweep) ==> holds(files, sweep.device_dir, self.device(sweep.device_dir))
    }

    /// The files of the device after the run.
    pub open spec fn files_after(self, files: Map<Seq<char>, FileAttributes>) -> Map<
        Seq<char>,
        FileAttributes,
    > {
        performed(files, self.emissions(), self.w.size)
    }
}

/// The files of the device, by path, after what was asked for is performed. An uploaded
/// file has the size that the host file has.
pub open spec fn performed(
    files: Map<Seq<char>, FileAttributes>,
    emissions: Seq<Emission>,
    size: spec_fn(Seq<char>) -> nat,
) -> Map<Seq<char>, FileAttributes>
    decreases emissions.len(),
{
    if emissions.len() == 0 {
        files
    } else {
        let before = performed(files, emissions.drop_last(), size);
        match emissions.last() {
            Emission::Act(ActionView::Upload { host_path, device_path, perform: true }) =>
                before.insert(
                device_path,
                FileAttributes { size: size(host_path) as u64, is_dir: false },
            ),
            Emission::Act(ActionView::Remove { device_path, perform: true }) => before.remove(
                device_path,
            ),
            _ => before,
        }
    }
}

/// Whether the files in a directory are those that the listing has.
pub open spec fn holds(
    files: Map<Seq<char>, FileAttributes>,
    dir: Seq<char>,
    listing: Map<Seq<char>, FileAttributes>,
) -> bool {
    forall|name: Seq<char>|
        !name.contains('/') ==> #[trigger] holds_entry(files, dir, listing, name)
}

/// Whether the file of a name in a directory is the one that the listing has, if any.
pub open spec fn holds_entry(
    files: Map<Seq<char>, FileAttributes>,
    dir: Seq<char>,
    listing: Map<Seq<char>, FileAttributes>,
    name: Seq<char>,
) -> bool {
    let path = sync::child_path(dir, name);
    &&& files.contains_key(path) == listing.contains_key(name)
    &&& listing.contains_key(name) ==> files[path] == listing[name]
}

/// The directories of a listing.
pub open spec fn directories(listing: Map<Seq<char>, FileAttributes>) -> Map<
    Seq<char>,
    FileAttributes,
> {
    Map::new(
        |name: Seq<char>| listing.contains_key(name) && listing[name].is_dir,
        |name: Seq<char>| listing[name],
    )
}

/// A path of an entry has one directory and one name.
proof fn lemma_path_splits(a: Seq<char>, x: Seq<char>, b: Seq<char>, y: Seq<char>)
    requires
        sync::child_path(a, x) == sync::child_path(b, y),
        !x.contains('/'),
        !y.contains('/'),
    ensures
        a == b,
        x == y,
{
    reveal_strlit("/");
    let p = sync::child_path(a, x);
    let q = sync::child_path(b, y);
    assert(p.len() == a.len() + 1 + x.len());
    assert(q.len() == b.len() + 1 + y.len());
    if x.len() < y.len() {
        let k = a.len() as int;
        assert(p[k] == '/');
        assert(q[k] == y[k - b.len() - 1]);
        assert(y.contains('/'));
    }
    if y.len() < x.len() {
        let k = b.len() as int;
        assert(q[k] == '/');
        assert(p[k] == x[k - a.len() - 1]);
        assert(x.contains('/'));
    }
    assert(a =~= p.take(a.len() as int));
    assert(b =~= q.take(b.len() as int));
    assert(x =~= p.skip(a.len() as int + 1));
    assert(y =~= q.skip(b.len() as int + 1));
}

/// What becomes of a path where no path is changed twice.
proof fn lemma_performed(
    files: Map<Seq<char>, FileAttributes>,
    s: Seq<Emission>,
    size: spec_fn(Seq<char>) -> nat,
    path: Seq<char>,
)
    requires
        sync_once::touches_once(false, s),
    ensures
        ({
            let after = performed(files, s, size);
            &&& forall|host_path: Seq<char>| #[trigger]
                s.contains(
                    Emission::Act(
                        ActionView::Upload { host_path, device_path: path, perform: true },
                    ),
                ) ==> after.contains_key(path) && after[path] == (FileAttributes {
                    size: size(host_path) as u64,
                    is_dir: false,
                })
            &&& s.contains(
                Emission::Act(ActionView::Remove { device_path: path, perform: true }),
            ) ==> !after.contains_key(path)
            &&& (forall|k: int|
                0 <= k < s.len() ==> sync_once::changed_path(#[trigger] s[k]) != Some(path))
                ==> after.contains_key(path) == files.contains_key(path) && (files.contains_key(
                path,
            ) ==> after[path] == files[path])
        }),
    decreases s.len(),
{
    if s.len() > 0 {
        let rest = s.drop_last();
        let n = s.len() - 1;
        assert forall|i: int, j: int|
            0 <= i < j < rest.len() && sync_once::touched(
                false,
                #[trigger] rest[i],
            ) is Some implies sync_once::touched(false, rest[i]) != sync_once::touched(
            false,
            #[trigger] rest[j],
        ) by {
            assert(sync_once::touched(false, s[i]) != sync_once::touched(false, s[j]));
        }
        lemma_performed(files, rest, size, path);
        assert forall|e: Emission| s.contains(e) && e != s.last() implies rest.contains(e) by {
            let k = choose|k: int| 0 <= k < s.len() && s[k] == e;
            assert(rest[k] == e);
        }
        if sync_once::changed_path(s.last()) == Some(path) {
            assert forall|e: Emission|
                rest.contains(e) implies sync_once::changed_path(e) != Some(path) by {
                let k = choose|k: int| 0 <= k < rest.len() && rest[k] == e;
                if sync_once::changed_path(e) == Some(path) {
                    assert(sync_once::touched(false, s[k]) != sync_once::touched(false, s[n]));
                }
            }
            assert(sync_once::changed_path(s[n]) == Some(path));
        }
        if forall|k: int|
            0 <= k < s.len() ==> sync_once::changed_path(#[trigger] s[k]) != Some(path) {
            assert forall|k: int| 0 <= k < rest.len() implies sync_once::changed_path(
                #[trigger] rest[k],
            ) != Some(path) by {
                assert(rest[k] == s[k]);
            }
            assert(sync_once::changed_path(s[n]) != Some(path));
        }
    }
}

/// Directories that a run opens with the same device directory are the same.
proof fn lemma_one_opening(tour: Tour, a: TaskView, b: TaskView)
    requires
        tour.is_valid(),
        sync_tree::opens(a),
        sync_tree::opens(b),
        sync_tree::is_due(
            tour.w,
            tour.options.delete,
            sync_run::start(tour.host_dir, tour.device_dir).pending,
            tour.depth,
            a,
        ),
        sync_tree::is_due(
            tour.w,
            tour.options.delete,
            sync_run::start(tour.host_dir, tour.device_dir).pending,
            tour.depth,
            b,
        ),
        sync_once::listed_dir(Emission::Act(sync_tree::opening(a))) == sync_once::listed_dir(
            Emission::Act(sync_tree::opening(b)),
        ),
    ensures
        sync_tree::opening(a) == sync_tree::opening(b),
{
    let tasks = sync_run::start(tour.host_dir, tour.device_dir).pending;
    let s = tour.emissions();
    let x = Emission::Act(sync_tree::opening(a));
    let y = Emission::Act(sync_tree::opening(b));
    sync_tree::lemma_openings_are_emitted(tour.w, tour.options, tasks, tour.depth, a);
    sync_tree::lemma_openings_are_emitted(tour.w, tour.options, tasks, tour.depth, b);
    sync_once::lemma_run_touches_once(
        true,
        tour.w,
        tour.options,
        tour.host_dir,
        tour.device_dir,
        tour.depth,
    );
    let i = choose|i: int| 0 <= i < s.len() && s[i] == x;
    let j = choose|j: int| 0 <= j < s.len() && s[j] == y;
    if i < j {
        assert(sync_once::touched(true, s[i]) != sync_once::touched(true, s[j]));
    }
    if j < i {
        assert(sync_once::touched(true, s[j]) != sync_once::touched(true, s[i]));
    }
}

/// A path in a directory that a run opens is uploaded to only where that directory is
/// visited and calls for it.
proof fn lemma_upload_here(
    tour: Tour,
    task: TaskView,
    dir: Seq<char>,
    name: Seq<char>,
    host_path: Seq<char>,
)
    requires
        tour.is_valid(),
        sync_tree::opens(task),
        sync_once::listed_dir(Emission::Act(sync_tree::opening(task))) == Some(dir),
        sync_tree::is_due(
            tour.w,
            tour.options.delete,
            sync_run::start(tour.host_dir, tour.device_dir).pending,
            tour.depth,
            task,
        ),
        !name.contains('/'),
        sync_tree::upload_is_due(
            tour.w,
            tour.options.delete,
            tour.host_dir,
            tour.device_dir,
            tour.depth,
            host_path,
            sync::child_path(dir, name),
        ),
    ensures
        task matches TaskView::Enter(d) && sync_laws::is_uploaded(
            name,
            tour.host(d),
            tour.device(dir),
        ),
{
    let path = sync::child_path(dir, name);
    let (other, i) = choose|other: DirView, i: int| #[trigger]
        sync_tree::calls_for_upload(tour.w, other, i, host_path, path) && tour.visits(other);
    let host = (tour.w.host)(other.host_dir);
    assert(sync_once::is_plain(host));
    lemma_path_splits(dir, name, other.device_dir, host[i].0);
    lemma_one_opening(tour, task, TaskView::Enter(other));
    name_map::lemma_entry(host, i);
}

/// A path in a directory that a run opens is removed only where that directory calls for
/// it.
proof fn lemma_removal_here(tour: Tour, task: TaskView, dir: Seq<char>, name: Seq<char>)
    requires
        tour.is_valid(),
        sync_tree::opens(task),
        sync_once::listed_dir(Emission::Act(sync_tree::opening(task))) == Some(dir),
        sync_tree::is_due(
            tour.w,
            tour.options.delete,
            sync_run::start(tour.host_dir, tour.device_dir).pending,
            tour.depth,
            task,
        ),
        !name.contains('/'),
        sync_tree::removal_is_due(
            tour.w,
            tour.options.delete,
            tour.host_dir,
            tour.device_dir,
            tour.depth,
            sync::child_path(dir, name),
        ),
    ensures
        tour.options.delete,
        tour.device(dir).contains_key(name),
        !tour.device(dir)[name].is_dir,
        task matches TaskView::Enter(d) ==> !tour.host(d).contains_key(name),
{
    let path = sync::child_path(dir, name);
    if exists|other: DirView, i: int| #[trigger]
        sync_tree::calls_for_removal(tour.w, other, i, path) && tour.visits(other) {
        let (other, i) = choose|other: DirView, i: int| #[trigger]
            sync_tree::calls_for_removal(tour.w, other, i, path) && tour.visits(other);
        let device = (tour.w.device)(other.device_dir);
        assert(sync_once::is_plain(device));
        lemma_path_splits(dir, name, other.device_dir, device[i].0);
        lemma_one_opening(tour, task, TaskView::Enter(other));
        name_map::lemma_entry(device, i);
    } else {
        let (other, i) = choose|other: SweepView, i: int| #[trigger]
            sync_tree::is_swept_file(tour.w, other, i, path) && tour.sweeps(other);
        let device = (tour.w.device)(other.device_dir);
        assert(sync_once::is_plain(device));
        lemma_path_splits(dir, name, other.device_dir, device[i].0);
        lemma_one_opening(tour, task, TaskView::Sweep(other));
        name_map::lemma_entry(device, i);
    }
}

/// A path for which neither an upload nor a removal is due is not changed.
proof fn lemma_unchanged(tour: Tour, path: Seq<char>)
    requires
        tour.is_valid(),
        forall|host_path: Seq<char>|
            !sync_tree::upload_is_due(
                tour.w,
                tour.options.delete,
                tour.host_dir,
                tour.device_dir,
                tour.depth,
                host_path,
                path,
            ),
        !sync_tree::removal_is_due(
            tour.w,
            tour.options.delete,
            tour.host_dir,
            tour.device_dir,
            tour.depth,
            path,
        ),
    ensures
        forall|k: int|
            0 <= k < tour.emissions().len() ==> sync_once::changed_path(
                #[trigger] tour.emissions()[k],
            ) != Some(path),
{
    let s = tour.emissions();
    assert forall|k: int| 0 <= k < s.len() implies sync_once::changed_path(#[trigger] s[k]) != Some(
        path,
    ) by {
        assert(s.contains(s[k]));
        match s[k] {
            Emission::Act(ActionView::Upload { host_path, device_path, perform }) => {
                sync_tree::lemma_uploads_are_due(
                    tour.w,
                    tour.options,
                    tour.host_dir,
                    tour.device_dir,
                    tour.depth,
                    host_path,
                    device_path,
                    perform,
                );
            },
            Emission::Act(ActionView::Remove { device_path, perform }) => {
                sync_tree::lemma_removals_are_due(
                    tour.w,
                    tour.options,
                    tour.host_dir,
                    tour.device_dir,
                    tour.depth,
                    device_path,
                    perform,
                );
            },
            _ => {},
        }
    }
}

/// What a directory that is visited holds of a name after the run.
proof fn lemma_visited_after(
    tour: Tour,
    files: Map<Seq<char>, FileAttributes>,
    dir: DirView,
    name: Seq<char>,
)
    requires
        tour.is_valid(),
        !tour.options.dry_run,
        tour.sizes_hold(),
        tour.lists_files(files),
        tour.visits(dir),
        !name.contains('/'),
    ensures
        holds_entry(
            tour.files_after(files),
            dir.device_dir,
            sync_laws::synced(tour.host(dir), tour.device(dir.device_dir), tour.options.delete),
            name,
        ),
{
    let task = TaskView::Enter(dir);
    let s = tour.emissions();
    let path = sync::child_path(dir.device_dir, name);
    let host = tour.host(dir);
    let device = tour.device(dir.device_dir);
    let hs = (tour.w.host)(dir.host_dir);
    let ds = (tour.w.device)(dir.device_dir);
    assert(sync_once::is_plain(hs) && sync_once::is_plain(ds));
    assert(holds(files, dir.device_dir, device));
    assert(holds_entry(files, dir.device_dir, device, name));
    sync_once::lemma_run_touches_once(
        false,
        tour.w,
        tour.options,
        tour.host_dir,
        tour.device_dir,
        tour.depth,
    );
    lemma_performed(files, s, tour.w.size, path);
    if sync_laws::is_uploaded(name, host, device) {
        let i = name_map::lemma_position(hs, name);
        let host_path = sync::child_path(dir.host_dir, name);
        assert(sync_tree::calls_for_upload(tour.w, dir, i, host_path, path));
        sync_tree::lemma_uploads_are_due(
            tour.w,
            tour.options,
            tour.host_dir,
            tour.device_dir,
            tour.depth,
            host_path,
            path,
            true,
        );
        assert((tour.w.size)(host_path) == hs[i].1.size);
    } else if tour.options.delete && device.contains_key(name) && sync::is_extraneous(
        name,
        device[name],
        host,
    ) {
        let i = name_map::lemma_position(ds, name);
        assert(sync_tree::calls_for_removal(tour.w, dir, i, path));
        sync_tree::lemma_removals_are_due(
            tour.w,
            tour.options,
            tour.host_dir,
            tour.device_dir,
            tour.depth,
            path,
            true,
        );
    } else {
        assert forall|host_path: Seq<char>|
            !sync_tree::upload_is_due(
                tour.w,
                tour.options.delete,
                tour.host_dir,
                tour.device_dir,
                tour.depth,
                host_path,
                path,
            ) by {
            if sync_tree::upload_is_due(
                tour.w,
                tour.options.delete,
                tour.host_dir,
                tour.device_dir,
                tour.depth,
                host_path,
                path,
            ) {
                lemma_upload_here(tour, task, dir.device_dir, name, host_path);
            }
        }
        if sync_tree::removal_is_due(
            tour.w,
            tour.options.delete,
            tour.host_dir,
            tour.device_dir,
            tour.depth,
            path,
        ) {
            lemma_removal_here(tour, task, dir.device_dir, name);
        }
        lemma_unchanged(tour, path);
    }
}

/// What a directory that is swept holds of a name after the run.
proof fn lemma_swept_after(
    tour: Tour,
    files: Map<Seq<char>, FileAttributes>,
    sweep: SweepView,
    name: Seq<char>,
)
    requires
        tour.is_valid(),
        !tour.options.dry_run,
        tour.lists_files(files),
        tour.sweeps(sweep),
        !name.contains('/'),
    ensures
        holds_entry(
            tour.files_after(files),
            sweep.device_dir,
            directories(tour.device(sweep.device_dir)),
            name,
        ),
{
    let task = TaskView::Sweep(sweep);
    let s = tour.emissions();
    let path = sync::child_path(sweep.device_dir, name);
    let device = tour.device(sweep.device_dir);
    let ds = (tour.w.device)(sweep.device_dir);
    assert(sync_once::is_plain(ds));
    assert(holds(files, sweep.device_dir, device));
    assert(holds_entry(files, sweep.device_dir, device, name));
    if !tour.options.delete {
        sync_tree::lemma_no_sweep_without_delete(
            tour.w,
            sync_run::start(tour.host_dir, tour.device_dir).pending,
            tour.depth,
            sweep,
        );
    }
    sync_once::lemma_run_touches_once(
        false,
        tour.w,
        tour.options,
        tour.host_dir,
        tour.device_dir,
        tour.depth,
    );
    lemma_performed(files, s, tour.w.size, path);
    if device.contains_key(name) && !device[name].is_dir {
        let i = name_map::lemma_position(ds, name);
        assert(sync_tree::is_swept_file(tour.w, sweep, i, path));
        sync_tree::lemma_removals_are_due(
            tour.w,
            tour.options,
            tour.host_dir,
            tour.device_dir,
            tour.depth,
            path,
            true,
        );
    } else {
        assert forall|host_path: Seq<char>|
            !sync_tree::upload_is_due(
                tour.w,
                tour.options.delete,
                tour.host_dir,
                tour.device_dir,
                tour.depth,
                host_path,
                path,
            ) by {
            if sync_tree::upload_is_due(
                tour.w,
                tour.options.delete,
                tour.host_dir,
                tour.device_dir,
                tour.depth,
                host_path,
                path,
            ) {
                lemma_upload_here(tour, task, sweep.device_dir, name, host_path);
            }
        }
        if sync_tree::removal_is_due(
            tour.w,
            tour.options.delete,
            tour.host_dir,
            tour.device_dir,
            tour.depth,
            path,
        ) {
            lemma_removal_here(tour, task, sweep.device_dir, name);
        }
        lemma_unchanged(tour, path);
    }
}

/// A run that performs its changes leaves every directory of the host synchronised on
/// the device: it holds each uploaded file as the host does, and its other entries but
/// for those that were removed. A directory that the host lacks, and that was swept,
/// holds no file any more.
pub proof fn law_run_synchronises_tree(tour: Tour, files: Map<Seq<char>, FileAttributes>) -> (n: nat)
    requires
        tour.is_valid(),
        !tour.options.dry_run,
        tour.sizes_hold(),
        tour.lists_files(files),
    ensures
        ({
            let (end, all) = sync_tree::run_for(
                tour.w,
                tour.options,
                sync_run::start(tour.host_dir, tour.device_dir),
                n,
            );
            &&& end.pending.len() == 0
            &&& end.current == CurrentView::Idle
            &&& performed(files, all, tour.w.size) == tour.files_after(files)
        }),
        forall|dir: DirView| #[trigger]
            tour.visits(dir) ==> holds(
                tour.files_after(files),
                dir.device_dir,
                sync_laws::synced(tour.host(dir), tour.device(dir.device_dir), tour.options.delete),
            ),
        forall|sweep: SweepView| #[trigger]
            tour.sweeps(sweep) ==> holds(
                tour.files_after(files),
                sweep.device_dir,
                directories(tour.device(sweep.device_dir)),
            ),
{
    let after = tour.files_after(files);
    let n = sync_tree::law_run_covers_tree(
        tour.w,
        tour.options,
        tour.host_dir,
        tour.device_dir,
        tour.depth,
    );
    let all = sync_tree::run_for(
        tour.w,
        tour.options,
        sync_run::start(tour.host_dir, tour.device_dir),
        n,
    ).1;
    assert(all.drop_last() =~= tour.emissions());
    assert forall|dir: DirView| #[trigger] tour.visits(dir) implies holds(
        after,
        dir.device_dir,
        sync_laws::synced(tour.host(dir), tour.device(dir.device_dir), tour.options.delete),
    ) by {
        assert forall|name: Seq<char>| !name.contains('/') implies #[trigger] holds_entry(
            after,
            dir.device_dir,
            sync_laws::synced(tour.host(dir), tour.device(dir.device_dir), tour.options.delete),
            name,
        ) by {
            lemma_visited_after(tour, files, dir, name);
        }
    }
    assert forall|sweep: SweepView| #[trigger] tour.sweeps(sweep) implies holds(
        after,
        sweep.device_dir,
        directories(tour.device(sweep.device_dir)),
    ) by {
        assert forall|name: Seq<char>| !name.contains('/') implies #[trigger] holds_entry(
            after,
            sweep.device_dir,
            directories(tour.device(sweep.device_dir)),
            name,
        ) by {
            lemma_swept_after(tour, files, sweep, name);
        }
    }
    n
}

/// Whether a listing is one of a directory with the given files. It may also name
/// directories that the host has there, which uploads into them made.
pub open spec fn is_listing_of(
    files: Map<Seq<char>, FileAttributes>,
    dir: Seq<char>,
    host: Map<Seq<char>, FileAttributes>,
    listing: Map<Seq<char>, FileAttributes>,
) -> bool {
    forall|name: Seq<char>|
        !name.contains('/') ==> #[trigger] is_listed_as(files, dir, host, listing, name)
}

/// Whether a listing has, under a name, the file of that name in a directory.
pub open spec fn is_listed_as(
    files: Map<Seq<char>, FileAttributes>,
    dir: Seq<char>,
    host: Map<Seq<char>, FileAttributes>,
    listing: Map<Seq<char>, FileAttributes>,
    name: Seq<char>,
) -> bool {
    let path = sync::child_path(dir, name);
    &&& files.contains_key(path) ==> listing.contains_key(name) && listing[name] == files[path]
    &&& listing.contains_key(name) ==> files.contains_key(path) || (listing[name].is_dir
        && host.contains_key(name) && host[name].is_dir)
}

/// Whether a second run comes after a first: it has the same settings and directories, the
/// host is as it was, and the device lists the files that the first run left.
pub open spec fn comes_after(
    tour: Tour,
    files: Map<Seq<char>, FileAttributes>,
    second: Tour,
) -> bool {
    &&& second.options.delete == tour.options.delete
    &&& second.host_dir == tour.host_dir
    &&& second.device_dir == tour.device_dir
    &&& second.w.host == tour.w.host
    &&& forall|dir: DirView| #[trigger]
        tour.visits(dir) ==> is_listing_of(
            tour.files_after(files),
            dir.device_dir,
            tour.host(dir),
            second.device(dir.device_dir),
        )
    &&& forall|sweep: SweepView| #[trigger]
        tour.sweeps(sweep) ==> is_listing_of(
            tour.files_after(files),
            sweep.device_dir,
            Map::empty(),
            second.device(sweep.device_dir),
        )
}

/// Every directory that the second run opens, the first opened too.
proof fn lemma_opened_before(
    tour: Tour,
    files: Map<Seq<char>, FileAttributes>,
    second: Tour,
    task: TaskView,
)
    requires
        tour.is_valid(),
        !tour.options.dry_run,
        tour.sizes_hold(),
        tour.lists_files(files),
        second.is_valid(),
        comes_after(tour, files, second),
        sync_tree::opens(task),
        sync_tree::is_due(
            second.w,
            second.options.delete,
            sync_run::start(second.host_dir, second.device_dir).pending,
            second.depth,
            task,
        ),
    ensures
        sync_tree::is_due(
            tour.w,
            tour.options.delete,
            sync_run::start(tour.host_dir, tour.device_dir).pending,
            tour.depth,
            task,
        ),
{
    let tasks = sync_run::start(tour.host_dir, tour.device_dir).pending;
    let opened = |t: TaskView|
        sync_tree::opens(t) ==> sync_tree::is_due(
            tour.w,
            tour.options.delete,
            tasks,
            tour.depth,
            t,
        );
    assert forall|i: int| 0 <= i < tasks.len() implies opened(#[trigger] tasks[i]) by {
        assert(tasks[i] == tasks.first());
    }
    assert forall|above: TaskView, t: TaskView|
        opened(above) && #[trigger] sync_tree::tasks_of(
            second.w,
            second.options.delete,
            above,
        ).contains(t) implies opened(t) by {
        if sync_tree::opens(t) {
            lemma_child_opened_before(tour, files, second, above, t);
        }
    }
    sync_tree::lemma_due_induction(
        second.w,
        second.options.delete,
        tasks,
        second.depth,
        opened,
        task,
    );
}

/// A directory in one that both runs open is opened by the first run where the second
/// opens it.
proof fn lemma_child_opened_before(
    tour: Tour,
    files: Map<Seq<char>, FileAttributes>,
    second: Tour,
    above: TaskView,
    task: TaskView,
)
    requires
        tour.is_valid(),
        !tour.options.dry_run,
        tour.sizes_hold(),
        tour.lists_files(files),
        second.is_valid(),
        comes_after(tour, files, second),
        sync_tree::opens(task),
        sync_tree::opens(above) ==> sync_tree::is_due(
            tour.w,
            tour.options.delete,
            sync_run::start(tour.host_dir, tour.device_dir).pending,
            tour.depth,
            above,
        ),
        sync_tree::tasks_of(second.w, second.options.delete, above).contains(task),
    ensures
        sync_tree::is_due(
            tour.w,
            tour.options.delete,
            sync_run::start(tour.host_dir, tour.device_dir).pending,
            tour.depth,
            task,
        ),
{
    let delete = tour.options.delete;
    let after = tour.files_after(files);
    match above {
        TaskView::Enter(dir) => {
            assert(tour.visits(dir));
            sync_tree::lemma_tasks_in(second.w, delete, dir, task);
            match task {
                TaskView::Enter(sub) => {
                    let i = choose|i: int| sync_tree::is_sub_dir(second.w, dir, i, sub);
                    assert(sync_tree::is_sub_dir(tour.w, dir, i, sub));
                    sync_tree::law_every_host_directory_is_visited(
                        tour.w,
                        delete,
                        tour.host_dir,
                        tour.device_dir,
                        tour.depth,
                        sub,
                    );
                    assert(tour.visits(sub));
                },
                TaskView::Sweep(sub) => {
                    let i = choose|i: int| sync_tree::is_unmatched_sub_dir(second.w, dir, i, sub);
                    let listing = (second.w.device)(dir.device_dir);
                    let name = listing[i].0;
                    assert(sync_once::is_plain(listing));
                    name_map::lemma_entry(listing, i);
                    assert(is_listing_of(
                        after,
                        dir.device_dir,
                        tour.host(dir),
                        second.device(dir.device_dir),
                    ));
                    assert(is_listed_as(
                        after,
                        dir.device_dir,
                        tour.host(dir),
                        second.device(dir.device_dir),
                        name,
                    ));
                    lemma_visited_after(tour, files, dir, name);
                    let ds = (tour.w.device)(dir.device_dir);
                    assert(sync_once::is_plain(ds));
                    let k = name_map::lemma_position(ds, name);
                    assert(sync_tree::is_unmatched_sub_dir(tour.w, dir, k, sub));
                    sync_tree::law_every_unmatched_directory_is_swept(
                        tour.w,
                        delete,
                        tour.host_dir,
                        tour.device_dir,
                        tour.depth,
                        sub,
                    );
                    assert(tour.sweeps(sub));
                },
                _ => {},
            }
        },
        TaskView::Sweep(sweep) => {
            assert(tour.sweeps(sweep));
            sync_tree::lemma_tasks_of_sweep(second.w, delete, sweep, task);
            let sub = task->Sweep_0;
            let i = choose|i: int| sync_tree::is_swept_sub_dir(second.w, sweep, i, sub);
            let listing = (second.w.device)(sweep.device_dir);
            let name = listing[i].0;
            assert(sync_once::is_plain(listing));
            name_map::lemma_entry(listing, i);
            assert(is_listed_as(
                after,
                sweep.device_dir,
                Map::empty(),
                second.device(sweep.device_dir),
                name,
            ));
            lemma_swept_after(tour, files, sweep, name);
            let ds = (tour.w.device)(sweep.device_dir);
            assert(sync_once::is_plain(ds));
            let k = name_map::lemma_position(ds, name);
            assert(sync_tree::is_swept_sub_dir(tour.w, sweep, k, sub));
            sync_tree::law_every_unmatched_directory_is_swept(
                tour.w,
                delete,
                tour.host_dir,
                tour.device_dir,
                tour.depth,
                sub,
            );
            assert(tour.sweeps(sub));
        },
        _ => {},
    }
}

/// The second run uploads nothing.
proof fn lemma_no_second_upload(
    tour: Tour,
    files: Map<Seq<char>, FileAttributes>,
    second: Tour,
    host_path: Seq<char>,
    device_path: Seq<char>,
)
    requires
        tour.is_valid(),
        !tour.options.dry_run,
        tour.sizes_hold(),
        tour.lists_files(files),
        second.is_valid(),
        comes_after(tour, files, second),
    ensures
        !sync_tree::upload_is_due(
            second.w,
            second.options.delete,
            second.host_dir,
            second.device_dir,
            second.depth,
            host_path,
            device_path,
        ),
{
    if sync_tree::upload_is_due(
        second.w,
        second.options.delete,
        second.host_dir,
        second.device_dir,
        second.depth,
        host_path,
        device_path,
    ) {
        let (dir, i) = choose|dir: DirView, i: int| #[trigger]
            sync_tree::calls_for_upload(second.w, dir, i, host_path, device_path) && second.visits(
                dir,
            );
        lemma_opened_before(tour, files, second, TaskView::Enter(dir));
        assert(tour.visits(dir));
        let hs = (tour.w.host)(dir.host_dir);
        let name = hs[i].0;
        assert(sync_once::is_plain(hs));
        name_map::lemma_entry(hs, i);
        assert(is_listed_as(
            tour.files_after(files),
            dir.device_dir,
            tour.host(dir),
            second.device(dir.device_dir),
            name,
        ));
        lemma_visited_after(tour, files, dir, name);
    }
}

/// The second run removes nothing.
proof fn lemma_no_second_removal(
    tour: Tour,
    files: Map<Seq<char>, FileAttributes>,
    second: Tour,
    device_path: Seq<char>,
)
    requires
        tour.is_valid(),
        !tour.options.dry_run,
        tour.sizes_hold(),
        tour.lists_files(files),
        second.is_valid(),
        comes_after(tour, files, second),
    ensures
        !sync_tree::removal_is_due(
            second.w,
            second.options.delete,
            second.host_dir,
            second.device_dir,
            second.depth,
            device_path,
        ),
{
    let after = tour.files_after(files);
    assert forall|dir: DirView, i: int| #[trigger]
        sync_tree::calls_for_removal(second.w, dir, i, device_path) && second.visits(
            dir,
        ) && second.options.delete implies false by {
        lemma_opened_before(tour, files, second, TaskView::Enter(dir));
        assert(tour.visits(dir));
        let listing = (second.w.device)(dir.device_dir);
        let name = listing[i].0;
        assert(sync_once::is_plain(listing));
        name_map::lemma_entry(listing, i);
        assert(is_listed_as(
            after,
            dir.device_dir,
            tour.host(dir),
            second.device(dir.device_dir),
            name,
        ));
        lemma_visited_after(tour, files, dir, name);
    }
    assert forall|sweep: SweepView, i: int| #[trigger]
        sync_tree::is_swept_file(second.w, sweep, i, device_path) && second.sweeps(
            sweep,
        ) implies false by {
        lemma_opened_before(tour, files, second, TaskView::Sweep(sweep));
        assert(tour.sweeps(sweep));
        let listing = (second.w.device)(sweep.device_dir);
        let name = listing[i].0;
        assert(sync_once::is_plain(listing));
        name_map::lemma_entry(listing, i);
        assert(is_listed_as(
            after,
            sweep.device_dir,
            Map::empty(),
            second.device(sweep.device_dir),
            name,
        ));
        lemma_swept_after(tour, files, sweep, name);
    }
}

/// A second run, over what the first left, comes to its end after `n` steps and asks for
/// no change.
pub proof fn law_second_run_changes_nothing(
    tour: Tour,
    files: Map<Seq<char>, FileAttributes>,
    second: Tour,
) -> (n: nat)
    requires
        tour.is_valid(),
        !tour.options.dry_run,
        tour.sizes_hold(),
        tour.lists_files(files),
        second.is_valid(),
        comes_after(tour, files, second),
    ensures
        ({
            let (end, all) = sync_tree::run_for(
                second.w,
                second.options,
                sync_run::start(second.host_dir, second.device_dir),
                n,
            );
            &&& end.pending.len() == 0
            &&& end.current == CurrentView::Idle
            &&& forall|k: int|
                0 <= k < all.len() ==> sync_once::changed_path(#[trigger] all[k]) is None
        }),
{
    let n = sync_tree::law_run_covers_tree(
        second.w,
        second.options,
        second.host_dir,
        second.device_dir,
        second.depth,
    );
    let all = sync_tree::run_for(
        second.w,
        second.options,
        sync_run::start(second.host_dir, second.device_dir),
        n,
    ).1;
    let s = second.emissions();
    assert forall|k: int| 0 <= k < all.len() implies sync_once::changed_path(
        #[trigger] all[k],
    ) is None by {
        if k < s.len() {
            assert(all[k] == s[k]);
            if sync_once::changed_path(s[k]) is Some {
                let path = sync_once::changed_path(s[k])->0;
                assert forall|host_path: Seq<char>|
                    !sync_tree::upload_is_due(
                        second.w,
                        second.options.delete,
                        second.host_dir,
                        second.device_dir,
                        second.depth,
                        host_path,
                        path,
                    ) by {
                    lemma_no_second_upload(tour, files, second, host_path, path);
                }
                lemma_no_second_removal(tour, files, second, path);
                lemma_unchanged(second, path);
            }
        }
    }
    n
}

} // verus!
