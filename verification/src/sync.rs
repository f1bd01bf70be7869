//! Synchronising a directory tree of the host with a directory of the device.
//!
//! A run is a stack of pending tasks. Each step asks for one action; what came of
//! it is the event of the next step. The caller performs the actions.

use vstd::prelude::*;

use crate::name_map;
use crate::name_map::NameMap;
use crate::text;
use crate::text::join3;

verus! {

/// What a directory listing says of an entry.
#[derive(Debug, Clone, Copy, PartialEq, Eq, Structural)]
pub struct FileAttributes {
    pub size: u64,
    pub is_dir: bool,
}

/// Why a file is uploaded.
#[derive(Debug, Clone, Copy, PartialEq, Eq, Structural)]
pub enum Reason {
    SizesDiffer,
    Missing,
}

/// How a run reports what it does.
#[derive(Debug, Clone, Copy, PartialEq, Eq, Structural)]
pub enum Reporting {
    /// To callbacks. With `progress`, an upload that is performed shows a progress
    /// bar in place of a line.
    Callbacks { progress: bool },
    /// To the console. With `verbose`, each directory is named.
    Console { verbose: bool },
}

/// The settings of a run.
#[derive(Debug, Clone, Copy, PartialEq, Eq, Structural)]
pub struct SyncOptions {
    /// Whether files that the host lacks are removed from the device.
    pub delete: bool,
    /// Whether changes are only reported.
    pub dry_run: bool,
    pub reporting: Reporting,
}

/// A directory of the host and the device directory that it is synchronised with.
/// `trail` holds the host directories above it in the run, outermost first.
#[derive(Debug)]
pub struct SyncDir {
    pub host_dir: String,
    pub device_dir: String,
    pub trail: Vec<String>,
}

/// A file to upload.
#[derive(Debug)]
pub struct UploadJob {
    pub host_path: String,
    pub device_path: String,
    pub reason: Reason,
    pub trail: Vec<String>,
}

/// A device directory that the host lacks, whose files are to be removed with all
/// those below it.
#[derive(Debug)]
pub struct SweepJob {
    pub device_dir: String,
    pub trail: Vec<String>,
}

/// A device file to remove.
#[derive(Debug)]
pub struct RemoveJob {
    pub device_path: String,
    pub trail: Vec<String>,
}

/// A pending task of a run.
#[derive(Debug)]
pub enum SyncTask {
    Enter(SyncDir),
    Upload(UploadJob),
    Sweep(SweepJob),
    Remove(RemoveJob),
}

/// The contents of a [`SyncDir`].
pub struct DirView {
    pub host_dir: Seq<char>,
    pub device_dir: Seq<char>,
    pub trail: Seq<Seq<char>>,
}

/// The contents of an [`UploadJob`].
pub struct UploadView {
    pub host_path: Seq<char>,
    pub device_path: Seq<char>,
    pub reason: Reason,
    pub trail: Seq<Seq<char>>,
}

/// The contents of a [`SweepJob`].
pub struct SweepView {
    pub device_dir: Seq<char>,
    pub trail: Seq<Seq<char>>,
}

/// The contents of a [`RemoveJob`].
pub struct RemoveView {
    pub device_path: Seq<char>,
    pub trail: Seq<Seq<char>>,
}

/// The contents of a [`SyncTask`].
pub enum TaskView {
    Enter(DirView),
    Upload(UploadView),
    Sweep(SweepView),
    Remove(RemoveView),
}

impl View for SyncDir {
    type V = DirView;

    open spec fn view(&self) -> DirView {
        DirView {
            host_dir: self.host_dir@,
            device_dir: self.device_dir@,
            trail: text::views(self.trail@),
        }
    }
}

impl View for UploadJob {
    type V = UploadView;

    open spec fn view(&self) -> UploadView {
        UploadView {
            host_path: self.host_path@,
            device_path: self.device_path@,
            reason: self.reason,
            trail: text::views(self.trail@),
        }
    }
}

impl View for SweepJob {
    type V = SweepView;

    open spec fn view(&self) -> SweepView {
        SweepView { device_dir: self.device_dir@, trail: text::views(self.trail@) }
    }
}

impl View for RemoveJob {
    type V = RemoveView;

    open spec fn view(&self) -> RemoveView {
        RemoveView { device_path: self.device_path@, trail: text::views(self.trail@) }
    }
}

impl View for SyncTask {
    type V = TaskView;

    open spec fn view(&self) -> TaskView {
        match self {
            SyncTask::Enter(d) => TaskView::Enter(d@),
            SyncTask::Upload(j) => TaskView::Upload(j@),
            SyncTask::Sweep(j) => TaskView::Sweep(j@),
            SyncTask::Remove(j) => TaskView::Remove(j@),
        }
    }
}

/// The contents of each task.
pub open spec fn task_views(v: Seq<SyncTask>) -> Seq<TaskView> {
    v.map_values(|t: SyncTask| t@)
}

/// The path of the entry `name` of a directory.
pub open spec fn child_path(dir: Seq<char>, name: Seq<char>) -> Seq<char> {
    dir + "/"@ + name
}

/// The path of the entry `name` of a directory.
pub fn child(dir: &str, name: &str) -> (r: String)
    ensures
        r@ == child_path(dir@, name@),
{
    join3(dir, "/", name)
}

/// Why the host entry `name` is uploaded, if it is: a file goes up when the device
/// lacks it or holds it with another size.
pub open spec fn upload_reason(
    name: Seq<char>,
    attr: FileAttributes,
    device: Map<Seq<char>, FileAttributes>,
) -> Option<Reason> {
    if attr.is_dir {
        None
    } else if !device.contains_key(name) {
        Some(Reason::Missing)
    } else if device[name].size != attr.size {
        Some(Reason::SizesDiffer)
    } else {
        None
    }
}

/// Whether the device entry `name` is one to remove: a file that the host lacks.
pub open spec fn is_extraneous(
    name: Seq<char>,
    attr: FileAttributes,
    host: Map<Seq<char>, FileAttributes>,
) -> bool {
    !attr.is_dir && !host.contains_key(name)
}

/// Whether the device entry `name` is a directory that the host lacks.
pub open spec fn is_unmatched_dir(
    name: Seq<char>,
    attr: FileAttributes,
    host: Map<Seq<char>, FileAttributes>,
) -> bool {
    attr.is_dir && !(host.contains_key(name) && host[name].is_dir)
}

/// The upload of a host entry, if it is one to upload.
pub open spec fn upload_of(dir: DirView, device: Map<Seq<char>, FileAttributes>) -> spec_fn(
    (Seq<char>, FileAttributes),
) -> Option<TaskView> {
    |p: (Seq<char>, FileAttributes)|
        match upload_reason(p.0, p.1, device) {
            Some(reason) => Some(
                TaskView::Upload(
                    UploadView {
                        host_path: child_path(dir.host_dir, p.0),
                        device_path: child_path(dir.device_dir, p.0),
                        reason,
                        trail: dir.trail,
                    },
                ),
            ),
            None => None,
        }
}

/// The directory below `dir` with the given name.
pub open spec fn sub_dir(dir: DirView, name: Seq<char>) -> DirView {
    DirView {
        host_dir: child_path(dir.host_dir, name),
        device_dir: child_path(dir.device_dir, name),
        trail: dir.trail.push(dir.host_dir),
    }
}

/// The visit of a host entry, if it is a directory.
pub open spec fn enter_of(dir: DirView) -> spec_fn((Seq<char>, FileAttributes)) -> Option<TaskView> {
    |p: (Seq<char>, FileAttributes)|
        if p.1.is_dir {
            Some(TaskView::Enter(sub_dir(dir, p.0)))
        } else {
            None
        }
}

/// The sweep of an entry of a device directory, if it is a directory that the host
/// lacks.
pub open spec fn sweep_of(
    device_dir: Seq<char>,
    trail: Seq<Seq<char>>,
    host: Map<Seq<char>, FileAttributes>,
) -> spec_fn((Seq<char>, FileAttributes)) -> Option<TaskView> {
    |p: (Seq<char>, FileAttributes)|
        if is_unmatched_dir(p.0, p.1, host) {
            Some(TaskView::Sweep(SweepView { device_dir: child_path(device_dir, p.0), trail }))
        } else {
            None
        }
}

/// The removal of an entry of a device directory, if it is one to remove.
pub open spec fn remove_of(
    device_dir: Seq<char>,
    trail: Seq<Seq<char>>,
    host: Map<Seq<char>, FileAttributes>,
) -> spec_fn((Seq<char>, FileAttributes)) -> Option<TaskView> {
    |p: (Seq<char>, FileAttributes)|
        if is_extraneous(p.0, p.1, host) {
            Some(TaskView::Remove(RemoveView { device_path: child_path(device_dir, p.0), trail }))
        } else {
            None
        }
}

/// The uploads of a directory.
pub open spec fn uploads(
    dir: DirView,
    host: Seq<(Seq<char>, FileAttributes)>,
    device: Seq<(Seq<char>, FileAttributes)>,
) -> Seq<TaskView> {
    host.filter_map(upload_of(dir, name_map::map_of(device)))
}

/// The visits of the directories in a directory.
pub open spec fn visits(dir: DirView, host: Seq<(Seq<char>, FileAttributes)>) -> Seq<TaskView> {
    host.filter_map(enter_of(dir))
}

/// The sweeps of the directories in a device directory that the host lacks.
pub open spec fn sweeps(
    dir: DirView,
    delete: bool,
    host: Seq<(Seq<char>, FileAttributes)>,
    device: Seq<(Seq<char>, FileAttributes)>,
) -> Seq<TaskView> {
    if delete {
        device.filter_map(sweep_of(dir.device_dir, dir.trail, name_map::map_of(host)))
    } else {
        Seq::empty()
    }
}

/// The removals from a directory.
pub open spec fn removals(
    dir: DirView,
    delete: bool,
    host: Seq<(Seq<char>, FileAttributes)>,
    device: Seq<(Seq<char>, FileAttributes)>,
) -> Seq<TaskView> {
    if delete {
        device.filter_map(remove_of(dir.device_dir, dir.trail, name_map::map_of(host)))
    } else {
        Seq::empty()
    }
}

/// The tasks of a directory in the order in which they are done: the uploads, then
/// the directories in it, then the sweeps of those that the host lacks, then the
/// removals.
pub open spec fn dir_tasks(
    dir: DirView,
    delete: bool,
    host: Seq<(Seq<char>, FileAttributes)>,
    device: Seq<(Seq<char>, FileAttributes)>,
) -> Seq<TaskView> {
    uploads(dir, host, device) + visits(dir, host) + sweeps(dir, delete, host, device) + removals(
        dir,
        delete,
        host,
        device,
    )
}

/// The tasks of a device directory that the host lacks: the sweeps of the directories
/// in it, then the removals of its files.
pub open spec fn sweep_tasks(
    sweep: SweepView,
    device: Seq<(Seq<char>, FileAttributes)>,
) -> Seq<TaskView> {
    device.filter_map(sweep_of(sweep.device_dir, sweep.trail, Map::empty())) + device.filter_map(
        remove_of(sweep.device_dir, sweep.trail, Map::empty()),
    )
}

/// A copy of a list of strings.
fn copy_strings(v: &Vec<String>) -> (r: Vec<String>)
    ensures
        text::views(r@) == text::views(v@),
{
    let mut r: Vec<String> = Vec::new();
    let mut i: usize = 0;
    while i < v.len()
        invariant
            i <= v@.len(),
            text::views(r@) == text::views(v@).take(i as int),
        decreases v@.len() - i,
    {
        let ghost before = text::views(r@);
        r.push(v[i].clone());
        assert(text::views(r@) =~= before.push(v@[i as int]@));
        assert(text::views(r@) =~= text::views(v@).take(i + 1));
        i = i + 1;
    }
    assert(text::views(v@).take(i as int) =~= text::views(v@));
    r
}

/// The sweeps and the removals in a device directory, from its listing and that of the
/// host.
fn plan_clearance(
    device_dir: &str,
    trail: &Vec<String>,
    host: &NameMap<FileAttributes>,
    device: &NameMap<FileAttributes>,
) -> (r: Vec<SyncTask>)
    ensures
        task_views(r@) == device.pairs().filter_map(
            sweep_of(device_dir@, text::views(trail@), host@),
        ) + device.pairs().filter_map(remove_of(device_dir@, text::views(trail@), host@)),
{
    let mut r: Vec<SyncTask> = Vec::new();
    let ghost ds = device.pairs();
    let ghost sweep = sweep_of(device_dir@, text::views(trail@), host@);
    let ghost remove = remove_of(device_dir@, text::views(trail@), host@);
    let mut i: usize = 0;
    assert(ds.take(0) =~= Seq::empty());
    assert(task_views(r@) =~= ds.take(0).filter_map(sweep));
    while i < device.len()
        invariant
            i <= ds.len(),
            ds == device.pairs(),
            sweep == sweep_of(device_dir@, text::views(trail@), host@),
            task_views(r@) == ds.take(i as int).filter_map(sweep),
        decreases ds.len() - i,
    {
        let (name, attr) = device.at(i);
        proof {
            ds.lemma_filter_map_take_succ(sweep, i as int);
        }
        let ghost before = task_views(r@);
        if attr.is_dir {
            let matched = match host.get(name.as_str()) {
                Some(h) => h.is_dir,
                None => false,
            };
            assert(matched == !is_unmatched_dir(name@, *attr, host@));
            if !matched {
                let task = SyncTask::Sweep(
                    SweepJob {
                        device_dir: child(device_dir, name.as_str()),
                        trail: copy_strings(trail),
                    },
                );
                r.push(task);
                assert(task_views(r@) =~= before.push(task@));
            }
        }
        assert(task_views(r@) =~= ds.take(i + 1).filter_map(sweep));
        i = i + 1;
    }
    assert(ds.take(i as int) =~= ds);
    let ghost first = task_views(r@);
    let mut i: usize = 0;
    assert(task_views(r@) =~= first + ds.take(0).filter_map(remove));
    while i < device.len()
        invariant
            i <= ds.len(),
            ds == device.pairs(),
            remove == remove_of(device_dir@, text::views(trail@), host@),
            task_views(r@) == first + ds.take(i as int).filter_map(remove),
        decreases ds.len() - i,
    {
        let (name, attr) = device.at(i);
        proof {
            ds.lemma_filter_map_take_succ(remove, i as int);
        }
        let ghost before = task_views(r@);
        if !attr.is_dir && !host.contains_key(name.as_str()) {
            let task = SyncTask::Remove(
                RemoveJob {
                    device_path: child(device_dir, name.as_str()),
                    trail: copy_strings(trail),
                },
            );
            r.push(task);
            assert(task_views(r@) =~= before.push(task@));
        }
        assert(task_views(r@) =~= first + ds.take(i + 1).filter_map(remove));
        i = i + 1;
    }
    assert(ds.take(i as int) =~= ds);
    r
}

/// The tasks of a device directory that the host lacks, from its listing.
pub fn plan_sweep(job: &SweepJob, device: &NameMap<FileAttributes>) -> (r: Vec<SyncTask>)
    ensures
        task_views(r@) == sweep_tasks(job@, device.pairs()),
{
    let host: NameMap<FileAttributes> = NameMap::new();
    plan_clearance(job.device_dir.as_str(), &job.trail, &host, device)
}

/// The tasks of a directory, from the listings of both sides.
pub fn plan_dir(
    dir: &SyncDir,
    delete: bool,
    host: &NameMap<FileAttributes>,
    device: &NameMap<FileAttributes>,
) -> (r: Vec<SyncTask>)
    ensures
        task_views(r@) == dir_tasks(dir@, delete, host.pairs(), device.pairs()),
{
    let mut r: Vec<SyncTask> = Vec::new();
    let ghost hs = host.pairs();
    let ghost ds = device.pairs();
    let mut i: usize = 0;
    assert(hs.take(0) =~= Seq::empty());
    assert(task_views(r@) =~= hs.take(0).filter_map(upload_of(dir@, name_map::map_of(ds))));
    while i < host.len()
        invariant
            i <= hs.len(),
            hs == host.pairs(),
            ds == device.pairs(),
            task_views(r@) == hs.take(i as int).filter_map(upload_of(dir@, name_map::map_of(ds))),
        decreases hs.len() - i,
    {
        let (name, attr) = host.at(i);
        proof {
            hs.lemma_filter_map_take_succ(upload_of(dir@, name_map::map_of(ds)), i as int);
        }
        let ghost before = task_views(r@);
        if !attr.is_dir {
            let reason = match device.get(name.as_str()) {
                Some(d) => if d.size == attr.size {
                    None
                } else {
                    Some(Reason::SizesDiffer)
                },
                None => Some(Reason::Missing),
            };
            assert(reason == upload_reason(name@, *attr, name_map::map_of(ds)));
            if let Some(reason) = reason {
                let task = SyncTask::Upload(
                    UploadJob {
                        host_path: child(dir.host_dir.as_str(), name.as_str()),
                        device_path: child(dir.device_dir.as_str(), name.as_str()),
                        reason,
                        trail: copy_strings(&dir.trail),
                    },
                );
                r.push(task);
                assert(task_views(r@) =~= before.push(task@));
            }
        }
        assert(task_views(r@) =~= hs.take(i + 1).filter_map(upload_of(dir@, name_map::map_of(ds))));
        i = i + 1;
    }
    assert(hs.take(i as int) =~= hs);
    let ghost first = task_views(r@);
    assert(first == uploads(dir@, hs, ds));
    let mut i: usize = 0;
    assert(task_views(r@) =~= first + hs.take(0).filter_map(enter_of(dir@)));
    while i < host.len()
        invariant
            i <= hs.len(),
            hs == host.pairs(),
            task_views(r@) == first + hs.take(i as int).filter_map(enter_of(dir@)),
        decreases hs.len() - i,
    {
        let (name, attr) = host.at(i);
        proof {
            hs.lemma_filter_map_take_succ(enter_of(dir@), i as int);
        }
        let ghost before = task_views(r@);
        if attr.is_dir {
            let mut trail = copy_strings(&dir.trail);
            let ghost above = text::views(trail@);
            trail.push(dir.host_dir.clone());
            assert(text::views(trail@) =~= above.push(dir.host_dir@));
            let task = SyncTask::Enter(
                SyncDir {
                    host_dir: child(dir.host_dir.as_str(), name.as_str()),
                    device_dir: child(dir.device_dir.as_str(), name.as_str()),
                    trail,
                },
            );
            r.push(task);
            assert(task_views(r@) =~= before.push(task@));
        }
        assert(task_views(r@) =~= first + hs.take(i + 1).filter_map(enter_of(dir@)));
        i = i + 1;
    }
    assert(hs.take(i as int) =~= hs);
    let ghost second = task_views(r@);
    assert(second == first + visits(dir@, hs));
    if delete {
        let mut clearance = plan_clearance(dir.device_dir.as_str(), &dir.trail, host, device);
        let ghost third = task_views(clearance@);
        r.append(&mut clearance);
        assert(task_views(r@) =~= second + third);
    }
    assert(task_views(r@) =~= second + sweeps(dir@, delete, hs, ds) + removals(
        dir@,
        delete,
        hs,
        ds,
    ));
    r
}

} // verus!
