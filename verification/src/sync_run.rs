//! The steps of a synchronisation run.

use vstd::prelude::*;

use crate::name_map::NameMap;
use crate::sync;
use crate::sync::{
    plan_dir, plan_sweep, DirView, FileAttributes, Reason, Reporting, SyncDir, SyncOptions,
    SyncTask, TaskView, UploadView,
};
use crate::text;
use crate::text::{decimal_of, join2, join3};

verus! {

/// The task that a run is busy with.
#[derive(Debug)]
pub enum Current {
    /// None.
    Idle,
    /// One that waits for a listing, or for the contents of a file.
    Waiting(SyncTask),
    /// One whose change of the device was asked for.
    Sent(SyncTask),
}

/// A synchronisation run: its settings, the pending tasks, the next one last, and
/// the current one.
#[derive(Debug)]
pub struct SyncRun {
    pub options: SyncOptions,
    pub pending: Vec<SyncTask>,
    pub current: Current,
}

/// What came of the action that a run asked for.
#[derive(Debug)]
pub enum SyncEvent {
    /// The run was just made, or the change of the device is done.
    Proceed,
    /// The listings of the host directory and of the device directory.
    Listed { host: NameMap<FileAttributes>, device: NameMap<FileAttributes> },
    /// The listing of the device directory.
    ListedDevice { device: NameMap<FileAttributes> },
    /// The host file was read and holds `size` bytes.
    Read { size: u64 },
}

/// What a run asks for.
#[derive(Debug)]
pub enum SyncAction {
    /// To list both directories.
    List { host_dir: String, device_dir: String },
    /// To list a device directory that the host lacks.
    ListDevice { device_dir: String },
    /// To read a host file.
    Read { host_path: String },
    /// To upload the file that was just read, where `perform` holds.
    Upload { host_path: String, device_path: String, perform: bool },
    /// To remove a device file, where `perform` holds.
    Remove { device_path: String, perform: bool },
    /// Nothing: the run is over.
    Done,
    /// Nothing: the event does not answer the last action.
    Unexpected,
}

/// A step of a run: lines to show, then an action to perform.
#[derive(Debug)]
pub struct SyncStep {
    pub lines: Vec<String>,
    pub action: SyncAction,
}

/// Where the action of a run failed.
#[derive(Debug, Clone, Copy, PartialEq, Eq, Structural)]
pub enum FailurePoint {
    /// The host directory could not be opened.
    HostDir,
    /// Anywhere else.
    Other,
}

/// The contents of a [`Current`].
pub enum CurrentView {
    Idle,
    Waiting(TaskView),
    Sent(TaskView),
}

/// The contents of a [`SyncRun`].
pub struct RunView {
    pub pending: Seq<TaskView>,
    pub current: CurrentView,
}

/// The contents of a [`SyncEvent`].
pub enum EventView {
    Proceed,
    Listed { host: Seq<(Seq<char>, FileAttributes)>, device: Seq<(Seq<char>, FileAttributes)> },
    ListedDevice { device: Seq<(Seq<char>, FileAttributes)> },
    Read { size: nat },
}

/// The contents of a [`SyncAction`].
pub enum ActionView {
    List { host_dir: Seq<char>, device_dir: Seq<char> },
    ListDevice { device_dir: Seq<char> },
    Read { host_path: Seq<char> },
    Upload { host_path: Seq<char>, device_path: Seq<char>, perform: bool },
    Remove { device_path: Seq<char>, perform: bool },
    Done,
    Unexpected,
}

/// The contents of a [`SyncStep`].
pub struct StepView {
    pub lines: Seq<Seq<char>>,
    pub action: ActionView,
}

impl View for Current {
    type V = CurrentView;

    open spec fn view(&self) -> CurrentView {
        match self {
            Current::Idle => CurrentView::Idle,
            Current::Waiting(t) => CurrentView::Waiting(t@),
            Current::Sent(t) => CurrentView::Sent(t@),
        }
    }
}

impl View for SyncRun {
    type V = RunView;

    open spec fn view(&self) -> RunView {
        RunView { pending: sync::task_views(self.pending@), current: self.current@ }
    }
}

impl View for SyncEvent {
    type V = EventView;

    open spec fn view(&self) -> EventView {
        match self {
            SyncEvent::Proceed => EventView::Proceed,
            SyncEvent::Listed { host, device } => EventView::Listed {
                host: host.pairs(),
                device: device.pairs(),
            },
            SyncEvent::ListedDevice { device } => EventView::ListedDevice {
                device: device.pairs(),
            },
            SyncEvent::Read { size } => EventView::Read { size: *size as nat },
        }
    }
}

impl View for SyncAction {
    type V = ActionView;

    open spec fn view(&self) -> ActionView {
        match self {
            SyncAction::List { host_dir, device_dir } => ActionView::List {
                host_dir: host_dir@,
                device_dir: device_dir@,
            },
            SyncAction::ListDevice { device_dir } => ActionView::ListDevice {
                device_dir: device_dir@,
            },
            SyncAction::Read { host_path } => ActionView::Read { host_path: host_path@ },
            SyncAction::Upload { host_path, device_path, perform } => ActionView::Upload {
                host_path: host_path@,
                device_path: device_path@,
                perform: *perform,
            },
            SyncAction::Remove { device_path, perform } => ActionView::Remove {
                device_path: device_path@,
                perform: *perform,
            },
            SyncAction::Done => ActionView::Done,
            SyncAction::Unexpected => ActionView::Unexpected,
        }
    }
}

impl View for SyncStep {
    type V = StepView;

    open spec fn view(&self) -> StepView {
        StepView { lines: text::views(self.lines@), action: self.action@ }
    }
}

/// The words for a reason.
pub open spec fn reason_words(reason: Reason) -> Seq<char> {
    match reason {
        Reason::SizesDiffer => "sizes are different"@,
        Reason::Missing => "file is missing on device"@,
    }
}

/// The line that reports an upload.
pub open spec fn upload_line(reporting: Reporting, job: UploadView, size: nat) -> Seq<char> {
    match reporting {
        Reporting::Callbacks { progress } => "Uploading "@ + job.host_path + " -> "@
            + job.device_path + " ("@ + text::decimal(size) + " bytes, "@ + reason_words(job.reason)
            + ")"@,
        Reporting::Console { verbose } => "Uploading "@ + text::decimal(size) + " bytes from "@
            + job.host_path + " to "@ + job.device_path + " because "@ + reason_words(job.reason),
    }
}

/// Whether an upload is reported in a line: an upload that is performed with a
/// progress bar is not.
pub open spec fn shows_upload(options: SyncOptions) -> bool {
    match options.reporting {
        Reporting::Callbacks { progress } => options.dry_run || !progress,
        Reporting::Console { verbose } => true,
    }
}

/// The line that reports a removal.
pub open spec fn removal_line(device_path: Seq<char>) -> Seq<char> {
    "Removing "@ + device_path
}

/// The lines that name a directory once it is listed.
pub open spec fn listing_lines(reporting: Reporting, dir: DirView) -> Seq<Seq<char>> {
    match reporting {
        Reporting::Console { verbose: true } => seq![
            "Syncing "@ + dir.host_dir + " to "@ + dir.device_dir,
        ],
        _ => Seq::empty(),
    }
}

/// The step that begins the next pending task, after some lines.
pub open spec fn begin_next(
    options: SyncOptions,
    pending: Seq<TaskView>,
    lines: Seq<Seq<char>>,
) -> (RunView, StepView) {
    if pending.len() == 0 {
        (
            RunView { pending, current: CurrentView::Idle },
            StepView { lines, action: ActionView::Done },
        )
    } else {
        let rest = pending.drop_last();
        let task = pending.last();
        match task {
            TaskView::Enter(d) => (
                RunView { pending: rest, current: CurrentView::Waiting(task) },
                StepView {
                    lines,
                    action: ActionView::List { host_dir: d.host_dir, device_dir: d.device_dir },
                },
            ),
            TaskView::Upload(j) => (
                RunView { pending: rest, current: CurrentView::Waiting(task) },
                StepView { lines, action: ActionView::Read { host_path: j.host_path } },
            ),
            TaskView::Sweep(j) => (
                RunView { pending: rest, current: CurrentView::Waiting(task) },
                StepView { lines, action: ActionView::ListDevice { device_dir: j.device_dir } },
            ),
            TaskView::Remove(j) => (
                RunView { pending: rest, current: CurrentView::Sent(task) },
                StepView {
                    lines: lines.push(removal_line(j.device_path)),
                    action: ActionView::Remove {
                        device_path: j.device_path,
                        perform: !options.dry_run,
                    },
                },
            ),
        }
    }
}

/// The step of a run after an event.
pub open spec fn next(options: SyncOptions, run: RunView, event: EventView) -> (RunView, StepView) {
    match (run.current, event) {
        (CurrentView::Idle, EventView::Proceed) => begin_next(options, run.pending, Seq::empty()),
        (CurrentView::Sent(_), EventView::Proceed) => begin_next(
            options,
            run.pending,
            Seq::empty(),
        ),
        (CurrentView::Waiting(TaskView::Enter(d)), EventView::Listed { host, device }) =>
            begin_next(
                options,
                run.pending + sync::dir_tasks(d, options.delete, host, device).reverse(),
                listing_lines(options.reporting, d),
            ),
        (CurrentView::Waiting(TaskView::Sweep(j)), EventView::ListedDevice { device }) =>
            begin_next(
                options,
                run.pending + sync::sweep_tasks(j, device).reverse(),
                Seq::empty(),
            ),
        (CurrentView::Waiting(TaskView::Upload(j)), EventView::Read { size }) => (
            RunView { pending: run.pending, current: CurrentView::Sent(TaskView::Upload(j)) },
            StepView {
                lines: if shows_upload(options) {
                    seq![upload_line(options.reporting, j, size)]
                } else {
                    Seq::empty()
                },
                action: ActionView::Upload {
                    host_path: j.host_path,
                    device_path: j.device_path,
                    perform: !options.dry_run,
                },
            },
        ),
        _ => (run, StepView { lines: Seq::empty(), action: ActionView::Unexpected }),
    }
}

/// What a failure of the current action is wrapped in, apart from the directories
/// above it.
pub open spec fn own_context(
    reporting: Reporting,
    current: CurrentView,
    point: FailurePoint,
) -> Option<Seq<char>> {
    match (reporting, current) {
        (Reporting::Callbacks { progress }, CurrentView::Waiting(TaskView::Enter(d))) => if point
            == FailurePoint::HostDir {
            Some("failed to read host directory "@ + d.host_dir)
        } else {
            None
        },
        (Reporting::Callbacks { progress }, CurrentView::Waiting(TaskView::Upload(j))) => Some(
            "failed to read "@ + j.host_path,
        ),
        (Reporting::Console { verbose }, CurrentView::Waiting(TaskView::Upload(j))) => Some(
            "failed to upload "@ + j.host_path,
        ),
        (_, CurrentView::Sent(TaskView::Upload(j))) => Some("failed to upload "@ + j.host_path),
        (Reporting::Callbacks { progress }, CurrentView::Sent(TaskView::Remove(j))) => Some(
            "failed to remove "@ + j.device_path,
        ),
        _ => None,
    }
}

/// The host directories above the current task.
pub open spec fn current_trail(current: CurrentView) -> Seq<Seq<char>> {
    match current {
        CurrentView::Idle => Seq::empty(),
        CurrentView::Waiting(t) => task_trail(t),
        CurrentView::Sent(t) => task_trail(t),
    }
}

/// The host directories above a task.
pub open spec fn task_trail(task: TaskView) -> Seq<Seq<char>> {
    match task {
        TaskView::Enter(d) => d.trail,
        TaskView::Upload(j) => j.trail,
        TaskView::Sweep(j) => j.trail,
        TaskView::Remove(j) => j.trail,
    }
}

/// All that a failure of the current action is wrapped in, outermost first: each
/// directory above it, then the action itself.
pub open spec fn failure_contexts(
    reporting: Reporting,
    current: CurrentView,
    point: FailurePoint,
) -> Seq<Seq<char>> {
    let above = current_trail(current).map_values(
        |dir: Seq<char>| "failed to sync host dir: "@ + dir,
    );
    match own_context(reporting, current, point) {
        Some(c) => above.push(c),
        None => above,
    }
}

/// The words for a reason.
pub fn reason_text(reason: Reason) -> (r: &'static str)
    ensures
        r@ == reason_words(reason),
{
    match reason {
        Reason::SizesDiffer => "sizes are different",
        Reason::Missing => "file is missing on device",
    }
}

/// The line that reports an upload.
pub fn upload_text(reporting: Reporting, job: &sync::UploadJob, size: u64) -> (r: String)
    ensures
        r@ == upload_line(reporting, job@, size as nat),
{
    let n = decimal_of(size);
    let why = reason_text(job.reason);
    match reporting {
        Reporting::Callbacks { progress } => {
            let mut r = join3("Uploading ", job.host_path.as_str(), " -> ");
            r.append(job.device_path.as_str());
            r.append(" (");
            r.append(n.as_str());
            r.append(" bytes, ");
            r.append(why);
            r.append(")");
            r
        },
        Reporting::Console { verbose } => {
            let mut r = join3("Uploading ", n.as_str(), " bytes from ");
            r.append(job.host_path.as_str());
            r.append(" to ");
            r.append(job.device_path.as_str());
            r.append(" because ");
            r.append(why);
            r
        },
    }
}

impl SyncRun {
    /// A run that synchronises `host_dir` with `device_dir`.
    pub fn new(host_dir: &str, device_dir: &str, options: SyncOptions) -> (r: SyncRun)
        ensures
            r.options == options,
            r@ == start(host_dir@, device_dir@),
    {
        let dir = SyncDir {
            host_dir: host_dir.to_owned(),
            device_dir: device_dir.to_owned(),
            trail: Vec::new(),
        };
        let mut pending: Vec<SyncTask> = Vec::new();
        pending.push(SyncTask::Enter(dir));
        let r = SyncRun { options, pending, current: Current::Idle };
        assert(dir@.trail =~= Seq::<Seq<char>>::empty());
        assert(r@.pending =~= start(host_dir@, device_dir@).pending);
        r
    }

    /// Begins the next pending task, after the given lines.
    fn begin(&mut self, lines: Vec<String>) -> (r: SyncStep)
        ensures
            final(self).options == old(self).options,
            (final(self)@, r@) == begin_next(
                old(self).options,
                old(self)@.pending,
                text::views(lines@),
            ),
    {
        let ghost before = self@.pending;
        let ghost shown = text::views(lines@);
        let mut lines = lines;
        match self.pending.pop() {
            None => {
                self.current = Current::Idle;
                assert(self@.pending =~= before);
                SyncStep { lines, action: SyncAction::Done }
            },
            Some(task) => {
                assert(self@.pending =~= before.drop_last());
                match task {
                    SyncTask::Enter(d) => {
                        let action = SyncAction::List {
                            host_dir: d.host_dir.clone(),
                            device_dir: d.device_dir.clone(),
                        };
                        self.current = Current::Waiting(SyncTask::Enter(d));
                        SyncStep { lines, action }
                    },
                    SyncTask::Upload(j) => {
                        let action = SyncAction::Read { host_path: j.host_path.clone() };
                        self.current = Current::Waiting(SyncTask::Upload(j));
                        SyncStep { lines, action }
                    },
                    SyncTask::Sweep(j) => {
                        let action = SyncAction::ListDevice { device_dir: j.device_dir.clone() };
                        self.current = Current::Waiting(SyncTask::Sweep(j));
                        SyncStep { lines, action }
                    },
                    SyncTask::Remove(j) => {
                        lines.push(join2("Removing ", j.device_path.as_str()));
                        assert(text::views(lines@) =~= shown.push(removal_line(j.device_path@)));
                        let action = SyncAction::Remove {
                            device_path: j.device_path.clone(),
                            perform: !self.options.dry_run,
                        };
                        self.current = Current::Sent(SyncTask::Remove(j));
                        SyncStep { lines, action }
                    },
                }
            },
        }
    }

    /// Puts tasks before the pending ones, in the given order.
    fn add_tasks(&mut self, tasks: Vec<SyncTask>)
        ensures
            final(self).options == old(self).options,
            final(self).current == old(self).current,
            final(self)@.pending == old(self)@.pending + sync::task_views(tasks@).reverse(),
    {
        let ghost plan = sync::task_views(tasks@);
        let ghost base = self@.pending;
        let mut left = tasks;
        assert(self@.pending =~= base + plan.skip(plan.len() as int).reverse());
        assert(plan.take(plan.len() as int) =~= plan);
        while left.len() > 0
            invariant
                self.options == old(self).options,
                self.current == old(self).current,
                left@.len() <= plan.len(),
                sync::task_views(left@) == plan.take(left@.len() as int),
                self@.pending == base + plan.skip(left@.len() as int).reverse(),
            decreases left@.len(),
        {
            let ghost n = left@.len() as int;
            let ghost pending = self@.pending;
            let ghost before = sync::task_views(left@);
            if let Some(task) = left.pop() {
                self.pending.push(task);
                proof {
                    assert(before[n - 1] == task@);
                    assert(self@.pending =~= pending.push(plan[n - 1]));
                    assert(plan.skip(n - 1).reverse() =~= plan.skip(n).reverse().push(plan[n - 1]));
                    assert(sync::task_views(left@) =~= plan.take(n - 1));
                }
            }
        }
        assert(plan.skip(0) =~= plan);
    }

    /// Takes the run one step further: the event says what came of the last action,
    /// the result says what to do next.
    pub fn step(&mut self, event: SyncEvent) -> (r: SyncStep)
        ensures
            final(self).options == old(self).options,
            (final(self)@, r@) == next(old(self).options, old(self)@, event@),
    {
        let ghost before = self@;
        let mut current = Current::Idle;
        std::mem::swap(&mut current, &mut self.current);
        match current {
            Current::Idle => match event {
                SyncEvent::Proceed => self.begin_silently(),
                _ => unexpected(),
            },
            Current::Sent(task) => match event {
                SyncEvent::Proceed => self.begin_silently(),
                _ => {
                    self.current = Current::Sent(task);
                    unexpected()
                },
            },
            Current::Waiting(SyncTask::Enter(dir)) => match event {
                SyncEvent::Listed { host, device } => {
                    let tasks = plan_dir(&dir, self.options.delete, &host, &device);
                    self.add_tasks(tasks);
                    let mut lines: Vec<String> = Vec::new();
                    assert(text::views(lines@) =~= Seq::empty());
                    match self.options.reporting {
                        Reporting::Console { verbose } => {
                            if verbose {
                                let mut line = join3("Syncing ", dir.host_dir.as_str(), " to ");
                                line.append(dir.device_dir.as_str());
                                lines.push(line);
                                assert(text::views(lines@) =~= listing_lines(
                                    self.options.reporting,
                                    dir@,
                                ));
                            }
                        },
                        Reporting::Callbacks { progress } => {},
                    }
                    self.begin(lines)
                },
                _ => {
                    self.current = Current::Waiting(SyncTask::Enter(dir));
                    unexpected()
                },
            },
            Current::Waiting(SyncTask::Sweep(job)) => match event {
                SyncEvent::ListedDevice { device } => {
                    let tasks = plan_sweep(&job, &device);
                    self.add_tasks(tasks);
                    self.begin_silently()
                },
                _ => {
                    self.current = Current::Waiting(SyncTask::Sweep(job));
                    unexpected()
                },
            },
            Current::Waiting(SyncTask::Upload(job)) => match event {
                SyncEvent::Read { size } => {
                    let shown = match self.options.reporting {
                        Reporting::Callbacks { progress } => self.options.dry_run || !progress,
                        Reporting::Console { verbose } => true,
                    };
                    let mut lines: Vec<String> = Vec::new();
                    assert(text::views(lines@) =~= Seq::empty());
                    if shown {
                        let line = upload_text(self.options.reporting, &job, size);
                        lines.push(line);
                        assert(text::views(lines@) =~= seq![line@]);
                    }
                    let action = SyncAction::Upload {
                        host_path: job.host_path.clone(),
                        device_path: job.device_path.clone(),
                        perform: !self.options.dry_run,
                    };
                    self.current = Current::Sent(SyncTask::Upload(job));
                    SyncStep { lines, action }
                },
                _ => {
                    self.current = Current::Waiting(SyncTask::Upload(job));
                    unexpected()
                },
            },
            Current::Waiting(SyncTask::Remove(job)) => {
                self.current = Current::Waiting(SyncTask::Remove(job));
                unexpected()
            },
        }
    }

    /// What a failure of the last action is wrapped in, outermost first.
    pub fn failure(&self, point: FailurePoint) -> (r: Vec<String>)
        ensures
            text::views(r@) == failure_contexts(self.options.reporting, self@.current, point),
    {
        match &self.current {
            Current::Idle => {
                let r: Vec<String> = Vec::new();
                assert(text::views(r@) =~= failure_contexts(
                    self.options.reporting,
                    self@.current,
                    point,
                ));
                r
            },
            Current::Waiting(SyncTask::Enter(dir)) => {
                let own = match self.options.reporting {
                    Reporting::Callbacks { progress } => if point == FailurePoint::HostDir {
                        Some(join2("failed to read host directory ", dir.host_dir.as_str()))
                    } else {
                        None
                    },
                    Reporting::Console { verbose } => None,
                };
                wrapped(&dir.trail, own)
            },
            Current::Waiting(SyncTask::Upload(job)) => {
                let own = match self.options.reporting {
                    Reporting::Callbacks { progress } => join2(
                        "failed to read ",
                        job.host_path.as_str(),
                    ),
                    Reporting::Console { verbose } => join2(
                        "failed to upload ",
                        job.host_path.as_str(),
                    ),
                };
                wrapped(&job.trail, Some(own))
            },
            Current::Waiting(SyncTask::Sweep(job)) => wrapped(&job.trail, None),
            Current::Waiting(SyncTask::Remove(job)) => wrapped(&job.trail, None),
            Current::Sent(SyncTask::Enter(dir)) => wrapped(&dir.trail, None),
            Current::Sent(SyncTask::Sweep(job)) => wrapped(&job.trail, None),
            Current::Sent(SyncTask::Upload(job)) => wrapped(
                &job.trail,
                Some(join2("failed to upload ", job.host_path.as_str())),
            ),
            Current::Sent(SyncTask::Remove(job)) => {
                let own = match self.options.reporting {
                    Reporting::Callbacks { progress } => Some(
                        join2("failed to remove ", job.device_path.as_str()),
                    ),
                    Reporting::Console { verbose } => None,
                };
                wrapped(&job.trail, own)
            },
        }
    }

    /// Begins the next pending task.
    fn begin_silently(&mut self) -> (r: SyncStep)
        ensures
            final(self).options == old(self).options,
            (final(self)@, r@) == begin_next(old(self).options, old(self)@.pending, Seq::empty()),
    {
        let lines: Vec<String> = Vec::new();
        assert(text::views(lines@) =~= Seq::empty());
        self.begin(lines)
    }
}

/// One context for each directory of a trail, then the action's own, if it has one.
fn wrapped(trail: &Vec<String>, own: Option<String>) -> (r: Vec<String>)
    ensures
        text::views(r@) == ({
            let above = text::views(trail@).map_values(
                |dir: Seq<char>| "failed to sync host dir: "@ + dir,
            );
            match own {
                Some(c) => above.push(c@),
                None => above,
            }
        }),
{
    let ghost above = text::views(trail@).map_values(
        |dir: Seq<char>| "failed to sync host dir: "@ + dir,
    );
    let mut r: Vec<String> = Vec::new();
    let mut i: usize = 0;
    assert(text::views(r@) =~= above.take(0));
    while i < trail.len()
        invariant
            i <= trail@.len(),
            above == text::views(trail@).map_values(
                |dir: Seq<char>| "failed to sync host dir: "@ + dir,
            ),
            text::views(r@) == above.take(i as int),
        decreases trail@.len() - i,
    {
        let ghost before = text::views(r@);
        let c = join2("failed to sync host dir: ", trail[i].as_str());
        r.push(c);
        assert(text::views(r@) =~= before.push(c@));
        assert(above[i as int] == c@);
        assert(text::views(r@) =~= above.take(i + 1));
        i = i + 1;
    }
    assert(above.take(i as int) =~= above);
    if let Some(c) = own {
        r.push(c);
        assert(text::views(r@) =~= above.push(c@));
    }
    r
}

/// The step that answers an event which does not fit.
fn unexpected() -> (r: SyncStep)
    ensures
        r@ == (StepView { lines: Seq::empty(), action: ActionView::Unexpected }),
{
    let lines: Vec<String> = Vec::new();
    assert(text::views(lines@) =~= Seq::empty());
    SyncStep { lines, action: SyncAction::Unexpected }
}

/// The state in which a run of `host_dir` against `device_dir` begins.
pub open spec fn start(host_dir: Seq<char>, device_dir: Seq<char>) -> RunView {
    RunView {
        pending: seq![TaskView::Enter(DirView { host_dir, device_dir, trail: Seq::empty() })],
        current: CurrentView::Idle,
    }
}

} // verus!
