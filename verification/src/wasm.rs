//! Building, staging and starting Wasm activities.

use vstd::prelude::*;

use crate::text;
use crate::text::{chars_of, join2, join3, join5};

verus! {

/// The compilation target of activities.
pub const TARGET: &'static str = "wasm32-wasip1";

/// Where activities are deployed on the device.
pub const DEVICE_ROOT: &'static str = "/sd/activities/user/wasm";

/// What a directory says of a Cargo project.
#[derive(Debug)]
pub enum Manifest {
    /// There is no `Cargo.toml`.
    Absent,
    /// The `Cargo.toml` has no `[package]` section, as that of a workspace root.
    WithoutPackage,
    /// The `Cargo.toml` is that of the named package.
    Package(String),
}

/// How the search for the project goes on.
#[derive(Debug)]
pub enum SearchStep {
    /// The project root is found, with the package name.
    Found(String),
    /// The directory above is next.
    GoUp,
}

/// The step after a directory was looked at: a package ends the search.
pub open spec fn step_after(manifest: Manifest) -> SearchStep {
    match manifest {
        Manifest::Package(name) => SearchStep::Found(name),
        Manifest::WithoutPackage => SearchStep::GoUp,
        Manifest::Absent => SearchStep::GoUp,
    }
}

/// The step after a directory was looked at.
pub fn search_step(manifest: Manifest) -> (r: SearchStep)
    ensures
        r == step_after(manifest),
{
    match manifest {
        Manifest::Package(name) => SearchStep::Found(name),
        Manifest::WithoutPackage => SearchStep::GoUp,
        Manifest::Absent => SearchStep::GoUp,
    }
}

/// What to tell the user when no directory holds a project.
pub open spec fn no_project() -> Seq<char> {
    "could not find a Cargo.toml with a [package] section\nRun this command from within a Wasm activity project."@
}

/// Whether the search can go on after it tried to go up, or what to tell the user if
/// there was no directory above.
pub fn search_after_going_up(moved: bool) -> (r: Result<(), String>)
    ensures
        r is Ok <==> moved,
        r matches Err(message) ==> message@ == no_project(),
{
    if moved {
        Ok(())
    } else {
        Err(
            "could not find a Cargo.toml with a [package] section\nRun this command from within a Wasm activity project.".to_owned(),
        )
    }
}

/// What a search finds that starts with the first of the directories, each one above
/// the one before: the position of the project root, and the package name.
pub open spec fn search(levels: Seq<Manifest>) -> Option<(int, String)>
    decreases levels.len(),
{
    if levels.len() == 0 {
        None
    } else {
        match step_after(levels.first()) {
            SearchStep::Found(name) => Some((0, name)),
            SearchStep::GoUp => match search(levels.drop_first()) {
                Some((i, name)) => Some((i + 1, name)),
                None => None,
            },
        }
    }
}

/// The search finds the nearest directory with a package, and finds none only where
/// there is none.
pub proof fn law_nearest_package_is_found(levels: Seq<Manifest>)
    ensures
        match search(levels) {
            Some((i, name)) => 0 <= i < levels.len() && levels[i] == Manifest::Package(name)
                && forall|j: int| 0 <= j < i ==> !(#[trigger] levels[j] is Package),
            None => forall|j: int| 0 <= j < levels.len() ==> !(#[trigger] levels[j] is Package),
        },
    decreases levels.len(),
{
    if levels.len() > 0 && !(levels.first() is Package) {
        let rest = levels.drop_first();
        law_nearest_package_is_found(rest);
        assert forall|j: int| 0 < j < levels.len() implies #[trigger] levels[j] == rest[j - 1] by {}
    }
}

/// The package name of the project that a search found, with its root.
pub fn package_name<P, E>(project: Result<(P, String), E>) -> (r: Result<String, E>)
    ensures
        match project {
            Ok((root, name)) => r == Ok::<String, E>(name),
            Err(e) => r == Err::<String, E>(e),
        },
{
    match project {
        Ok((_, name)) => Ok(name),
        Err(e) => Err(e),
    }
}

/// The arguments that make Cargo compile a package.
pub fn cargo_args(name: &str) -> (r: Vec<String>)
    ensures
        text::views(r@) == seq![
            "build"@,
            "--package"@,
            name@,
            "--target"@,
            TARGET@,
            "--release"@,
        ],
{
    let mut r: Vec<String> = Vec::new();
    r.push("build".to_owned());
    r.push("--package".to_owned());
    r.push(name.to_owned());
    r.push("--target".to_owned());
    r.push(TARGET.to_owned());
    r.push("--release".to_owned());
    assert(text::views(r@) =~= seq![
        "build"@,
        "--package"@,
        name@,
        "--target"@,
        TARGET@,
        "--release"@,
    ]);
    r
}

/// What came of running a tool.
#[derive(Debug, Clone, Copy, PartialEq, Eq, Structural)]
pub enum ToolResult {
    /// The tool is not installed.
    NotFound,
    /// The tool could not be started for another reason.
    NotStarted,
    /// The tool ran.
    Exited { success: bool },
}

/// What a build does next.
#[derive(Debug)]
pub enum BuildStep {
    /// Shows a line and runs the optimizer.
    Optimize { line: String, args: Vec<String> },
    /// Nothing: the package is built.
    Built,
    /// Fails, with what to tell the user.
    Fail(String),
    /// Fails with the error that kept the tool from starting.
    FailToStart,
}

/// What to tell the user when Cargo is not installed.
pub open spec fn no_cargo() -> Seq<char> {
    "cargo not found — install Rust from https://rustup.rs\nAlso run: rustup target add "@ + TARGET@
}

/// What to tell the user when the optimizer is not installed.
pub open spec fn no_wasm_opt() -> Seq<char> {
    "wasm-opt not found\n  macOS:    brew install binaryen\n  Ubuntu:   apt install binaryen\n  Windows:  scoop install binaryen\n  Releases: https://github.com/WebAssembly/binaryen/releases"@
}

/// What a build does once Cargo ran: it goes on to the optimizer if that was asked
/// for.
/// `wasm` is the path of the compiled activity, as text.
pub fn after_cargo(wasm: &str, optimize: bool, result: ToolResult) -> (r: BuildStep)
    ensures
        match result {
            ToolResult::NotFound => r matches BuildStep::Fail(m) && m@ == no_cargo(),
            ToolResult::NotStarted => r is FailToStart,
            ToolResult::Exited { success } => if !success {
                r matches BuildStep::Fail(m) && m@ == "cargo build failed"@
            } else if optimize {
                r matches BuildStep::Optimize { line, args } && line@ == "Optimizing "@ + wasm@
                    + " with wasm-opt..."@ && text::views(args@) == seq![
                    "-Oz"@,
                    "--output"@,
                    wasm@,
                    wasm@,
                ]
            } else {
                r is Built
            },
        },
{
    match result {
        ToolResult::NotFound => BuildStep::Fail(
            join2(
                "cargo not found — install Rust from https://rustup.rs\nAlso run: rustup target add ",
                TARGET,
            ),
        ),
        ToolResult::NotStarted => BuildStep::FailToStart,
        ToolResult::Exited { success } => if !success {
            BuildStep::Fail("cargo build failed".to_owned())
        } else if optimize {
            let line = join3("Optimizing ", wasm, " with wasm-opt...");
            let mut args: Vec<String> = Vec::new();
            args.push("-Oz".to_owned());
            args.push("--output".to_owned());
            args.push(wasm.to_owned());
            args.push(wasm.to_owned());
            assert(text::views(args@) =~= seq!["-Oz"@, "--output"@, wasm@, wasm@]);
            BuildStep::Optimize { line, args }
        } else {
            BuildStep::Built
        },
    }
}

/// What a build does once the optimizer ran.
pub fn after_wasm_opt(result: ToolResult) -> (r: BuildStep)
    ensures
        match result {
            ToolResult::NotFound => r matches BuildStep::Fail(m) && m@ == no_wasm_opt(),
            ToolResult::NotStarted => r is FailToStart,
            ToolResult::Exited { success } => if success {
                r is Built
            } else {
                r matches BuildStep::Fail(m) && m@ == "wasm-opt failed"@
            },
        },
{
    match result {
        ToolResult::NotFound => BuildStep::Fail(
            "wasm-opt not found\n  macOS:    brew install binaryen\n  Ubuntu:   apt install binaryen\n  Windows:  scoop install binaryen\n  Releases: https://github.com/WebAssembly/binaryen/releases".to_owned(),
        ),
        ToolResult::NotStarted => BuildStep::FailToStart,
        ToolResult::Exited { success } => if success {
            BuildStep::Built
        } else {
            BuildStep::Fail("wasm-opt failed".to_owned())
        },
    }
}

/// Where activities are staged in the project, as the pieces that are joined to make the
/// path.
pub open spec fn staging_dir() -> Seq<Seq<char>> {
    seq!["target"@, "deploy"@]
}

/// Where an activity is staged, as pieces.
pub open spec fn staged(package_name: Seq<char>) -> Seq<Seq<char>> {
    staging_dir().push(package_name + ".wasm"@)
}

/// A step of staging, with the context of its failure. Paths are given as the pieces
/// that are joined to make them.
#[derive(Debug)]
pub enum StageOp {
    /// Removes the staging directory.
    Clear { dir: Vec<String>, context: String },
    /// Creates the staging directory.
    Create { dir: Vec<String>, context: String },
    /// Copies a file.
    CopyFile { from: Vec<String>, to: Vec<String>, context: String },
    /// Copies all that is in a directory.
    CopyDir { from: Vec<String>, to: Vec<String>, context: String },
}

/// Whether a step creates the staging directory.
pub open spec fn is_create(op: StageOp) -> bool {
    op matches StageOp::Create { dir, context } && text::views(dir@) == staging_dir() && context@
        == "failed to create target/deploy"@
}

/// Whether a step clears the staging directory.
pub open spec fn is_clear(op: StageOp) -> bool {
    op matches StageOp::Clear { dir, context } && text::views(dir@) == staging_dir() && context@
        == "failed to clear target/deploy"@
}

/// Whether a step copies the compiled activity, whose path reads `wasm`, into the staging
/// directory.
pub open spec fn is_copy_of_wasm(op: StageOp, package_name: Seq<char>, wasm: Seq<char>) -> bool {
    op matches StageOp::CopyFile { from, to, context } && text::views(from@) == released(
        package_name,
    ) && text::views(to@) == staged(package_name) && context@ == "failed to copy "@ + wasm
}

/// Whether a step copies the assets into the staging directory.
pub open spec fn is_copy_of_assets(op: StageOp) -> bool {
    op matches StageOp::CopyDir { from, to, context } && text::views(from@) == seq!["assets"@]
        && text::views(to@) == staging_dir() && context@ == "failed to copy assets"@
}

/// The pieces of the path where activities are staged.
pub fn staging_path() -> (r: Vec<String>)
    ensures
        text::views(r@) == staging_dir(),
{
    let mut r: Vec<String> = Vec::new();
    r.push("target".to_owned());
    r.push("deploy".to_owned());
    assert(text::views(r@) =~= staging_dir());
    r
}

/// The steps that stage an activity: what was staged before is cleared, then the
/// compiled activity is copied. `wasm` is the path of the compiled activity, as text.
pub fn stage_ops(package_name: &str, wasm: &str, staging_exists: bool) -> (r: Vec<StageOp>)
    ensures
        ({
            let n: int = if staging_exists {
                1
            } else {
                0
            };
            &&& r@.len() == n + 2
            &&& staging_exists ==> is_clear(r@[0])
            &&& is_create(r@[n])
            &&& is_copy_of_wasm(r@[n + 1], package_name@, wasm@)
        }),
{
    let mut r: Vec<StageOp> = Vec::new();
    if staging_exists {
        r.push(
            StageOp::Clear {
                dir: staging_path(),
                context: "failed to clear target/deploy".to_owned(),
            },
        );
    }
    r.push(
        StageOp::Create {
            dir: staging_path(),
            context: "failed to create target/deploy".to_owned(),
        },
    );
    let from = release_path(package_name);
    let mut to = staging_path();
    let ghost dir = text::views(to@);
    let file = join2(package_name, ".wasm");
    to.push(file);
    assert(text::views(to@) =~= dir.push(file@));
    r.push(StageOp::CopyFile { from, to, context: join2("failed to copy ", wasm) });
    r
}

/// The steps that stage the assets once the activity is staged, if there are any.
pub fn asset_ops(has_assets: bool) -> (r: Vec<StageOp>)
    ensures
        r@.len() == (if has_assets {
            1int
        } else {
            0
        }),
        has_assets ==> is_copy_of_assets(r@[0]),
{
    let mut r: Vec<StageOp> = Vec::new();
    if has_assets {
        let mut from: Vec<String> = Vec::new();
        from.push("assets".to_owned());
        assert(text::views(from@) =~= seq!["assets"@]);
        r.push(
            StageOp::CopyDir {
                from,
                to: staging_path(),
                context: "failed to copy assets".to_owned(),
            },
        );
    }
    r
}

/// The shell command that launches an activity on the device.
pub open spec fn start_line(package_name: Seq<char>) -> Seq<char> {
    "start wasm user/wasm/"@ + package_name + "/"@ + package_name + ".wasm"@
}

/// Returns the shell command to launch the activity on the device.
pub fn start_command(package_name: &str) -> (r: String)
    ensures
        r@ == start_line(package_name@),
{
    join5("start wasm user/wasm/", package_name, "/", package_name, ".wasm")
}

/// A name with an underscore for each hyphen.
pub open spec fn underscored(name: Seq<char>) -> Seq<char> {
    name.map_values(
        |c: char|
            if c == '-' {
                '_'
            } else {
                c
            },
    )
}

/// The path of a compiled activity in the project, as the pieces that are joined to make
/// it.
pub open spec fn released(package_name: Seq<char>) -> Seq<Seq<char>> {
    seq!["target"@, TARGET@, "release"@, underscored(package_name) + ".wasm"@]
}

/// Path to the compiled wasm binary in the local target directory, as the pieces that are
/// joined to make it. Cargo normalises hyphens to underscores in binary output names.
pub fn release_path(package_name: &str) -> (r: Vec<String>)
    ensures
        text::views(r@) == released(package_name@),
{
    let v = chars_of(package_name);
    let mut file = String::new();
    let mut i: usize = 0;
    while i < v.len()
        invariant
            i <= v@.len(),
            v@ == package_name@,
            file@ == underscored(v@).take(i as int),
        decreases v@.len() - i,
    {
        let c = if v[i] == '-' {
            '_'
        } else {
            v[i]
        };
        assert(underscored(v@)[i as int] == c);
        assert(underscored(v@).take(i + 1) =~= underscored(v@).take(i as int).push(c));
        file.push(c);
        i = i + 1;
    }
    assert(underscored(v@).take(i as int) =~= underscored(v@));
    file.append(".wasm");
    let mut r: Vec<String> = Vec::new();
    r.push("target".to_owned());
    r.push(TARGET.to_owned());
    r.push("release".to_owned());
    r.push(file);
    assert(text::views(r@) =~= released(package_name@));
    r
}

/// The file name of a compiled activity has no hyphen.
pub proof fn law_released_name_has_no_hyphen(package_name: Seq<char>)
    ensures
        !underscored(package_name).contains('-'),
        underscored(package_name).len() == package_name.len(),
{
}

/// The start command launches the file of the name under which the activity is
/// staged, from the directory of the package.
pub proof fn law_started_file_is_staged_file(package_name: Seq<char>)
    ensures
        staged(package_name) == seq!["target"@, "deploy"@, package_name + ".wasm"@],
        start_line(package_name) == "start wasm user/wasm/"@ + package_name + "/"@ + staged(
            package_name,
        ).last(),
{
    assert(staged(package_name) =~= seq!["target"@, "deploy"@, package_name + ".wasm"@]);
    assert(start_line(package_name) =~= "start wasm user/wasm/"@ + package_name + "/"@ + (
    package_name + ".wasm"@));
}

} // verus!
