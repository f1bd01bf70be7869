//! What building, staging and starting an activity does, for every package.

use vstd::prelude::*;

use crate::text;
use crate::wasm::{
    after_cargo, after_wasm_opt, asset_ops, cargo_args, package_name, release_path,
    search_after_going_up, search_step, stage_ops, staging_path, start_command, BuildStep,
    Manifest, SearchStep, StageOp, ToolResult, DEVICE_ROOT,
};

verus! {

/// Whether a file name is that of a package's compiled activity: the package's own name,
/// character for character, with an underscore at each hyphen, and `.wasm` behind it.
pub open spec fn is_file_of(file: Seq<char>, name: Seq<char>) -> bool {
    &&& file.len() == name.len() + ".wasm"@.len()
    &&& file.skip(name.len() as int) == ".wasm"@
    &&& forall|i: int|
        0 <= i < name.len() ==> #[trigger] file[i] == (if name[i] == '-' {
            '_'
        } else {
            name[i]
        })
}

/// Whether pieces make the path of a package's compiled activity.
pub open spec fn is_release_path(pieces: Seq<String>, name: Seq<char>) -> bool {
    &&& pieces.len() == 4
    &&& pieces[0]@ == "target"@
    &&& pieces[1]@ == "wasm32-wasip1"@
    &&& pieces[2]@ == "release"@
    &&& is_file_of(pieces[3]@, name)
}

proof fn lemma_pieces(pieces: Seq<String>)
    ensures
        text::views(pieces).len() == pieces.len(),
        forall|i: int| 0 <= i < pieces.len() ==> text::views(pieces)[i] == (#[trigger] pieces[i])@,
{
}

/// The compiled activity of a package is in `target/wasm32-wasip1/release`, under the
/// package's own name with an underscore at each hyphen and every other character as it is.
pub proof fn law_only_hyphens_are_replaced(name: &str, r: Vec<String>)
    requires
        call_ensures(release_path, (name,), r),
    ensures
        is_release_path(r@, name@),
        !name@.contains('-') ==> r@[3]@ == name@ + ".wasm"@,
{
    lemma_pieces(r@);
    let file = r@[3]@;
    assert(file.skip(name@.len() as int) =~= ".wasm"@);
    if !name@.contains('-') {
        assert forall|i: int| 0 <= i < name@.len() implies #[trigger] file[i] == name@[i] by {
            assert(name@.contains(name@[i]));
        }
        assert(file =~= name@ + ".wasm"@);
    }
}

/// Cargo is told to build the package, for the target of activities and optimised.
pub proof fn law_cargo_builds_the_package(name: &str, r: Vec<String>)
    requires
        call_ensures(cargo_args, (name,), r),
    ensures
        text::views(r@) == seq![
            "build"@,
            "--package"@,
            name@,
            "--target"@,
            "wasm32-wasip1"@,
            "--release"@,
        ],
{
}

/// The project is in a directory if and only if that is a package's, with its name;
/// otherwise the search goes on above, as long as there is a directory above.
pub proof fn law_package_ends_the_search(
    manifest: Manifest,
    r: SearchStep,
    moved: bool,
    q: Result<(), String>,
)
    requires
        call_ensures(search_step, (manifest,), r),
        call_ensures(search_after_going_up, (moved,), q),
    ensures
        r is Found <==> manifest is Package,
        manifest matches Manifest::Package(name) ==> r == SearchStep::Found(name),
        q is Ok <==> moved,
        q matches Err(m) ==> m@
            == "could not find a Cargo.toml with a [package] section\nRun this command from within a Wasm activity project."@,
{
}

/// The package is named as the project that was found is, and there is none where none was
/// found.
pub proof fn law_package_has_the_found_name<P, E>(
    project: Result<(P, String), E>,
    r: Result<String, E>,
)
    requires
        call_ensures(package_name::<P, E>, (project,), r),
    ensures
        project matches Ok((root, name)) ==> r == Ok::<String, E>(name),
        project matches Err(e) ==> r == Err::<String, E>(e),
{
}

/// After Cargo ran well, the activity is built, or optimised in place if that was asked
/// for; otherwise the build fails and says why.
pub proof fn law_build_goes_on_after_cargo(
    wasm: &str,
    optimize: bool,
    result: ToolResult,
    r: BuildStep,
)
    requires
        call_ensures(after_cargo, (wasm, optimize, result), r),
    ensures
        r is Built <==> result == (ToolResult::Exited { success: true }) && !optimize,
        r is Optimize <==> result == (ToolResult::Exited { success: true }) && optimize,
        r is FailToStart <==> result == ToolResult::NotStarted,
        r matches BuildStep::Optimize { line, args } ==> line@ == "Optimizing "@ + wasm@
            + " with wasm-opt..."@ && text::views(args@) == seq![
            "-Oz"@,
            "--output"@,
            wasm@,
            wasm@,
        ],
        r matches BuildStep::Fail(m) ==> m@ == if result == ToolResult::NotFound {
            "cargo not found — install Rust from https://rustup.rs\nAlso run: rustup target add "@
                + "wasm32-wasip1"@
        } else {
            "cargo build failed"@
        },
{
}

/// After the optimizer ran well, the activity is built; otherwise the build fails and says
/// why.
pub proof fn law_build_ends_after_wasm_opt(result: ToolResult, r: BuildStep)
    requires
        call_ensures(after_wasm_opt, (result,), r),
    ensures
        r is Built <==> result == (ToolResult::Exited { success: true }),
        r is FailToStart <==> result == ToolResult::NotStarted,
        !(r is Optimize),
        r matches BuildStep::Fail(m) ==> m@ == if result == ToolResult::NotFound {
            "wasm-opt not found\n  macOS:    brew install binaryen\n  Ubuntu:   apt install binaryen\n  Windows:  scoop install binaryen\n  Releases: https://github.com/WebAssembly/binaryen/releases"@
        } else {
            "wasm-opt failed"@
        },
{
}

/// Whether pieces make the path of the staging directory.
pub open spec fn is_staging_dir(pieces: Seq<String>) -> bool {
    pieces.len() == 2 && pieces[0]@ == "target"@ && pieces[1]@ == "deploy"@
}

/// Activities are staged in `target/deploy`.
pub proof fn law_staging_has_its_place(r: Vec<String>)
    requires
        call_ensures(staging_path, (), r),
    ensures
        is_staging_dir(r@),
{
    lemma_pieces(r@);
}

/// Staging clears the staging directory if there is one, creates it, and copies the compiled
/// activity into it under the package's own name; in this order, and nothing else.
pub proof fn law_activity_is_staged(
    name: &str,
    wasm: &str,
    staging_exists: bool,
    r: Vec<StageOp>,
)
    requires
        call_ensures(stage_ops, (name, wasm, staging_exists), r),
    ensures
        r@.len() == if staging_exists {
            3int
        } else {
            2
        },
        staging_exists ==> (r@[0] matches StageOp::Clear { dir, context } && is_staging_dir(dir@)
            && context@ == "failed to clear target/deploy"@),
        r@[r@.len() - 2] matches StageOp::Create { dir, context } && is_staging_dir(dir@) && context@
            == "failed to create target/deploy"@,
        r@[r@.len() - 1] matches StageOp::CopyFile { from, to, context } && is_release_path(
            from@,
            name@,
        ) && to@.len() == 3 && to@[0]@ == "target"@ && to@[1]@ == "deploy"@ && to@[2]@ == name@
            + ".wasm"@ && context@ == "failed to copy "@ + wasm@,
{
    if staging_exists {
        if let StageOp::Clear { dir, context } = r@[0] {
            lemma_pieces(dir@);
        }
    }
    if let StageOp::Create { dir, context } = r@[r@.len() - 2] {
        lemma_pieces(dir@);
    }
    if let StageOp::CopyFile { from, to, context } = r@[r@.len() - 1] {
        lemma_pieces(from@);
        lemma_pieces(to@);
        assert(from@[3]@.skip(name@.len() as int) =~= ".wasm"@);
    }
}

/// The assets, if there are any, are copied into the staging directory.
pub proof fn law_assets_are_staged(has_assets: bool, r: Vec<StageOp>)
    requires
        call_ensures(asset_ops, (has_assets,), r),
    ensures
        !has_assets ==> r@.len() == 0,
        has_assets ==> r@.len() == 1 && (r@[0] matches StageOp::CopyDir { from, to, context }
            && from@.len() == 1 && from@[0]@ == "assets"@ && is_staging_dir(to@) && context@
            == "failed to copy assets"@),
{
    if has_assets {
        if let StageOp::CopyDir { from, to, context } = r@[0] {
            lemma_pieces(from@);
            lemma_pieces(to@);
        }
    }
}

/// The command that starts an activity names its file in the directory of its package.
pub proof fn law_activity_is_started_by_its_name(name: &str, r: String)
    requires
        call_ensures(start_command, (name,), r),
    ensures
        r@ == "start wasm user/wasm/"@ + name@ + "/"@ + name@ + ".wasm"@,
{
}

/// The file that is started is the one in the directory of the package where activities are
/// deployed, seen from the directory of all activities.
pub proof fn law_started_file_is_where_it_is_deployed(name: &str, r: String)
    requires
        call_ensures(start_command, (name,), r),
    ensures
        r@.take("start wasm "@.len() as int) == "start wasm "@,
        "/sd/activities/"@ + r@.skip("start wasm "@.len() as int) == DEVICE_ROOT@ + "/"@ + name@
            + "/"@ + name@ + ".wasm"@,
        DEVICE_ROOT@ == "/sd/activities/user/wasm"@,
{
    reveal_strlit("start wasm user/wasm/");
    reveal_strlit("start wasm ");
    reveal_strlit("/sd/activities/");
    reveal_strlit("/sd/activities/user/wasm");
    reveal_strlit("/");
    assert(r@.take("start wasm "@.len() as int) =~= "start wasm "@);
    assert("/sd/activities/"@ + r@.skip("start wasm "@.len() as int) =~= DEVICE_ROOT@ + "/"@ + name@
        + "/"@ + name@ + ".wasm"@);
}

} // verus!
