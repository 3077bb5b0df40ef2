//! What comes of a compilation.
use crate::error::SolcError;
use crate::key_laws;
use crate::maps::ByText;
use crate::path;
use crate::text;
use crate::zksync::artifact_output::zk;
use crate::zksync::artifact_output::zk::{ArtifactFileView, Artifacts};
use crate::zksync::artifact_output::OutputContext;
use crate::zksync::compile::gather_laws;
use crate::zksync::compile::output::{
    AggregatedCompilerOutput, AggregatedCompilerOutputView, VersionedContractView,
    VersionedSourceFileView,
};
use crate::zksync::compile::project;
use crate::zksync::compile::project::{Project, ProjectCompileOutput};
use crate::zksync::compile::stages;
use vstd::prelude::*;

verus! {

/// Whether what comes of a compilation tells which messages count just as the project does.
pub open spec fn has_filters_of(res: ProjectCompileOutput, project: Project) -> bool {
    &&& res.ignored_error_codes@ == project.ignored_error_codes@
    &&& res.ignored_file_paths@.len() == project.ignored_file_paths@.len()
    &&& forall|i: int|
        0 <= i < project.ignored_file_paths@.len() ==> (#[trigger] res.ignored_file_paths@[i])@
            == project.ignored_file_paths@[i]@
    &&& res.compiler_severity_filter == project.compiler_severity_filter
}

/// Whether what comes of a compilation is all that the compiler emitted, and all artifacts.
pub open spec fn holds_all(
    res: ProjectCompileOutput,
    output: AggregatedCompilerOutputView,
    compiled: Seq<(Seq<char>, Seq<(Seq<char>, Seq<ArtifactFileView>)>)>,
    cached: Seq<(Seq<char>, Seq<(Seq<char>, Seq<ArtifactFileView>)>)>,
) -> bool {
    &&& res.compiler_output.errors@ == output.errors
    &&& res.compiler_output.sources@ == output.sources
    &&& res.compiler_output.contracts@ == output.contracts
    &&& res.compiler_output.recompiled_with_detect_missing_libraries
        == output.recompiled_with_detect_missing_libraries
    &&& res.compiled_artifacts@ == compiled
    &&& res.cached_artifacts@ == cached
}

/// Whether artifacts are the same, but for the paths of files, in which `/` stands in place of
/// each `\\`.
pub open spec fn are_slashed(
    res: Seq<(Seq<char>, Seq<(Seq<char>, Seq<ArtifactFileView>)>)>,
    all: Seq<(Seq<char>, Seq<(Seq<char>, Seq<ArtifactFileView>)>)>,
) -> bool {
    key_laws::is_rekeyed::<ByText, Seq<(Seq<char>, Seq<ArtifactFileView>)>>(
        res,
        zk::changed_files(all, zk::slashes()),
        |key: Seq<char>| path::slashed(key),
    )
}

/// Whether what comes of a compilation is all that the compiler emitted, and all artifacts, with
/// `/` in place of each `\\` of the paths.
pub open spec fn holds_all_slashed(
    res: ProjectCompileOutput,
    output: AggregatedCompilerOutputView,
    compiled: Seq<(Seq<char>, Seq<(Seq<char>, Seq<ArtifactFileView>)>)>,
    cached: Seq<(Seq<char>, Seq<(Seq<char>, Seq<ArtifactFileView>)>)>,
) -> bool {
    let change = |key: Seq<char>| path::slashed(key);
    &&& res.compiler_output.errors@ == output.errors
    &&& key_laws::is_rekeyed::<ByText, Seq<VersionedSourceFileView>>(
        res.compiler_output.sources@,
        output.sources,
        change,
    )
    &&& key_laws::is_rekeyed::<ByText, Seq<(Seq<char>, Seq<VersionedContractView>)>>(
        res.compiler_output.contracts@,
        output.contracts,
        change,
    )
    &&& res.compiler_output.recompiled_with_detect_missing_libraries
        == output.recompiled_with_detect_missing_libraries
    &&& are_slashed(res.compiled_artifacts@, compiled)
    &&& are_slashed(res.cached_artifacts@, cached)
}

/// Whether artifacts are the same but for the paths of their files, which are changed one by one.
pub open spec fn has_changed_files(
    res: Seq<(Seq<char>, Seq<(Seq<char>, Seq<ArtifactFileView>)>)>,
    all: Seq<(Seq<char>, Seq<(Seq<char>, Seq<ArtifactFileView>)>)>,
    change: spec_fn(Seq<char>) -> Seq<char>,
) -> bool {
    &&& res.len() == all.len()
    &&& forall|i: int|
        #![trigger res[i]]
        0 <= i < all.len() ==> res[i].0 == all[i].0 && res[i].1.len() == all[i].1.len()
    &&& forall|i: int, j: int|
        #![trigger res[i].1[j]]
        0 <= i < all.len() && 0 <= j < all[i].1.len() ==> res[i].1[j].0 == all[i].1[j].0
            && res[i].1[j].1.len() == all[i].1[j].1.len()
    &&& forall|i: int, j: int, k: int|
        #![trigger res[i].1[j].1[k]]
        0 <= i < all.len() && 0 <= j < all[i].1.len() && 0 <= k < all[i].1[j].1.len() ==> {
            &&& res[i].1[j].1[k].artifact == all[i].1[j].1[k].artifact
            &&& res[i].1[j].1[k].version == all[i].1[j].1[k].version
            &&& res[i].1[j].1[k].file == change(all[i].1[j].1[k].file)
        }
}

/// Changing the paths of artifacts' files changes nothing else: each artifact stays under the
/// same file and name, with the same contents and version.
pub proof fn law_changed_files(
    all: Seq<(Seq<char>, Seq<(Seq<char>, Seq<ArtifactFileView>)>)>,
    change: spec_fn(Seq<char>) -> Seq<char>,
)
    ensures
        has_changed_files(zk::changed_files(all, change), all, change),
{
    let res = zk::changed_files(all, change);
    assert forall|i: int| #![trigger res[i]] 0 <= i < all.len() implies res[i].0 == all[i].0
        && res[i].1.len() == all[i].1.len() by {
        assert(res[i].1 == zk::changed_names(all[i].1, change));
    }
    assert forall|i: int, j: int|
        #![trigger res[i].1[j]]
        0 <= i < all.len() && 0 <= j < all[i].1.len() implies res[i].1[j].0 == all[i].1[j].0
        && res[i].1[j].1.len() == all[i].1[j].1.len() by {
        assert(res[i].1 == zk::changed_names(all[i].1, change));
        assert(res[i].1[j].1 == zk::changed_list(all[i].1[j].1, change));
    }
    assert forall|i: int, j: int, k: int|
        #![trigger res[i].1[j].1[k]]
        0 <= i < all.len() && 0 <= j < all[i].1.len() && 0 <= k < all[i].1[j].1.len() implies {
        &&& res[i].1[j].1[k].artifact == all[i].1[j].1[k].artifact
        &&& res[i].1[j].1[k].version == all[i].1[j].1[k].version
        &&& res[i].1[j].1[k].file == change(all[i].1[j].1[k].file)
    } by {
        assert(res[i].1 == zk::changed_names(all[i].1, change));
        assert(res[i].1[j].1 == zk::changed_list(all[i].1[j].1, change));
        assert(res[i].1[j].1[k] == zk::changed_file(all[i].1[j].1[k], change));
    }
}

/// Artifacts that are to be written have their paths joined to the artifacts folder, and are the
/// same otherwise. Those that are not to be written are the same altogether.
pub proof fn law_project_artifacts(progress: zk::Progress, project: Project)
    ensures
        project::project_artifacts(progress, project, false) == progress.artifacts,
        has_changed_files(
            project::project_artifacts(progress, project, true),
            progress.artifacts,
            |file: Seq<char>| path::join_path(project.paths.zksync_artifacts@, file),
        ),
{
    let folder = project.paths.zksync_artifacts@;
    let change = |file: Seq<char>| path::join_path(folder, file);
    assert(zk::joins(folder) =~= change);
    law_changed_files(progress.artifacts, zk::joins(folder));
}

/// Slashing artifacts keeps each of them: only paths change.
pub proof fn law_slashed_artifacts(all: Seq<(Seq<char>, Seq<(Seq<char>, Seq<ArtifactFileView>)>)>)
    ensures
        are_slashed(zk::slashed_files(all), all),
        has_changed_files(
            zk::changed_files(all, zk::slashes()),
            all,
            |file: Seq<char>| path::slashed(file),
        ),
{
    assert(zk::slashes() =~= |file: Seq<char>| path::slashed(file));
    law_changed_files(all, zk::slashes());
    key_laws::law_slashed_entries::<ByText, Seq<(Seq<char>, Seq<ArtifactFileView>)>>(
        zk::changed_files(all, zk::slashes()),
    );
}

proof fn lemma_filters(res: ProjectCompileOutput, project: Project)
    requires
        res@.ignored_error_codes == project.ignored_error_codes@,
        res@.ignored_file_paths == text::texts(project.ignored_file_paths@),
        res@.compiler_severity_filter == project.compiler_severity_filter,
    ensures
        has_filters_of(res, project),
{
    let a = text::texts(res.ignored_file_paths@);
    let b = text::texts(project.ignored_file_paths@);
    assert(a == b);
    assert(a.len() == res.ignored_file_paths@.len());
    assert(b.len() == project.ignored_file_paths@.len());
    assert forall|i: int| 0 <= i < project.ignored_file_paths@.len() implies (
    #[trigger] res.ignored_file_paths@[i])@ == project.ignored_file_paths@[i]@ by {
        assert(a[i] == res.ignored_file_paths@[i]@);
        assert(b[i] == project.ignored_file_paths@[i]@);
    }
}

/// A compilation ends with all messages, source files and contracts that the compiler emitted,
/// with the artifacts of what was compiled and with those that the cache gave, and with the
/// filters of the project.
pub proof fn law_conclusion(
    project: Project,
    output: AggregatedCompilerOutputView,
    compiled: Seq<(Seq<char>, Seq<(Seq<char>, Seq<ArtifactFileView>)>)>,
    cached: Seq<(Seq<char>, Seq<(Seq<char>, Seq<ArtifactFileView>)>)>,
    res: ProjectCompileOutput,
)
    requires
        res@ == project::compile_output(project, output, compiled, cached),
    ensures
        holds_all(res, output, compiled, cached),
        has_filters_of(res, project),
{
    lemma_filters(res, project);
}

/// What comes of a compilation is all of it: where the project does not ask for `/` in paths, or
/// where `\\` is no separator, nothing is changed; otherwise nothing but paths.
pub proof fn law_concluded(
    project: Project,
    output: AggregatedCompilerOutputView,
    compiled: Seq<(Seq<char>, Seq<(Seq<char>, Seq<ArtifactFileView>)>)>,
    cached: Seq<(Seq<char>, Seq<(Seq<char>, Seq<ArtifactFileView>)>)>,
    res: ProjectCompileOutput,
)
    requires
        res@ == stages::concluded(
            project,
            project::compile_output(project, output, compiled, cached),
        ),
    ensures
        !project.slash_paths || !project.windows ==> holds_all(res, output, compiled, cached),
        project.slash_paths && project.windows ==> holds_all_slashed(
            res,
            output,
            compiled,
            cached,
        ),
        has_filters_of(res, project),
{
    lemma_filters(res, project);
    gather_laws::law_slashed_output(output);
    law_slashed_artifacts(compiled);
    law_slashed_artifacts(cached);
}

/// Slashing what comes of a compilation changes its paths only, and only on Windows.
pub proof fn law_slashed_outcome(
    given: ProjectCompileOutput,
    windows: bool,
    res: ProjectCompileOutput,
)
    requires
        res@ == given@.slashed_on(windows),
    ensures
        windows ==> holds_all_slashed(
            res,
            given.compiler_output@,
            given.compiled_artifacts@,
            given.cached_artifacts@,
        ),
        !windows ==> holds_all(
            res,
            given.compiler_output@,
            given.compiled_artifacts@,
            given.cached_artifacts@,
        ),
        res.ignored_error_codes@ == given.ignored_error_codes@,
        res.compiler_severity_filter == given.compiler_severity_filter,
        text::texts(res.ignored_file_paths@) == text::texts(given.ignored_file_paths@),
{
    gather_laws::law_slashed_output(given.compiler_output@);
    law_slashed_artifacts(given.compiled_artifacts@);
    law_slashed_artifacts(given.cached_artifacts@);
}

/// The cache file is left as it is just if no artifacts are written, the messages make the build
/// fail, or a run was repeated to detect missing libraries.
pub proof fn law_skipped_cache(project: Project, output: AggregatedCompilerOutput)
    ensures
        project::skips_cache(project, output, true),
        project.no_artifacts ==> project::skips_cache(project, output, false),
        output@.recompiled_with_detect_missing_libraries ==> project::skips_cache(
            project,
            output,
            false,
        ),
        !project.no_artifacts && !output@.recompiled_with_detect_missing_libraries
            ==> !project::skips_cache(project, output, false),
{
}

/// Outputs that are told to hold the same do.
pub proof fn law_views_tell_outputs_apart(
    a: AggregatedCompilerOutput,
    b: AggregatedCompilerOutput,
)
    requires
        a@ == b@,
    ensures
        a.errors@ == b.errors@,
        a.sources@ == b.sources@,
        a.contracts@ == b.contracts@,
        a.recompiled_with_detect_missing_libraries == b.recompiled_with_detect_missing_libraries,
{
}

/// Artifacts that are told to hold the same do, file by file, name by name and one by one.
pub proof fn law_views_tell_artifacts_apart(a: Artifacts, b: Artifacts, i: int, j: int, k: int)
    requires
        a@ == b@,
        0 <= i < a.0@.len(),
        0 <= j < a.0@[i].1@.len(),
        0 <= k < a.0@[i].1@[j].1@.len(),
    ensures
        a.0@.len() == b.0@.len(),
        a.0@[i].0 == b.0@[i].0,
        a.0@[i].1@.len() == b.0@[i].1@.len(),
        a.0@[i].1@[j].0 == b.0@[i].1@[j].0,
        a.0@[i].1@[j].1@.len() == b.0@[i].1@[j].1@.len(),
        a.0@[i].1@[j].1@[k]@ == b.0@[i].1@[j].1@[k]@,
{
    let (x, y) = (a@, b@);
    assert(x.len() == a.0@.len() && y.len() == b.0@.len());
    assert(x[i] == (a.0@[i].0, zk::names_view(a.0@[i].1)));
    assert(y[i] == (b.0@[i].0, zk::names_view(b.0@[i].1)));
    let (p, q) = (zk::names_view(a.0@[i].1), zk::names_view(b.0@[i].1));
    assert(p.len() == a.0@[i].1@.len() && q.len() == b.0@[i].1@.len());
    assert(p[j].0 == a.0@[i].1@[j].0 && q[j].0 == b.0@[i].1@[j].0);
    assert(p[j].1.len() == a.0@[i].1@[j].1@.len() && q[j].1.len() == b.0@[i].1@[j].1@.len());
    assert(p[j].1[k] == a.0@[i].1@[j].1@[k]@ && q[j].1[k] == b.0@[i].1@[j].1@[k]@);
}

/// The first file that cannot be read is the one whose error counts.
pub proof fn law_first_unread(contents: Seq<Result<String, SolcError>>, i: int)
    ensures
        0 <= i < contents.len() && contents[i] is Err && (forall|j: int|
            0 <= j < i ==> (#[trigger] contents[j]) is Ok) ==> stages::first_unread(contents)
            == Some(contents[i]->Err_0),
        (forall|j: int| 0 <= j < contents.len() ==> (#[trigger] contents[j]) is Ok)
            ==> stages::first_unread(contents) is None,
    decreases contents.len(),
{
    if contents.len() > 0 {
        let rest = contents.drop_last();
        assert(forall|j: int| 0 <= j < rest.len() ==> rest[j] == contents[j]);
        law_first_unread(rest, i);
        if i == contents.len() - 1 && (forall|j: int|
            0 <= j < i ==> (#[trigger] contents[j]) is Ok) {
            assert(forall|j: int| 0 <= j < rest.len() ==> (#[trigger] rest[j]) is Ok) by {
                assert forall|j: int| 0 <= j < rest.len() implies (#[trigger] rest[j]) is Ok by {
                    assert(rest[j] == contents[j]);
                }
            }
        }
        if 0 <= i < rest.len() && contents[i] is Err && (forall|j: int|
            0 <= j < i ==> (#[trigger] contents[j]) is Ok) {
            assert(forall|j: int| 0 <= j < i ==> (#[trigger] rest[j]) is Ok) by {
                assert forall|j: int| 0 <= j < i implies (#[trigger] rest[j]) is Ok by {
                    assert(rest[j] == contents[j]);
                }
            }
            assert(rest[i] == contents[i]);
        }
        if forall|j: int| 0 <= j < contents.len() ==> (#[trigger] contents[j]) is Ok {
            assert forall|j: int| 0 <= j < rest.len() implies (#[trigger] rest[j]) is Ok by {
                assert(rest[j] == contents[j]);
            }
            assert(contents[contents.len() - 1] is Ok);
        }
    }
}

/// Files are read just if each of them could be read, or all up to the first that could not.
pub proof fn law_files_are_read(count: nat, contents: Seq<Result<String, SolcError>>)
    ensures
        contents.len() == count && (forall|j: int|
            0 <= j < contents.len() ==> (#[trigger] contents[j]) is Ok) ==> stages::is_read(
            count,
            contents,
        ),
        0 < contents.len() <= count && contents.last() is Err && (forall|j: int|
            0 <= j < contents.len() - 1 ==> (#[trigger] contents[j]) is Ok) ==> stages::is_read(
            count,
            contents,
        ),
        stages::is_read(count, contents) ==> contents.len() <= count && (forall|j: int|
            0 <= j < contents.len() - 1 ==> (#[trigger] contents[j]) is Ok) && (contents.len()
            == count || contents.len() > 0 && contents.last() is Err),
{
    let n = contents.len() as int;
    law_first_unread(contents, n - 1);
    if stages::is_read(count, contents) && n < count && (n == 0 || contents.last() is Ok) {
        assert forall|j: int| 0 <= j < n implies (#[trigger] contents[j]) is Ok by {
            if j == n - 1 {
                assert(contents[j] == contents.last());
            }
        }
        assert(stages::first_unread(contents) is None);
    }
}

/// What artifacts are made of an output depends on the artifacts folder alone, not on anything else
/// of the project, and not on messages.
pub proof fn law_artifacts_depend_on_folder(
    a: AggregatedCompilerOutputView,
    b: AggregatedCompilerOutputView,
    project: Project,
    other: Project,
    ctx: OutputContext<'_>,
)
    requires
        a.contracts == b.contracts,
        a.sources == b.sources,
        project.paths.zksync_artifacts@ == other.paths.zksync_artifacts@,
    ensures
        project::converted_output(a, project, ctx) == project::converted_output(b, other, ctx),
        project::converted_output(a, project, ctx) == zk::converted(
            a.contracts,
            a.sources,
            ctx,
            project.paths.zksync_artifacts@,
        ),
{
}

} // verus!
