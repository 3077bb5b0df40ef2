use foundry_compilers::compilers::solc::Solc;
use foundry_compilers::config::{ProjectPathsConfig, Remapping};
use foundry_compilers::error::SolcError;
use foundry_compilers::maps::{PathMap, PathSet, TextMap};
use foundry_compilers::version::Version;
use foundry_compilers::zksync::artifact_output::zk::Artifacts;
use foundry_compilers::zksync::artifact_output::OutputContext;
use foundry_compilers::zksync::artifacts::{
    CompilerOutput, Contract, DevDoc, Severity, SourceFile, StorageLayout, UserDoc,
};
use foundry_compilers::zksync::compile::output::AggregatedCompilerOutput;
use foundry_compilers::zksync::compile::project::{
    choose_files, compile_sequential, CompiledState, CompilerConfig, CompilerSources,
    FilteredSource, FilteredSources, GraphEdges, Project, ProjectCompiler, Resolved, VersionRuns,
    VersionedFilteredSources, VersionedSources,
};
use foundry_compilers::zksync::compile::runs::{gather_runs, list_steps, next_run, RunEvent, RunStep};
use foundry_compilers::zksync::compile::stages::{
    read_all, Opening, Outcome, Stage, StageEvent,
};
use foundry_compilers::zksync::compile::ZkSolc;
use foundry_compilers::zksync::compilers::zksolc::input::{Source, Sources};
use foundry_compilers::zksync::compilers::zksolc::settings::ZkSolcSettings;
use foundry_compilers::zksync::config::ZkSolcConfig;
use foundry_compilers::zksync::{
    project_artifacts_path, project_cache_path, project_compile, project_compile_files,
};

fn version(text: &str) -> Version {
    Version::parse(text).unwrap()
}

fn paths(list: &[&str]) -> PathSet {
    let mut set = PathSet::new();
    for p in list {
        set.insert(p.to_string(), ());
    }
    set
}

fn solc(v: &str) -> Solc {
    Solc {
        solc: format!("/bin/solc-{v}"),
        version: version(v),
        base_path: None,
        allow_paths: PathSet::new(),
        include_paths: PathSet::new(),
        args: vec!["-q".to_string()],
    }
}

fn layout() -> ProjectPathsConfig {
    ProjectPathsConfig {
        root: "/root".to_string(),
        zksync_artifacts: "/root/zkout".to_string(),
        zksync_cache: "/root/cache/zksync.json".to_string(),
        include_paths: paths(&["/root/include"]),
        allowed_paths: paths(&["/root", "/lib"]),
        remappings: vec![Remapping {
            context: None,
            name: "x/".to_string(),
            path: "/root/lib/x/".to_string(),
        }],
    }
}

fn project(config: CompilerConfig) -> Project {
    Project {
        paths: layout(),
        zksync_zksolc: ZkSolc::new("zksolc".to_string()),
        zksync_zksolc_config: ZkSolcConfig::default(),
        compiler_config: config,
        no_artifacts: false,
        windows: false,
        slash_paths: true,
        ignored_error_codes: vec![1878],
        ignored_file_paths: vec!["lib".to_string()],
        compiler_severity_filter: Severity::Error,
    }
}

fn edges() -> GraphEdges {
    GraphEdges { include_paths: paths(&["/node_modules"]) }
}

fn source(text: &str) -> Source {
    Source { content: text.to_string() }
}

fn filtered(list: &[(&str, bool)]) -> FilteredSources {
    let mut map = PathMap::new();
    for (path, dirty) in list {
        let file =
            if *dirty { FilteredSource::Dirty(source(path)) } else { FilteredSource::Clean(source(path)) };
        map.insert(path.to_string(), file);
    }
    FilteredSources(map)
}

fn plain(list: &[&str]) -> Sources {
    let mut map: Sources = PathMap::new();
    for p in list {
        map.insert(p.to_string(), source(p));
    }
    map
}

fn for_version(v: &str, sources: FilteredSources) -> VersionedFilteredSources {
    VersionedFilteredSources { solc: solc(v), version: version(v), sources, evm_version: None }
}

fn keys<V>(map: &PathMap<V>) -> Vec<String> {
    (0..map.len()).map(|i| map.key_at(i).clone()).collect()
}

#[test]
fn sources_that_are_dirty_are_compiled() {
    let input = vec![
        for_version("0.8.19", filtered(&[])),
        for_version(
            "0.8.20",
            filtered(&[
                ("/root/src/a.sol", true),
                ("/root/src/b.sol", false),
                ("/root/src/c.yul", false),
            ]),
        ),
        for_version("0.8.21", filtered(&[("/root/src/d.yul", true), ("/root/e.sol", true)])),
        for_version("0.8.22", filtered(&[("/root/src/f.sol", false)])),
    ];
    let jobs = compile_sequential(input, &ZkSolcSettings::default(), &layout(), &edges());
    let versions: Vec<String> = jobs.iter().map(|j| j.version.to_text()).collect();
    assert_eq!(versions, vec!["0.8.20", "0.8.21", "0.8.22"]);
    let first = &jobs[0];
    assert_eq!(first.solc.base_path, Some("/root".to_string()));
    assert_eq!(keys(&first.solc.allow_paths), vec!["/lib", "/root"]);
    assert_eq!(keys(&first.solc.include_paths), vec!["/node_modules", "/root/include"]);
    assert_eq!(first.solc.args, vec!["-q"]);
    assert_eq!(first.runs.len(), 1);
    assert_eq!(first.runs[0].dirty, vec!["/root/src/a.sol"]);
    assert_eq!(first.runs[0].input.language, "Solidity");
    assert_eq!(keys(&first.runs[0].input.sources), vec!["src/a.sol", "src/b.sol"]);
    assert_eq!(first.runs[0].input.settings.remappings[0].path, "lib/x");
    let second = &jobs[1];
    assert_eq!(second.runs.len(), 2);
    assert_eq!(second.runs[0].dirty, vec!["/root/e.sol"]);
    assert_eq!(second.runs[1].dirty, vec!["/root/src/d.yul"]);
    assert!(second.runs[1].input.is_yul());
    assert!(second.runs[1].input.settings.remappings.is_empty());
    assert!(jobs[2].runs.is_empty());
}

fn texts(list: &[&str]) -> Vec<String> {
    list.iter().map(|s| s.to_string()).collect()
}

#[test]
fn avoided_files_are_not_read() {
    let files = || texts(&["a.sol", "b.sol", "c.sol"]);
    assert_eq!(choose_files(files(), None), files());
    let matches = || vec![vec![false, false], vec![false, true], vec![true, true]];
    assert_eq!(choose_files(files(), Some(matches())), vec!["a.sol"]);
    assert_eq!(choose_files(files(), Some(vec![vec![], vec![], vec![]])), files());
    let project = project(CompilerConfig::AutoDetect);
    match ProjectCompiler::new(&project, files(), Some(matches())) {
        Stage::Read(_, chosen) => assert_eq!(chosen, vec!["a.sol"]),
        _ => panic!("not read"),
    }
}

fn contents(list: &[&str]) -> Vec<Result<String, SolcError>> {
    list.iter().map(|s| Ok(s.to_string())).collect()
}

#[test]
fn all_files_are_read_or_none() {
    let files = || texts(&["b.sol", "x/a.sol", "x//a.sol"]);
    let sources = read_all(files(), contents(&["b", "first", "second"])).ok().unwrap();
    // where two files have the same path, the later one stays
    assert_eq!(sources.len(), 2);
    assert_eq!(sources.get("x/a.sol").unwrap().content, "second");
    assert_eq!(sources.get("b.sol").unwrap().content, "b");
    let mut some = contents(&["b"]);
    some.push(Err(SolcError::msg("unreadable")));
    match read_all(files(), some) {
        Err(SolcError::Message(message)) => assert_eq!(message, "unreadable"),
        _ => panic!("no message"),
    }
    assert_eq!(read_all(Vec::new(), Vec::new()).ok().unwrap().len(), 0);
}

#[test]
fn a_pinned_solc_compiles_all_sources() {
    let project = project(CompilerConfig::Specific(solc("0.8.20")));
    let sources = Resolved::Together(plain(&["/root/a.sol"]), Some("paris".to_string()));
    let compiler = ProjectCompiler::with_sources(&project, sources, edges());
    let CompilerSources::Sequential(pairs) = compiler.sources;
    assert_eq!(pairs.len(), 1);
    assert_eq!(pairs[0].solc.solc, "/bin/solc-0.8.20");
    assert_eq!(pairs[0].version, version("0.8.20"));
    assert_eq!(keys(&pairs[0].sources), vec!["/root/a.sol"]);
    assert_eq!(pairs[0].evm_version, Some("paris".to_string()));
}

fn by_version() -> Vec<VersionedSources> {
    vec![
        VersionedSources {
            solc: solc("0.8.19"),
            version: version("0.8.19"),
            sources: plain(&["/root/a.sol"]),
            evm_version: None,
        },
        VersionedSources {
            solc: solc("0.8.20"),
            version: version("0.8.20"),
            sources: plain(&["\\root\\b.sol"]),
            evm_version: None,
        },
    ]
}

#[test]
fn preprocessing_keeps_the_versions() {
    let project = project(CompilerConfig::AutoDetect);
    let compiler =
        ProjectCompiler::with_sources(&project, Resolved::ByVersion(by_version()), edges());
    let state = compiler.preprocess(vec![
        filtered(&[("/root/a.sol", true)]),
        filtered(&[("/root/b.sol", false)]),
    ]);
    let jobs = state.compile();
    assert_eq!(jobs.len(), 2);
    assert_eq!(jobs[0].solc.solc, "/bin/solc-0.8.19");
    assert_eq!(jobs[0].runs.len(), 1);
    assert!(jobs[1].runs.is_empty());
    let slashed = |windows: bool| {
        let CompilerSources::Sequential(pairs) =
            CompilerSources::Sequential(by_version()).slash_paths(windows);
        keys(&pairs[1].sources)
    };
    assert_eq!(slashed(true), vec!["/root/b.sol"]);
    // a `\\` is no separator elsewhere
    assert_eq!(slashed(false), vec!["\\root\\b.sol"]);
}

fn contract() -> Contract {
    Contract {
        abi: None,
        metadata: None,
        userdoc: UserDoc { json: String::new() },
        devdoc: DevDoc { json: String::new() },
        ir_optimized: None,
        storage_layout: StorageLayout { json: String::new() },
        evm: None,
        hash: None,
        factory_dependencies: None,
        missing_libraries: None,
    }
}

fn output(file: &str) -> CompilerOutput {
    let mut output = CompilerOutput::default();
    output.sources.insert(file.to_string(), SourceFile { id: 1, ast: None });
    let mut names = TextMap::new();
    names.insert("A".to_string(), contract());
    output.contracts.insert(file.to_string(), names);
    output
}

fn plan() -> Vec<VersionRuns> {
    let input = vec![
        for_version("0.8.19", filtered(&[("/root/a.sol", true)])),
        for_version("0.8.20", filtered(&[("/root/a.sol", true), ("/b.yul", true)])),
        for_version("0.8.21", filtered(&[("/root/c.sol", false)])),
    ];
    compile_sequential(input, &ZkSolcSettings::default(), &layout(), &edges())
}

fn events(recompiled: bool) -> Vec<RunEvent> {
    vec![
        RunEvent::Done,
        RunEvent::Done,
        RunEvent::Emitted(output("a.sol"), false),
        RunEvent::Done,
        RunEvent::Done,
        RunEvent::Emitted(output("a.sol"), recompiled),
        RunEvent::Done,
        RunEvent::Emitted(output("/b.sol"), false),
        RunEvent::Done,
    ]
}

fn failed_after(count: usize, message: &str) -> Vec<RunEvent> {
    let mut some: Vec<RunEvent> = events(false).into_iter().take(count).collect();
    some.push(RunEvent::Failed(SolcError::msg(message)));
    some
}

fn aggregated(recompiled: bool) -> AggregatedCompilerOutput {
    let mut all = AggregatedCompilerOutput::default();
    all.add_run(version("0.8.19"), output("a.sol"), false, "/root");
    all.add_run(version("0.8.20"), output("a.sol"), recompiled, "/root");
    all.add_run(version("0.8.20"), output("/b.sol"), false, "/root");
    all
}

#[test]
fn runs_are_put_together_by_file() {
    let all = aggregated(false);
    assert!(!all.recompiled_with_detect_missing_libraries);
    assert!(aggregated(true).recompiled_with_detect_missing_libraries);
    let sources = &all.sources.0;
    assert_eq!(sources.len(), 2);
    assert_eq!(sources.key_at(0), "/b.sol");
    let versions: Vec<String> =
        sources.get("/root/a.sol").unwrap().iter().map(|s| s.version.to_text()).collect();
    assert_eq!(versions, vec!["0.8.19", "0.8.20"]);
    assert!(all.sources.find_file_and_version("/root/a.sol", &version("0.8.20")).is_some());
    assert!(all.sources.find_file_and_version("/root/a.sol", &version("0.8.21")).is_none());
    assert!(all.sources.find_file_and_version("a.sol", &version("0.8.20")).is_none());
    let contracts = all.contracts.0.get("/root/a.sol").unwrap().get("A").unwrap();
    assert_eq!(contracts.len(), 2);
    let joined = all.join_all("/elsewhere");
    assert!(joined.sources.0.contains("/root/a.sol"));
}

#[test]
fn jobs_are_run_one_after_the_other() {
    let plan = plan();
    let steps = vec![
        RunStep::Prepare(0),
        RunStep::AskVersion(0, 0),
        RunStep::Compile(0, 0),
        RunStep::Prepare(1),
        RunStep::AskVersion(1, 0),
        RunStep::Compile(1, 0),
        RunStep::AskVersion(1, 1),
        RunStep::Compile(1, 1),
        RunStep::Prepare(2),
    ];
    assert_eq!(list_steps(&plan), steps);
    let mut done = Vec::new();
    for (step, event) in steps.into_iter().zip(events(false)) {
        assert_eq!(next_run(&plan, &done), Some(step));
        done.push(event);
    }
    assert_eq!(next_run(&plan, &done), None);
    // no step follows on one that failed
    for count in 0..9 {
        assert_eq!(next_run(&plan, &failed_after(count, "failed")), None);
    }
    assert_eq!(next_run(&Vec::new(), &Vec::new()), None);
}

#[test]
fn runs_are_gathered_up_to_the_first_error() {
    let all = gather_runs(&plan(), events(true), "/root").ok().unwrap();
    assert!(all.recompiled_with_detect_missing_libraries);
    let all = gather_runs(&plan(), events(false), "/root").ok().unwrap();
    assert!(!all.recompiled_with_detect_missing_libraries);
    // every source file and every contract of a run is there with the version of its job
    for (v, file) in [("0.8.19", "/root/a.sol"), ("0.8.20", "/root/a.sol"), ("0.8.20", "/b.sol")] {
        assert!(all.sources.find_file_and_version(file, &version(v)).is_some());
        let contracts = all.contracts.0.get(file).unwrap().get("A").unwrap();
        assert!(contracts.iter().any(|c| c.version == version(v)));
    }
    assert!(all.sources.find_file_and_version("/b.sol", &version("0.8.19")).is_none());
    assert_eq!(all.sources.0.get("/root/a.sol").unwrap().len(), 2);
    let none = gather_runs(&Vec::new(), Vec::new(), "/root").ok().unwrap();
    assert_eq!(none.sources.0.len(), 0);
    assert_eq!(none.contracts.0.len(), 0);
    assert_eq!(none.errors.len(), 0);
    for count in 0..9 {
        match gather_runs(&plan(), failed_after(count, "failed"), "/root") {
            Err(SolcError::Message(message)) => assert_eq!(message, "failed"),
            _ => panic!("no message"),
        }
    }
}

fn files() -> Vec<String> {
    texts(&["/root/a.sol", "/root/b.sol"])
}

fn opening() -> Opening {
    Opening {
        contents: contents(&["a", "b"]),
        resolved: Ok((Resolved::ByVersion(by_version()), edges())),
    }
}

/// The second version has nothing to compile.
fn outcome(file: &str, has_error: bool) -> Outcome<'static> {
    Outcome {
        filtered: Ok(vec![filtered(&[("/root/a.sol", true)]), filtered(&[])]),
        events: vec![RunEvent::Done, RunEvent::Done, RunEvent::Emitted(output(file), false)],
        ctx: OutputContext::default(),
        has_error,
        written: Ok(()),
        cached: Ok(Artifacts::new()),
    }
}

fn first_file(artifacts: &Artifacts) -> String {
    artifacts.0.get("/root/a.sol").unwrap().get("A").unwrap()[0].file.clone()
}

#[test]
fn a_project_is_compiled_to_artifacts() {
    let project = project(CompilerConfig::AutoDetect);
    let done = project_compile(&project, files(), None, opening(), outcome("a.sol", false));
    let done = done.ok().unwrap();
    assert_eq!(first_file(&done.compiled_artifacts), "/root/zkout/a.sol/A.json");
    assert_eq!(done.cached_artifacts.0.len(), 0);
    assert_eq!(done.ignored_error_codes, vec![1878]);
    assert_eq!(done.ignored_file_paths, vec!["lib"]);
    assert_eq!(done.compiler_severity_filter, Severity::Error);
    let compiled = &done.compiler_output;
    assert!(compiled.sources.find_file_and_version("/root/a.sol", &version("0.8.19")).is_some());
    // artifacts of a failed build are not written
    let done = project_compile_files(&project, files(), opening(), outcome("a.sol", true));
    assert_eq!(first_file(&done.ok().unwrap().compiled_artifacts), "a.sol/A.json");
    // only the files that no pattern matches are read
    let avoid = Some(vec![vec![false], vec![true]]);
    let mut given = opening();
    given.contents = contents(&["a"]);
    let done = project_compile(&project, files(), avoid, given, outcome("a.sol", false));
    assert_eq!(first_file(&done.ok().unwrap().compiled_artifacts), "/root/zkout/a.sol/A.json");
}

#[test]
fn paths_are_slashed_where_a_project_on_windows_asks_for_it() {
    let mut project = project(CompilerConfig::AutoDetect);
    let done = |project: &Project| {
        let given = outcome("src\\c.sol", false);
        project_compile_files(project, files(), opening(), given).ok().unwrap()
    };
    project.windows = true;
    let slashed = done(&project);
    assert_eq!(slashed.compiler_output.sources.0.key_at(0), "/root/src/c.sol");
    assert_eq!(slashed.compiler_output.contracts.0.key_at(0), "/root/src/c.sol");
    assert_eq!(slashed.compiled_artifacts.0.key_at(0), "/root/src/c.sol");
    let artifact = &slashed.compiled_artifacts.0.value_at(0).get("A").unwrap()[0];
    assert_eq!(artifact.file, "/root/zkout/src/c.sol/A.json");
    // they stay where the project does not ask for it, and where `\\` is no separator
    for (windows, slash_paths) in [(true, false), (false, true), (false, false)] {
        project.windows = windows;
        project.slash_paths = slash_paths;
        let kept = done(&project);
        assert_eq!(kept.compiler_output.sources.0.key_at(0), "/root/src\\c.sol");
        assert_eq!(kept.compiler_output.contracts.0.key_at(0), "/root/src\\c.sol");
        assert_eq!(kept.compiled_artifacts.0.key_at(0), "/root/src\\c.sol");
        let artifact = &kept.compiled_artifacts.0.value_at(0).get("A").unwrap()[0];
        assert_eq!(artifact.file, "/root/zkout/src\\c.sol/A.json");
    }
}

#[test]
fn sources_are_slashed_before_they_are_filtered() {
    let mut project = project(CompilerConfig::AutoDetect);
    let filtered_keys = |project: &Project| {
        let stage = Stage::Resolve(project, Sources::new());
        match stage.next(StageEvent::Resolved(opening().resolved)) {
            Stage::Filter(compiler) => {
                let CompilerSources::Sequential(pairs) = compiler.sources;
                keys(&pairs[1].sources)
            }
            _ => panic!("not filtered"),
        }
    };
    assert_eq!(filtered_keys(&project), vec!["\\root\\b.sol"]);
    project.windows = true;
    assert_eq!(filtered_keys(&project), vec!["/root/b.sol"]);
}

#[test]
fn the_first_error_of_a_compilation_is_returned() {
    let run = |project: &Project, opening: Opening, outcome: Outcome<'static>| {
        match project_compile_files(project, files(), opening, outcome) {
            Err(SolcError::Message(message)) => message,
            _ => panic!("no message"),
        }
    };
    let mut project = project(CompilerConfig::AutoDetect);
    let all = || outcome("a.sol", false);
    let mut late = all();
    late.cached = Err(SolcError::msg("artifacts"));
    assert_eq!(run(&project, opening(), late), "artifacts");
    let mut late = all();
    late.cached = Err(SolcError::msg("artifacts"));
    late.written = Err(SolcError::msg("disk"));
    assert_eq!(run(&project, opening(), late), "disk");
    for count in 0..3 {
        let mut late = all();
        late.events = failed_after(count, "compiler");
        late.written = Err(SolcError::msg("disk"));
        assert_eq!(run(&project, opening(), late), "compiler");
    }
    let mut late = all();
    late.filtered = Err(SolcError::msg("cache"));
    late.events = failed_after(0, "compiler");
    assert_eq!(run(&project, opening(), late), "cache");
    let mut early = opening();
    early.resolved = Err(SolcError::msg("imports"));
    let mut late = all();
    late.filtered = Err(SolcError::msg("cache"));
    assert_eq!(run(&project, early, late), "imports");
    let mut early = opening();
    early.contents = vec![Err(SolcError::msg("unreadable"))];
    early.resolved = Err(SolcError::msg("imports"));
    assert_eq!(run(&project, early, all()), "unreadable");
    // nothing is written where no artifacts are wanted
    project.no_artifacts = true;
    let mut late = all();
    late.written = Err(SolcError::msg("disk"));
    let done = project_compile_files(&project, files(), opening(), late);
    assert_eq!(first_file(&done.ok().unwrap().compiled_artifacts), "a.sol/A.json");
}

#[test]
fn the_stages_of_a_compilation_follow_on_each_other() {
    let project = project(CompilerConfig::AutoDetect);
    let given = outcome("a.sol", false);
    let stage = ProjectCompiler::new(&project, files(), None);
    let stage = stage.next(StageEvent::Read(contents(&["a", "b"])));
    match &stage {
        Stage::Resolve(_, sources) => {
            assert_eq!(keys(sources), files());
            assert_eq!(sources.get("/root/b.sol").unwrap().content, "b");
        }
        _ => panic!("not resolved"),
    }
    let stage = stage.next(StageEvent::Resolved(opening().resolved));
    assert!(matches!(&stage, Stage::Filter(_)));
    let stage = stage.next(StageEvent::Filtered(given.filtered));
    match &stage {
        Stage::Run(_, plan) => {
            assert_eq!(plan.len(), 1);
            assert_eq!(plan[0].version, version("0.8.19"));
        }
        _ => panic!("not run"),
    }
    let stage = stage.next(StageEvent::Ran(given.events));
    assert!(matches!(&stage, Stage::Judge(_)));
    let stage = stage.next(StageEvent::Judged(OutputContext::default(), false));
    assert!(matches!(&stage, Stage::Write(_, false)));
    let stage = stage.next(StageEvent::Written(Ok(())));
    assert!(matches!(&stage, Stage::Consume(_, true)));
    let stage = stage.next(StageEvent::Consumed(Ok(Artifacts::new())));
    assert!(matches!(&stage, Stage::Finished(_)));
}

#[test]
fn a_failed_build_is_not_written() {
    let project = project(CompilerConfig::AutoDetect);
    let judge = |has_error: bool| {
        let state = CompiledState::new(&project, aggregated(false));
        Stage::Judge(state).next(StageEvent::Judged(OutputContext::default(), has_error))
    };
    assert!(matches!(judge(true), Stage::Consume(_, false)));
    let failed = judge(false).next(StageEvent::Written(Err(SolcError::msg("disk"))));
    assert!(matches!(failed, Stage::Failed(_)));
}

#[test]
fn the_cache_is_left_alone_where_it_would_mislead() {
    let state = |no_artifacts: bool, recompiled: bool, has_error: bool| {
        let mut project = project(CompilerConfig::AutoDetect);
        project.no_artifacts = no_artifacts;
        let state = CompiledState::new(&project, aggregated(recompiled))
            .write_artifacts(OutputContext::default(), has_error);
        (state.write, state.skip_write_to_disk(has_error))
    };
    assert_eq!(state(false, false, false), (true, false));
    assert_eq!(state(true, false, false), (false, true));
    assert_eq!(state(false, true, false), (true, true));
    assert_eq!(state(false, false, true), (false, true));
}

#[test]
fn projects_know_their_paths() {
    let project = project(CompilerConfig::AutoDetect);
    assert_eq!(project_artifacts_path(&project), "/root/zkout");
    assert_eq!(project_cache_path(&project), "/root/cache/zksync.json");
}
