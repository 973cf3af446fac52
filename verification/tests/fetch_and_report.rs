use chariot::config::{EnvVar, LocalSource, Source, SourceBase, SourcePrepare, Dependencies, Script};
use chariot::local::{copy_file_error, metadata_error, plan_local_copy, FileSystemError, LocalCopy, LocalFetchError};
use chariot::report::{
    error_report, format_log_record, level_color, level_name, log_enabled, log_line, push_decimal, text_lines,
    LogLevel, TermColor,
};
use chariot::source::{
    patch_environment, patch_script, prepare_environment, source_mount_path, BaseKind, FetchAction,
    FetchEvent, FetchStage, SourceFetch, SourceFetchError, SourceHashes, StoreKind,
};

fn s(x: &str) -> String {
    x.to_string()
}

fn source(patches: usize, prepare: bool) -> Source {
    Source {
        base: SourceBase::Local(LocalSource { path: s("/src") }),
        patches: (0..patches).map(|i| format!("patch {}", i)).collect(),
        prepare: if prepare {
            Some(SourcePrepare {
                environment_variables: Vec::new(),
                dependencies: Dependencies {
                    sources: Vec::new(),
                    tools: Vec::new(),
                    packages: Vec::new(),
                    native: Vec::new(),
                },
                script: Script::bash(s("true")),
            })
        } else {
            None
        },
    }
}

fn hashes() -> SourceHashes {
    SourceHashes { base: s("hb"), patch: s("hp"), prepare: s("hr") }
}

fn lookup(a: &FetchAction) -> Option<(StoreKind, String)> {
    match a {
        FetchAction::LookupStore { kind, hash } => Some((*kind, hash.clone())),
        _ => None,
    }
}

#[test]
fn cached_base_without_patches_finishes_at_once() {
    let src = source(0, false);
    let mut m: SourceFetch<&str> = SourceFetch::new(&src, hashes());
    let a = m.start();
    assert_eq!(lookup(&a), Some((StoreKind::Base, s("hb"))));
    assert_eq!(StoreKind::Base.name(), "source.base");
    let a = m.step(FetchEvent::Found("base"));
    assert!(matches!(a, FetchAction::Finish));
    assert_eq!(m.into_entries(), vec!["base"]);
}

#[test]
fn missing_base_is_fetched_and_stored() {
    let src = source(0, false);
    let mut m: SourceFetch<&str> = SourceFetch::new(&src, hashes());
    assert!(matches!(m.step(FetchEvent::NotFound), FetchAction::FetchBase(BaseKind::Local)));
    match m.step(FetchEvent::Fetched) {
        FetchAction::StoreWorkDirectory { kind, hash } => {
            assert_eq!(kind, StoreKind::Base);
            assert_eq!(hash, "hb");
        }
        _ => panic!("the fetched base is stored"),
    }
    assert!(matches!(m.step(FetchEvent::Stored("base")), FetchAction::Finish));
    assert_eq!(m.stage, FetchStage::Done);
}

#[test]
fn patches_are_applied_in_order_then_prepared() {
    let src = source(2, true);
    let mut m: SourceFetch<&str> = SourceFetch::new(&src, hashes());
    let a = m.step(FetchEvent::Found("base"));
    assert_eq!(lookup(&a), Some((StoreKind::Patch, s("hp"))));
    assert!(matches!(m.step(FetchEvent::NotFound), FetchAction::CreateWorkDirectories));
    assert!(matches!(m.step(FetchEvent::WorkDirectoriesCreated), FetchAction::ApplyPatch { index: 0 }));
    assert!(matches!(m.step(FetchEvent::Exited(0)), FetchAction::ApplyPatch { index: 1 }));
    match m.step(FetchEvent::Exited(0)) {
        FetchAction::StoreWorkDirectory { kind, hash } => {
            assert_eq!(kind, StoreKind::Patch);
            assert_eq!(hash, "hp");
        }
        _ => panic!("the patched tree is stored"),
    }
    assert!(matches!(m.step(FetchEvent::Stored("patched")), FetchAction::ResolveDependencies));
    let a = m.step(FetchEvent::DependenciesResolved);
    assert_eq!(lookup(&a), Some((StoreKind::Prepare, s("hr"))));
    assert!(matches!(m.step(FetchEvent::NotFound), FetchAction::CreateWorkDirectories));
    assert!(matches!(m.step(FetchEvent::WorkDirectoriesCreated), FetchAction::RunPrepare));
    assert!(matches!(m.step(FetchEvent::Exited(0)), FetchAction::StoreWorkDirectory { kind: StoreKind::Prepare, .. }));
    assert!(matches!(m.step(FetchEvent::Stored("prepared")), FetchAction::Finish));
    assert_eq!(m.into_entries(), vec!["base", "patched", "prepared"]);
}

#[test]
fn failing_patch_fails_the_fetch() {
    let src = source(3, false);
    let mut m: SourceFetch<&str> = SourceFetch::new(&src, hashes());
    m.step(FetchEvent::Found("base"));
    m.step(FetchEvent::NotFound);
    m.step(FetchEvent::WorkDirectoriesCreated);
    assert!(matches!(m.step(FetchEvent::Exited(0)), FetchAction::ApplyPatch { index: 1 }));
    assert!(matches!(m.step(FetchEvent::Exited(1)), FetchAction::Fail(SourceFetchError::Patch)));
    assert_eq!(m.stage, FetchStage::Failed);
    assert!(!m.accepts(&FetchEvent::Exited(0)));
}

#[test]
fn failing_prepare_fails_the_fetch() {
    let src = source(0, true);
    let mut m: SourceFetch<&str> = SourceFetch::new(&src, hashes());
    assert!(matches!(m.step(FetchEvent::Found("base")), FetchAction::ResolveDependencies));
    m.step(FetchEvent::DependenciesResolved);
    m.step(FetchEvent::NotFound);
    m.step(FetchEvent::WorkDirectoriesCreated);
    assert!(matches!(m.step(FetchEvent::Exited(2)), FetchAction::Fail(SourceFetchError::Prepare)));
}

#[test]
fn request_errors_are_passed_on() {
    let src = source(0, false);
    let mut m: SourceFetch<&str> = SourceFetch::new(&src, hashes());
    assert!(m.accepts(&FetchEvent::NotFound));
    assert!(!m.accepts(&FetchEvent::Fetched));
    m.step(FetchEvent::NotFound);
    let err = SourceFetchError::Local(metadata_error(s("/src"), s("no such file")));
    match m.step(FetchEvent::Failed(err)) {
        FetchAction::Fail(SourceFetchError::Local(LocalFetchError::FileSystem(
            FileSystemError::Metadata { path, source },
        ))) => {
            assert_eq!(path, "/src");
            assert_eq!(source, "no such file");
        }
        _ => panic!("the error is passed on"),
    }
}

#[test]
fn prepare_environment_overrides_in_order() {
    let global = vec![
        EnvVar { name: s("PATH"), value: s("/bin") },
        EnvVar { name: s("SOURCE_DIR"), value: s("/elsewhere") },
    ];
    let local = vec![EnvVar { name: s("PATH"), value: s("/usr/bin") }];
    let env = prepare_environment(&global, &local);
    let get = |n: &str| env.iter().find(|v| v.name == n).map(|v| v.value.clone());
    assert_eq!(env.len(), 2);
    assert_eq!(get("PATH"), Some(s("/usr/bin")));
    assert_eq!(get("SOURCE_DIR"), Some(s(source_mount_path())));
    assert_eq!(source_mount_path(), "/chariot/source");
}

#[test]
fn patch_runs_with_the_patch_text() {
    let env = patch_environment(&s("--- a\n+++ b\n"));
    assert_eq!(env.len(), 1);
    assert_eq!(env[0].name, "CHARIOT_PATCH");
    assert_eq!(env[0].value, "--- a\n+++ b\n");
    assert_eq!(patch_script().code, "echo \"$CHARIOT_PATCH\" | patch -p1");
}

#[test]
fn local_copy_plan() {
    assert_eq!(plan_local_copy(true, Some(s("dir"))), LocalCopy::Directory);
    assert_eq!(plan_local_copy(false, Some(s("f.txt"))), LocalCopy::File(s("f.txt")));
    assert_eq!(plan_local_copy(false, None), LocalCopy::Nothing);
    match copy_file_error(s("/a"), s("/w/a"), s("denied")) {
        LocalFetchError::FileSystem(FileSystemError::CopyFile { from, to, source }) => {
            assert_eq!((from.as_str(), to.as_str(), source.as_str()), ("/a", "/w/a", "denied"));
        }
        _ => panic!("a copy error"),
    }
}

#[test]
fn only_errors_are_logged() {
    assert!(log_enabled(LogLevel::Error));
    for l in [LogLevel::Warn, LogLevel::Info, LogLevel::Debug, LogLevel::Trace] {
        assert!(!log_enabled(l));
    }
}

#[test]
fn level_colors() {
    assert_eq!(level_color(LogLevel::Trace), TermColor::Black);
    assert_eq!(level_color(LogLevel::Debug), TermColor::Blue);
    assert_eq!(level_color(LogLevel::Info), TermColor::Green);
    assert_eq!(level_color(LogLevel::Warn), TermColor::Yellow);
    assert_eq!(level_color(LogLevel::Error), TermColor::Red);
    assert_eq!(log_line("ERROR", "boom"), "ERROR | boom");
}

#[test]
fn lines_follow_std() {
    for text in ["", "a", "a\n", "a\r\nb", "a\n\nb\n", "x\r", "\n", "a\rb\n"] {
        let expected: Vec<String> = text.lines().map(|l| l.to_string()).collect();
        assert_eq!(text_lines(text), expected, "for {:?}", text);
    }
}

#[test]
fn decimals() {
    for n in [0usize, 7, 10, 42, 1000, 98765] {
        let mut out = s("#");
        push_decimal(&mut out, n);
        assert_eq!(out, format!("#{}", n));
    }
}

#[test]
fn error_report_numbers_causes() {
    let chain = vec![s("build failed"), s("fetch failed\nretry later"), s("disk full")];
    assert_eq!(
        error_report(&chain),
        vec![
            s("build failed"),
            s("Caused by:"),
            s("  0: fetch failed"),
            s("     retry later"),
            s("  1: disk full"),
        ]
    );
    assert_eq!(error_report(&vec![s("alone")]), vec![s("alone")]);
}

#[test]
fn log_record_line() {
    let line = format_log_record(LogLevel::Warn, "disk almost full");
    assert!(line.contains("WARN"));
    assert!(line.ends_with(" | disk almost full"));
    assert_eq!(level_name(LogLevel::Error), "ERROR");
    assert_eq!(level_name(LogLevel::Trace), "TRACE");
}

#[test]
fn log_record_with_and_without_colour() {
    colored::control::set_override(false);
    assert_eq!(format_log_record(LogLevel::Warn, "disk full"), "WARN | disk full");
    colored::control::set_override(true);
    assert_eq!(format_log_record(LogLevel::Warn, "disk full"), "\x1B[1;33mWARN\x1B[0m | disk full");
    assert_eq!(format_log_record(LogLevel::Error, "boom"), "\x1B[1;31mERROR\x1B[0m | boom");
    assert_eq!(format_log_record(LogLevel::Trace, "t"), "\x1B[1;30mTRACE\x1B[0m | t");
    colored::control::unset_override();
}

#[test]
fn fully_stored_source_only_looks_up() {
    let src = source(2, true);
    let mut m: SourceFetch<&str> = SourceFetch::new(&src, hashes());
    let mut hits = vec!["base", "patched", "prepared"].into_iter();
    let mut action = m.start();
    let mut asked = Vec::new();
    loop {
        let event = match &action {
            FetchAction::LookupStore { kind, .. } => {
                asked.push(kind.name().to_string());
                FetchEvent::Found(hits.next().unwrap())
            }
            FetchAction::ResolveDependencies => {
                asked.push(s("resolve"));
                FetchEvent::DependenciesResolved
            }
            FetchAction::Finish => break,
            other => panic!("a stored source must not {:?}", other),
        };
        action = m.step(event);
    }
    assert_eq!(asked, vec![s("source.base"), s("source.patch"), s("resolve"), s("source.prepare")]);
    assert_eq!(m.into_entries(), vec!["base", "patched", "prepared"]);
}
