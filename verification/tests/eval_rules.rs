use chariot::eval::{source_base_accepted, source_base_kind};
use chariot::source::BaseKind;
use chariot::config::{
    ArchiveCompression, ArchiveKind, Package, PackagePlatform, ScriptLanguage, SourceBase,
};
use chariot::eval::{
    parse_dependencies_table, parse_runtime_dependencies, ChariotAppData, ConfigError,
    ConfigField, DependencyEntry, DependencyValue, PackageFields, PrepareFields,
    RuntimeDependency, SourceBaseFields,
};

type E = String;

fn s(x: &str) -> String {
    x.to_string()
}

fn missing(field: &str) -> Result<String, E> {
    Err(format!("no {}", field))
}

fn archive_fields(kind: &str, compression: &str) -> SourceBaseFields<E> {
    SourceBaseFields {
        source_type: Ok(s("archive")),
        url: Ok(s("https://example.org/a.tar.gz")),
        checksum: Ok(s("abc")),
        kind: Ok(s(kind)),
        compression: Ok(s(compression)),
        revision: missing("revision"),
        path: missing("path"),
    }
}

fn local_fields(path: &str) -> SourceBaseFields<E> {
    SourceBaseFields {
        source_type: Ok(s("local")),
        url: missing("url"),
        checksum: missing("checksum"),
        kind: missing("kind"),
        compression: missing("compression"),
        revision: missing("revision"),
        path: Ok(s(path)),
    }
}

fn package_fields(platform: &str, name: &str) -> PackageFields<E> {
    PackageFields {
        platform: Ok(s(platform)),
        name: Ok(s(name)),
        version: Ok(s("1.0")),
        revision: Ok(1),
        dependencies: Ok(Vec::new()),
        runtime_dependencies: Ok(Vec::new()),
        configure: Ok(None),
        build: Ok(Some(s("make"))),
        install: Ok(s("make install")),
    }
}

fn entry(key: Option<&str>, value: DependencyValue<E>) -> Result<DependencyEntry<E>, E> {
    Ok(DependencyEntry { key: key.map(s), value })
}

fn registry_with_packages() -> ChariotAppData {
    let mut data = ChariotAppData::new();
    assert_eq!(data.define_source(local_fields("/src/a"), None, None).ok(), Some(0));
    assert_eq!(data.define_package(package_fields("host", "gcc")).ok(), Some(0));
    assert_eq!(data.define_package(package_fields("target", "zlib")).ok(), Some(1));
    data
}

fn packages(data: &ChariotAppData) -> &Vec<Package> {
    &data.packages
}

#[test]
fn archive_source_is_read() {
    let mut data = ChariotAppData::new();
    let r = data.define_source(archive_fields("tar", "xz"), Some(vec![s("p1")]), None);
    assert_eq!(r.ok(), Some(0));
    let src = &data.sources[0];
    match &src.base {
        SourceBase::Archive(a) => {
            assert_eq!(a.url, "https://example.org/a.tar.gz");
            assert_eq!(a.checksum, "abc");
            assert_eq!(a.kind, ArchiveKind::Tar);
            assert_eq!(a.compression, ArchiveCompression::Xz);
        }
        _ => panic!("expected an archive"),
    }
    assert_eq!(src.patches, vec![s("p1")]);
    assert!(src.prepare.is_none());
}

#[test]
fn every_compression_is_known() {
    for (name, c) in [
        ("gz", ArchiveCompression::Gzip),
        ("xz", ArchiveCompression::Xz),
        ("bzip2", ArchiveCompression::Bzip2),
    ] {
        let mut data = ChariotAppData::new();
        data.define_source(archive_fields("tar", name), None, None).ok().unwrap();
        match &data.sources[0].base {
            SourceBase::Archive(a) => assert_eq!(a.compression, c),
            _ => panic!("expected an archive"),
        }
    }
}

#[test]
fn unknown_archive_kind_is_refused() {
    let mut data = ChariotAppData::new();
    let r = data.define_source(archive_fields("zip", "gz"), None, None);
    match r {
        Err(e) => {
            assert!(matches!(&e, ConfigError::InvalidArchiveKind(k) if k == "zip"));
            assert_eq!(e.rule_message().unwrap(), "invalid archive kind `zip`");
        }
        Ok(_) => panic!("zip must be refused"),
    }
    assert!(data.sources.is_empty());
}

#[test]
fn unknown_compression_is_refused() {
    let mut data = ChariotAppData::new();
    match data.define_source(archive_fields("tar", "zstd"), None, None) {
        Err(e) => assert_eq!(e.rule_message().unwrap(), "invalid archive compression `zstd`"),
        Ok(_) => panic!("zstd must be refused"),
    }
}

#[test]
fn kind_is_judged_before_compression() {
    let mut data = ChariotAppData::new();
    match data.define_source(archive_fields("zip", "zstd"), None, None) {
        Err(ConfigError::InvalidArchiveKind(k)) => assert_eq!(k, "zip"),
        _ => panic!("the kind is judged first"),
    }
}

#[test]
fn unreadable_fields_are_reported_in_order() {
    let mut data = ChariotAppData::new();
    let mut f = archive_fields("zip", "zstd");
    f.checksum = missing("checksum");
    f.compression = missing("compression");
    match data.define_source(f, None, None) {
        Err(ConfigError::Field { field, cause }) => {
            assert_eq!(field, ConfigField::Checksum);
            assert_eq!(cause, "no checksum");
            assert_eq!(field.context(), "`checksum` must be a string");
        }
        _ => panic!("the checksum is read before the kind is judged"),
    }
}

#[test]
fn git_and_local_sources_are_read() {
    let mut data = ChariotAppData::new();
    let git = SourceBaseFields {
        source_type: Ok(s("git")),
        url: Ok(s("https://example.org/r.git")),
        checksum: missing("checksum"),
        kind: missing("kind"),
        compression: missing("compression"),
        revision: Ok(s("v1")),
        path: missing("path"),
    };
    assert_eq!(data.define_source(git, None, None).ok(), Some(0));
    assert_eq!(data.define_source(local_fields("/x"), None, None).ok(), Some(1));
    match &data.sources[0].base {
        SourceBase::Git(g) => {
            assert_eq!(g.url, "https://example.org/r.git");
            assert_eq!(g.revision, "v1");
        }
        _ => panic!("expected git"),
    }
    match &data.sources[1].base {
        SourceBase::Local(l) => assert_eq!(l.path, "/x"),
        _ => panic!("expected local"),
    }
}

#[test]
fn unknown_base_type_is_refused() {
    let mut data = ChariotAppData::new();
    let mut f = local_fields("/x");
    f.source_type = Ok(s("svn"));
    match data.define_source(f, None, None) {
        Err(e) => assert_eq!(e.rule_message().unwrap(), "invalid base type `svn`"),
        Ok(_) => panic!("svn must be refused"),
    }
}

#[test]
fn missing_type_is_a_field_error() {
    let mut data = ChariotAppData::new();
    let mut f = local_fields("/x");
    f.source_type = missing("type");
    match data.define_source(f, None, None) {
        Err(e) => {
            assert!(matches!(&e, ConfigError::Field { field: ConfigField::SourceType, .. }));
            assert!(e.rule_message().is_none());
        }
        Ok(_) => panic!("a source needs a type"),
    }
}

#[test]
fn prepare_step_is_read() {
    let mut data = registry_with_packages();
    let prepare = PrepareFields {
        script: Ok(s("./autogen.sh")),
        dependencies: Ok(vec![
            entry(Some("gcc"), DependencyValue::PackageRef(0)),
            entry(Some("x"), DependencyValue::Native(s("perl"))),
        ]),
    };
    assert_eq!(data.define_source(local_fields("/b"), None, Some(prepare)).ok(), Some(1));
    let p = data.sources[1].prepare.as_ref().unwrap();
    assert_eq!(p.script.code, "./autogen.sh");
    assert_eq!(p.script.language, ScriptLanguage::Bash);
    assert_eq!(p.dependencies.tools, vec![0]);
    assert_eq!(p.dependencies.native, vec![s("perl")]);
    assert!(p.environment_variables.is_empty());
}

#[test]
fn prepare_without_script_is_refused() {
    let mut data = ChariotAppData::new();
    let prepare = PrepareFields { script: missing("script"), dependencies: Ok(Vec::new()) };
    match data.define_source(local_fields("/b"), None, Some(prepare)) {
        Err(ConfigError::Field { field, .. }) => {
            assert_eq!(field, ConfigField::Script);
            assert_eq!(field.context(), "`script` must be a string");
        }
        _ => panic!("a prepare step needs a script"),
    }
    assert!(data.sources.is_empty());
}

#[test]
fn dependency_table_is_partitioned() {
    let data = registry_with_packages();
    let entries = vec![
        entry(Some("src"), DependencyValue::SourceRef(0)),
        entry(Some("a"), DependencyValue::PackageRef(1)),
        entry(None, DependencyValue::PackageRef(0)),
        entry(Some("b"), DependencyValue::Native(s("bison"))),
        entry(None, DependencyValue::Native(s("bison"))),
        entry(Some("src"), DependencyValue::SourceRef(0)),
    ];
    let d = parse_dependencies_table(entries, data.sources.len(), packages(&data)).ok().unwrap();
    assert_eq!(d.sources.len(), 1);
    assert_eq!(d.sources[0].name, "src");
    assert_eq!(d.sources[0].value, 0);
    assert_eq!(d.tools, vec![0]);
    assert_eq!(d.packages, vec![1]);
    assert_eq!(d.native, vec![s("bison")]);
}

#[test]
fn later_source_binding_replaces_earlier() {
    let mut data = registry_with_packages();
    data.define_source(local_fields("/c"), None, None).ok().unwrap();
    let entries = vec![
        entry(Some("src"), DependencyValue::SourceRef(0)),
        entry(Some("src"), DependencyValue::SourceRef(1)),
    ];
    let d = parse_dependencies_table(entries, data.sources.len(), packages(&data)).ok().unwrap();
    assert_eq!(d.sources.len(), 1);
    assert_eq!(d.sources[0].value, 1);
}

#[test]
fn unnamed_source_dependency_is_refused() {
    let data = registry_with_packages();
    let entries = vec![entry(None, DependencyValue::SourceRef(0))];
    match parse_dependencies_table(entries, data.sources.len(), packages(&data)) {
        Err(e) => assert_eq!(
            e.rule_message().unwrap(),
            "source dependencies must be named (bound to a key)"
        ),
        Ok(_) => panic!("a source dependency needs a name"),
    }
}

#[test]
fn invalid_dependency_is_refused_with_its_text() {
    let data = registry_with_packages();
    let entries = vec![
        entry(None, DependencyValue::Native(s("m4"))),
        entry(Some("n"), DependencyValue::Other(Ok(s("42")))),
        entry(None, DependencyValue::Other(Err(s("never read")))),
    ];
    match parse_dependencies_table(entries, data.sources.len(), packages(&data)) {
        Err(e) => assert_eq!(e.rule_message().unwrap(), "invalid dependency `42`"),
        Ok(_) => panic!("a number is no dependency"),
    }
}

#[test]
fn engine_error_in_dependency_table_is_passed_on() {
    let data = registry_with_packages();
    let entries: Vec<Result<DependencyEntry<E>, E>> =
        vec![entry(None, DependencyValue::Native(s("m4"))), Err(s("broken pair"))];
    match parse_dependencies_table(entries, data.sources.len(), packages(&data)) {
        Err(ConfigError::Lua(e)) => assert_eq!(e, "broken pair"),
        _ => panic!("the engine's error is passed on"),
    }
    let entries = vec![entry(None, DependencyValue::Other(Err(s("no text"))))];
    match parse_dependencies_table(entries, data.sources.len(), packages(&data)) {
        Err(ConfigError::Lua(e)) => assert_eq!(e, "no text"),
        _ => panic!("the engine's error is passed on"),
    }
}

#[test]
fn package_is_read() {
    let mut data = registry_with_packages();
    let mut f = package_fields("target", "libfoo");
    f.configure = Ok(Some(s("./configure")));
    f.dependencies = Ok(vec![entry(Some("s"), DependencyValue::SourceRef(0))]);
    f.runtime_dependencies =
        Ok(vec![Ok(RuntimeDependency { package: Some(1), text: Ok(s("zlib")) })]);
    assert_eq!(data.define_package(f).ok(), Some(2));
    let p = &data.packages[2];
    assert_eq!(p.platform, PackagePlatform::Target);
    assert_eq!(p.name, "libfoo");
    assert_eq!(p.version, "1.0");
    assert_eq!(p.revision, 1);
    assert_eq!(p.configure.as_ref().unwrap().code, "./configure");
    assert_eq!(p.build.as_ref().unwrap().code, "make");
    assert_eq!(p.install.code, "make install");
    assert_eq!(p.runtime_dependencies, vec![1]);
    assert_eq!(p.dependencies.sources[0].name, "s");
}

#[test]
fn duplicate_package_is_refused() {
    let mut data = registry_with_packages();
    match data.define_package(package_fields("host", "gcc")) {
        Err(e) => assert_eq!(
            e.rule_message().unwrap(),
            "a package with the name `gcc` already exists"
        ),
        Ok(_) => panic!("gcc exists for the host"),
    }
    assert_eq!(data.packages.len(), 2);
    assert_eq!(data.define_package(package_fields("target", "gcc")).ok(), Some(2));
    assert_eq!(data.find_package(&s("gcc"), PackagePlatform::Target), Some(2));
    assert_eq!(data.find_package(&s("gcc"), PackagePlatform::Host), Some(0));
    assert_eq!(data.find_package(&s("clang"), PackagePlatform::Host), None);
}

#[test]
fn unknown_platform_is_refused() {
    let mut data = ChariotAppData::new();
    match data.define_package(package_fields("build", "x")) {
        Err(e) => assert_eq!(e.rule_message().unwrap(), "`platform` must be \"host\" or \"target\""),
        Ok(_) => panic!("build is no platform"),
    }
}

#[test]
fn package_field_errors_come_first() {
    let mut data = ChariotAppData::new();
    let mut f = package_fields("build", "x");
    f.revision = Err(s("not a number"));
    match data.define_package(f) {
        Err(ConfigError::Field { field, .. }) => {
            assert_eq!(field, ConfigField::PackageRevision);
            assert_eq!(field.context(), "`revision` must be a positive integer");
        }
        _ => panic!("fields are read before the platform is judged"),
    }
}

#[test]
fn runtime_dependency_of_other_platform_is_refused() {
    let mut data = registry_with_packages();
    let mut f = package_fields("target", "app");
    f.runtime_dependencies =
        Ok(vec![Ok(RuntimeDependency { package: Some(0), text: Ok(s("PackageRef")) })]);
    match data.define_package(f) {
        Err(e) => assert_eq!(e.rule_message().unwrap(), "invalid runtime dependency `PackageRef`"),
        Ok(_) => panic!("a host package is no runtime dependency of a target package"),
    }
    let r = parse_runtime_dependencies(
        vec![Ok::<RuntimeDependency<E>, E>(RuntimeDependency { package: None, text: Ok(s("hello")) })],
        PackagePlatform::Host,
        packages(&data),
    );
    match r {
        Err(ConfigError::InvalidRuntimeDependency(t)) => assert_eq!(t, "hello"),
        _ => panic!("a string is no runtime dependency"),
    }
}

#[test]
fn finished_configuration_keeps_definitions() {
    let data = registry_with_packages();
    let env = chariot::config::GlobalEnvironment {
        target_prefix: s("/usr"),
        target_arch: s("x86_64"),
        global_environment_variables: Vec::new(),
    };
    let config = data.finish(env);
    assert_eq!(config.sources.len(), 1);
    assert_eq!(config.packages.len(), 2);
    assert_eq!(config.global_env.target_arch, "x86_64");
}

#[test]
fn source_type_names_a_base_kind() {
    assert_eq!(source_base_kind(&s("archive")), Some(BaseKind::Archive));
    assert_eq!(source_base_kind(&s("git")), Some(BaseKind::Git));
    assert_eq!(source_base_kind(&s("local")), Some(BaseKind::Local));
    assert_eq!(source_base_kind(&s("svn")), None);
    assert!(source_base_accepted(&archive_fields("tar", "gz")));
    assert!(!source_base_accepted(&archive_fields("zip", "gz")));
    assert!(source_base_accepted(&local_fields("/x")));
}

#[test]
fn configuration_is_in_dependency_order() {
    let mut data = registry_with_packages();
    let mut f = package_fields("target", "app");
    f.dependencies = Ok(vec![
        entry(Some("cc"), DependencyValue::PackageRef(0)),
        entry(Some("z"), DependencyValue::PackageRef(1)),
    ]);
    assert_eq!(data.define_package(f).ok(), Some(2));
    let env = chariot::config::GlobalEnvironment {
        target_prefix: s("/usr"),
        target_arch: s("x86_64"),
        global_environment_variables: Vec::new(),
    };
    let config = data.finish(env);
    for (i, p) in config.packages.iter().enumerate() {
        for &t in &p.dependencies.tools {
            assert!(t < i);
            assert_eq!(config.packages[t].platform, PackagePlatform::Host);
        }
        for &q in &p.dependencies.packages {
            assert!(q < i);
            assert_eq!(config.packages[q].platform, PackagePlatform::Target);
        }
    }
    assert_eq!(config.packages[2].dependencies.tools, vec![0]);
    assert_eq!(config.packages[2].dependencies.packages, vec![1]);
}
