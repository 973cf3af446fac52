//! The rules of a configuration script: what `def_source` and `def_package`
//! accept, what they make of the values a script hands them, and how the
//! sources and packages a script defines are collected into a [`Config`].
//!
//! The values come from the script's tables; each read of a table arrives here
//! as a `Result`, whose error `E` is the script engine's own error and is handed
//! back unchanged where the rules do not decide otherwise.
use vstd::prelude::*;
use crate::config::{
    Archive, ArchiveCompression, ArchiveKind, Config, Dependencies, DependenciesModel, GitSource,
    GlobalEnvironment, LocalSource, Package, PackagePlatform, Script, ScriptLanguage, Source,
    SourceBase, SourcePrepare, name_set, named_map, names_distinct, set_named,
};
use crate::source::BaseKind;

verus! {

/// What a script bound in a dependency table, as the rules see it.
pub enum DependencyValue<E> {
    /// A source that the script defined, by its position in the registry.
    SourceRef(usize),
    /// A package that the script defined, by its position in the registry.
    PackageRef(usize),
    /// A string: the name of a native package.
    Native(String),
    /// Anything else, with its text (or the error met while producing it).
    Other(Result<String, E>),
}

/// One key/value pair of a dependency table. The key is `Some` when it is a string.
pub struct DependencyEntry<E> {
    pub key: Option<String>,
    pub value: DependencyValue<E>,
}

/// A field of a table handed to `def_source` or `def_package`.
#[derive(Debug, Clone, Copy, PartialEq, Eq, Structural)]
pub enum ConfigField {
    SourceType,
    Url,
    Checksum,
    Kind,
    Compression,
    Revision,
    Path,
    Script,
    Dependencies,
    Platform,
    Name,
    Version,
    PackageRevision,
    RuntimeDependencies,
    Configure,
    Build,
    Install,
}

/// Why a definition was refused.
pub enum ConfigError<E> {
    /// A field could not be read as the kind of value it must hold.
    Field { field: ConfigField, cause: E },
    /// The archive `kind` is not one of the supported kinds.
    InvalidArchiveKind(String),
    /// The archive `compression` is not one of the supported compressions.
    InvalidArchiveCompression(String),
    /// The source `type` is not `archive`, `git` or `local`.
    InvalidBaseType(String),
    /// A source was listed as a dependency without a name.
    UnnamedSourceDependency,
    /// A dependency is neither a source, a package nor a string (its text).
    InvalidDependency(String),
    /// The package `platform` is neither `host` nor `target`.
    InvalidPlatform,
    /// A package of that name already exists for that platform.
    DuplicatePackage(String),
    /// A runtime dependency is not a package of the same platform (its text).
    InvalidRuntimeDependency(String),
    /// An error of the script engine, passed on.
    Lua(E),
}

/// The text that says which kind of value a field must hold.
pub open spec fn field_context(field: ConfigField) -> Seq<char> {
    match field {
        ConfigField::SourceType => "`type` must be a string"@,
        ConfigField::Url => "`url` must be a string"@,
        ConfigField::Checksum => "`checksum` must be a string"@,
        ConfigField::Kind => "`kind` must be a string"@,
        ConfigField::Compression => "`compression` must be a string"@,
        ConfigField::Revision => "`revision` must be a string"@,
        ConfigField::Path => "`path` must be a string"@,
        ConfigField::Script => "`script` must be a string"@,
        ConfigField::Dependencies => "`dependencies` must be a table"@,
        ConfigField::Platform => "`platform` must be a string"@,
        ConfigField::Name => "`name` must be a string"@,
        ConfigField::Version => "`version` must be a string"@,
        ConfigField::PackageRevision => "`revision` must be a positive integer"@,
        ConfigField::RuntimeDependencies => "`runtime_dependencies` must be a table"@,
        ConfigField::Configure => "`configure` must be a string or nil"@,
        ConfigField::Build => "`build` must be a string or nil"@,
        ConfigField::Install => "`install` must be a string"@,
    }
}

impl ConfigField {
    /// The text that says which kind of value this field must hold.
    pub fn context(&self) -> (s: &'static str)
        ensures
            s@ == field_context(*self),
    {
        proof {
            reveal_strlit("`type` must be a string");
            reveal_strlit("`url` must be a string");
            reveal_strlit("`checksum` must be a string");
            reveal_strlit("`kind` must be a string");
            reveal_strlit("`compression` must be a string");
            reveal_strlit("`revision` must be a string");
            reveal_strlit("`path` must be a string");
            reveal_strlit("`script` must be a string");
            reveal_strlit("`dependencies` must be a table");
            reveal_strlit("`platform` must be a string");
            reveal_strlit("`name` must be a string");
            reveal_strlit("`version` must be a string");
            reveal_strlit("`revision` must be a positive integer");
            reveal_strlit("`runtime_dependencies` must be a table");
            reveal_strlit("`configure` must be a string or nil");
            reveal_strlit("`build` must be a string or nil");
            reveal_strlit("`install` must be a string");
        }
        match self {
            ConfigField::SourceType => "`type` must be a string",
            ConfigField::Url => "`url` must be a string",
            ConfigField::Checksum => "`checksum` must be a string",
            ConfigField::Kind => "`kind` must be a string",
            ConfigField::Compression => "`compression` must be a string",
            ConfigField::Revision => "`revision` must be a string",
            ConfigField::Path => "`path` must be a string",
            ConfigField::Script => "`script` must be a string",
            ConfigField::Dependencies => "`dependencies` must be a table",
            ConfigField::Platform => "`platform` must be a string",
            ConfigField::Name => "`name` must be a string",
            ConfigField::Version => "`version` must be a string",
            ConfigField::PackageRevision => "`revision` must be a positive integer",
            ConfigField::RuntimeDependencies => "`runtime_dependencies` must be a table",
            ConfigField::Configure => "`configure` must be a string or nil",
            ConfigField::Build => "`build` must be a string or nil",
            ConfigField::Install => "`install` must be a string",
        }
    }
}

// ---------------------------------------------------------------------------
// Dependency tables
// ---------------------------------------------------------------------------

/// Every source and package that the entries refer to lies within registries of
/// the given sizes.
pub open spec fn entries_within<E>(
    entries: Seq<Result<DependencyEntry<E>, E>>,
    n_sources: nat,
    n_packages: nat,
) -> bool {
    forall|i: int|
        0 <= i < entries.len() ==> match #[trigger] entries[i] {
            Ok(entry) => match entry.value {
                DependencyValue::SourceRef(id) => id < n_sources,
                DependencyValue::PackageRef(id) => id < n_packages,
                _ => true,
            },
            Err(_) => true,
        }
}

/// The dependency list after one more entry of a dependency table.
pub open spec fn add_dependency<E>(
    d: DependenciesModel,
    entry: Result<DependencyEntry<E>, E>,
    packages: Seq<Package>,
) -> Result<DependenciesModel, ConfigError<E>> {
    match entry {
        Err(e) => Err(ConfigError::Lua(e)),
        Ok(entry) => match entry.value {
            DependencyValue::SourceRef(id) => match entry.key {
                Some(name) => Ok(DependenciesModel { sources: d.sources.insert(name@, id), ..d }),
                None => Err(ConfigError::UnnamedSourceDependency),
            },
            DependencyValue::PackageRef(id) => if packages[id as int].platform
                == PackagePlatform::Host {
                Ok(DependenciesModel { tools: d.tools.push(id), ..d })
            } else {
                Ok(DependenciesModel { packages: d.packages.push(id), ..d })
            },
            DependencyValue::Native(name) => Ok(
                DependenciesModel { native: d.native.insert(name@), ..d },
            ),
            DependencyValue::Other(text) => match text {
                Ok(text) => Err(ConfigError::InvalidDependency(text)),
                Err(e) => Err(ConfigError::Lua(e)),
            },
        },
    }
}

/// The dependency list that a dependency table stands for, entry by entry in
/// the order the table hands them out; the first refused entry decides the error.
pub open spec fn parse_dependencies<E>(
    entries: Seq<Result<DependencyEntry<E>, E>>,
    packages: Seq<Package>,
) -> Result<DependenciesModel, ConfigError<E>>
    decreases entries.len(),
{
    if entries.len() == 0 {
        Ok(DependenciesModel::empty())
    } else {
        match parse_dependencies(entries.drop_last(), packages) {
            Ok(d) => add_dependency(d, entries.last(), packages),
            Err(e) => Err(e),
        }
    }
}

/// A model as a successful parse.
pub open spec fn ok_model<E>(m: DependenciesModel) -> Result<DependenciesModel, ConfigError<E>> {
    Ok(m)
}

/// A dependency list that was read agrees with what the table stands for: a
/// well-formed list of that value, or the same error.
pub open spec fn parsed_as<E>(
    r: Result<Dependencies, ConfigError<E>>,
    expected: Result<DependenciesModel, ConfigError<E>>,
) -> bool {
    match r {
        Ok(d) => d.wf() && expected == ok_model::<E>(d.model()),
        Err(e) => expected == Err::<DependenciesModel, ConfigError<E>>(e),
    }
}

/// Once a prefix of a dependency table is refused, the whole table is refused
/// with the same error.
proof fn lemma_parse_error_persists<E>(
    entries: Seq<Result<DependencyEntry<E>, E>>,
    packages: Seq<Package>,
    i: int,
)
    requires
        0 <= i <= entries.len(),
        parse_dependencies(entries.take(i), packages) is Err,
    ensures
        parse_dependencies(entries, packages) == parse_dependencies(entries.take(i), packages),
    decreases entries.len(),
{
    if entries.len() == i {
        assert(entries.take(i) =~= entries);
    } else {
        assert(entries.drop_last().take(i) =~= entries.take(i));
        lemma_parse_error_persists(entries.drop_last(), packages, i);
    }
}

/// Binds `name` to `source` in `d`, replacing an earlier binding of that name.
fn bind_source(d: &mut Dependencies, name: String, source: usize)
    requires
        old(d).wf(),
    ensures
        final(d).wf(),
        final(d).model() == (DependenciesModel {
            sources: old(d).model().sources.insert(name@, source),
            ..old(d).model()
        }),
        forall|i: int|
            0 <= i < final(d).sources@.len() ==> final(d).sources@[i].value == source || (i
                < old(d).sources@.len() && final(d).sources@[i] == old(d).sources@[i]),
{
    set_named(&mut d.sources, name, source);
}

/// Adds a native package name to `d`, unless it is there already.
fn add_native(d: &mut Dependencies, name: String)
    requires
        old(d).wf(),
    ensures
        final(d).wf(),
        final(d).model() == (DependenciesModel {
            native: old(d).model().native.insert(name@),
            ..old(d).model()
        }),
        final(d).sources@ == old(d).sources@,
{
    let ghost old_native = d.native@;
    let mut k: usize = 0;
    while k < d.native.len()
        invariant
            0 <= k <= d.native@.len(),
            *d == *old(d),
            d.native@ == old_native,
            d.wf(),
            forall|j: int| 0 <= j < k ==> d.native@[j]@ != name@,
        decreases d.native@.len() - k,
    {
        if d.native[k] == name {
            assert(name_set(old_native) =~= name_set(old_native).insert(name@));
            return;
        }
        k = k + 1;
    }
    d.native.push(name);
    proof {
        let s = d.native@;
        assert forall|n: Seq<char>| #![auto] name_set(s).contains(n) <==> name_set(old_native).insert(
            name@,
        ).contains(n) by {
            if name_set(s).contains(n) {
                let i = choose|i: int| 0 <= i < s.len() && s[i]@ == n;
                if i < old_native.len() {
                    assert(old_native[i]@ == n);
                }
            }
            if name_set(old_native).contains(n) {
                let i = choose|i: int| 0 <= i < old_native.len() && old_native[i]@ == n;
                assert(s[i]@ == n);
            }
            if n == name@ {
                assert(s[s.len() - 1]@ == n);
            }
        }
        assert(name_set(s) =~= name_set(old_native).insert(name@));
    }
}

/// Reads a dependency table: named sources, host tools, target packages and
/// native package names, entry by entry in the order the table hands them out.
///
/// A source without a string key, or a value of any other kind, refuses the
/// table; an error met while reading an entry is passed on.
pub fn parse_dependencies_table<E>(
    entries: Vec<Result<DependencyEntry<E>, E>>,
    n_sources: usize,
    packages: &Vec<Package>,
) -> (r: Result<Dependencies, ConfigError<E>>)
    requires
        entries_within(entries@, n_sources as nat, packages@.len()),
    ensures
        parsed_as(r, parse_dependencies(entries@, packages@)),
        r is Ok ==> r->Ok_0.refers_within(n_sources as nat, packages@.len()),
        r is Ok ==> r->Ok_0.tools@ == entries@.filter_map(
            |e: Result<DependencyEntry<E>, E>| package_ref_on(e, packages@, PackagePlatform::Host),
        ),
        r is Ok ==> r->Ok_0.packages@ == entries@.filter_map(
            |e: Result<DependencyEntry<E>, E>| package_ref_on(e, packages@, PackagePlatform::Target),
        ),
{
    let ghost all = entries@;
    assert(all.len() == entries.len());
    let mut d = Dependencies::new();
    let mut rest = entries;
    let mut k: usize = 0;
    while rest.len() > 0
        invariant
            k + rest@.len() == all.len(),
            all.len() <= usize::MAX,
            all == entries@,
            rest@ == all.skip(k as int),
            entries_within(all, n_sources as nat, packages@.len()),
            d.wf(),
            d.refers_within(n_sources as nat, packages@.len()),
            parse_dependencies(all.take(k as int), packages@) == ok_model::<E>(d.model()),
        decreases rest@.len(),
    {
        let ghost before = d.model();
        let entry = rest.remove(0);
        proof {
            assert(all.take(k + 1).drop_last() =~= all.take(k as int));
            assert(all.take(k + 1).last() == all[k as int]);
            assert(entry == all[k as int]);
            assert(rest@ =~= all.skip(k + 1));
        }
        proof {
            assert(parse_dependencies(all.take(k + 1), packages@) == add_dependency(
                before,
                all[k as int],
                packages@,
            ));
            if add_dependency(before, all[k as int], packages@) is Err {
                lemma_parse_error_persists(all, packages@, k + 1);
            }
        }
        match entry {
            Err(e) => {
                return Err(ConfigError::Lua(e));
            },
            Ok(entry) => {
                let DependencyEntry { key, value } = entry;
                match value {
                    DependencyValue::SourceRef(id) => {
                        match key {
                            Some(name) => {
                                bind_source(&mut d, name, id);
                            },
                            None => {
                                return Err(ConfigError::UnnamedSourceDependency);
                            },
                        }
                    },
                    DependencyValue::PackageRef(id) => {
                        if packages[id].platform == PackagePlatform::Host {
                            d.tools.push(id);
                        } else {
                            d.packages.push(id);
                        }
                    },
                    DependencyValue::Native(name) => {
                        add_native(&mut d, name);
                    },
                    DependencyValue::Other(text) => {
                        match text {
                            Ok(text) => {
                                return Err(ConfigError::InvalidDependency(text));
                            },
                            Err(e) => {
                                return Err(ConfigError::Lua(e));
                            },
                        }
                    },
                }
            },
        }
        k = k + 1;
    }
    assert(all.take(k as int) =~= all);
    proof {
        lemma_dependency_packages_kept(all, packages@);
    }
    Ok(d)
}

// ---------------------------------------------------------------------------
// Sources
// ---------------------------------------------------------------------------

/// The fields of the `base` table handed to `def_source`, each as read.
pub struct SourceBaseFields<E> {
    pub source_type: Result<String, E>,
    pub url: Result<String, E>,
    pub checksum: Result<String, E>,
    pub kind: Result<String, E>,
    pub compression: Result<String, E>,
    pub revision: Result<String, E>,
    pub path: Result<String, E>,
}

/// The fields of the `prepare` table handed to `def_source`, each as read.
pub struct PrepareFields<E> {
    pub script: Result<String, E>,
    /// The `dependencies` table: its entries, or the error met reading it.
    pub dependencies: Result<Vec<Result<DependencyEntry<E>, E>>, E>,
}

/// The first error among two candidates, the earlier one first.
pub open spec fn first_error<E>(a: Option<ConfigError<E>>, b: Option<ConfigError<E>>) -> Option<
    ConfigError<E>,
> {
    if a is Some {
        a
    } else {
        b
    }
}

/// The error of a field that could not be read, if it could not.
pub open spec fn field_error<T, E>(r: Result<T, E>, field: ConfigField) -> Option<ConfigError<E>> {
    match r {
        Ok(_) => None,
        Err(e) => Some(ConfigError::Field { field, cause: e }),
    }
}

/// The archive kind a name stands for.
pub open spec fn archive_kind_named(name: Seq<char>) -> Option<ArchiveKind> {
    if name == "tar"@ {
        Some(ArchiveKind::Tar)
    } else {
        None
    }
}

/// The archive compression a name stands for.
pub open spec fn compression_named(name: Seq<char>) -> Option<ArchiveCompression> {
    if name == "gz"@ {
        Some(ArchiveCompression::Gzip)
    } else if name == "xz"@ {
        Some(ArchiveCompression::Xz)
    } else if name == "bzip2"@ {
        Some(ArchiveCompression::Bzip2)
    } else {
        None
    }
}

/// The source base that the fields of a `base` table describe, or why they are refused.
/// An archive reads `url`, `checksum`, `kind` and `compression` before it judges
/// `kind` and then `compression`; git reads `url` and `revision`; local reads `path`.
pub open spec fn source_base_from<E>(f: SourceBaseFields<E>) -> Result<SourceBase, ConfigError<E>> {
    match f.source_type {
        Err(e) => Err(ConfigError::Field { field: ConfigField::SourceType, cause: e }),
        Ok(t) => if t@ == "archive"@ {
            match (f.url, f.checksum, f.kind, f.compression) {
                (Err(e), _, _, _) => Err(ConfigError::Field { field: ConfigField::Url, cause: e }),
                (Ok(_), Err(e), _, _) => Err(
                    ConfigError::Field { field: ConfigField::Checksum, cause: e },
                ),
                (Ok(_), Ok(_), Err(e), _) => Err(
                    ConfigError::Field { field: ConfigField::Kind, cause: e },
                ),
                (Ok(_), Ok(_), Ok(_), Err(e)) => Err(
                    ConfigError::Field { field: ConfigField::Compression, cause: e },
                ),
                (Ok(url), Ok(checksum), Ok(kind), Ok(compression)) => match archive_kind_named(
                    kind@,
                ) {
                    None => Err(ConfigError::InvalidArchiveKind(kind)),
                    Some(k) => match compression_named(compression@) {
                        None => Err(ConfigError::InvalidArchiveCompression(compression)),
                        Some(c) => Ok(
                            SourceBase::Archive(
                                Archive { url, checksum, kind: k, compression: c },
                            ),
                        ),
                    },
                },
            }
        } else if t@ == "git"@ {
            match (f.url, f.revision) {
                (Err(e), _) => Err(ConfigError::Field { field: ConfigField::Url, cause: e }),
                (Ok(_), Err(e)) => Err(ConfigError::Field { field: ConfigField::Revision, cause: e }),
                (Ok(url), Ok(revision)) => Ok(SourceBase::Git(GitSource { url, revision })),
            }
        } else if t@ == "local"@ {
            match f.path {
                Err(e) => Err(ConfigError::Field { field: ConfigField::Path, cause: e }),
                Ok(path) => Ok(SourceBase::Local(LocalSource { path })),
            }
        } else {
            Err(ConfigError::InvalidBaseType(t))
        },
    }
}

/// Whether `s` holds exactly the text of the literal `lit`.
fn is_text(s: &String, lit: &str) -> (b: bool)
    ensures
        b == (s@ == lit@),
{
    let l = String::from_str(lit);
    *s == l
}

/// The archive kind that a name stands for.
pub fn parse_archive_kind(name: &String) -> (k: Option<ArchiveKind>)
    ensures
        k == archive_kind_named(name@),
{
    if is_text(name, "tar") {
        Some(ArchiveKind::Tar)
    } else {
        None
    }
}

/// The archive compression that a name stands for.
pub fn parse_archive_compression(name: &String) -> (c: Option<ArchiveCompression>)
    ensures
        c == compression_named(name@),
{
    if is_text(name, "gz") {
        Some(ArchiveCompression::Gzip)
    } else if is_text(name, "xz") {
        Some(ArchiveCompression::Xz)
    } else if is_text(name, "bzip2") {
        Some(ArchiveCompression::Bzip2)
    } else {
        None
    }
}

/// The kind of base a source `type` names.
pub open spec fn base_kind_named(name: Seq<char>) -> Option<BaseKind> {
    if name == "archive"@ {
        Some(BaseKind::Archive)
    } else if name == "git"@ {
        Some(BaseKind::Git)
    } else if name == "local"@ {
        Some(BaseKind::Local)
    } else {
        None
    }
}

/// The kind of base a source `type` names; the fields of the `base` table that
/// [`source_base_from`] reads depend on it.
pub fn source_base_kind(name: &String) -> (k: Option<BaseKind>)
    ensures
        k == base_kind_named(name@),
{
    if is_text(name, "archive") {
        Some(BaseKind::Archive)
    } else if is_text(name, "git") {
        Some(BaseKind::Git)
    } else if is_text(name, "local") {
        Some(BaseKind::Local)
    } else {
        None
    }
}

/// Whether the fields of a `base` table describe a source base (so that the
/// `prepare` table of the definition is read next).
pub fn source_base_accepted<E>(f: &SourceBaseFields<E>) -> (b: bool)
    ensures
        b == (source_base_from(*f) is Ok),
{
    let t = match &f.source_type {
        Err(_) => {
            return false;
        },
        Ok(t) => t,
    };
    match source_base_kind(t) {
        Some(BaseKind::Archive) => {
            match (&f.url, &f.checksum, &f.kind, &f.compression) {
                (Ok(_), Ok(_), Ok(kind), Ok(compression)) => parse_archive_kind(kind).is_some()
                    && parse_archive_compression(compression).is_some(),
                _ => false,
            }
        },
        Some(BaseKind::Git) => f.url.is_ok() && f.revision.is_ok(),
        Some(BaseKind::Local) => f.path.is_ok(),
        None => false,
    }
}

/// Reads the `base` table of a source definition.
pub fn parse_source_base<E>(f: SourceBaseFields<E>) -> (r: Result<SourceBase, ConfigError<E>>)
    ensures
        r == source_base_from(f),
{
    let SourceBaseFields { source_type, url, checksum, kind, compression, revision, path } = f;
    let t = match source_type {
        Err(e) => {
            return Err(ConfigError::Field { field: ConfigField::SourceType, cause: e });
        },
        Ok(t) => t,
    };
    if is_text(&t, "archive") {
        let url = match url {
            Err(e) => {
                return Err(ConfigError::Field { field: ConfigField::Url, cause: e });
            },
            Ok(v) => v,
        };
        let checksum = match checksum {
            Err(e) => {
                return Err(ConfigError::Field { field: ConfigField::Checksum, cause: e });
            },
            Ok(v) => v,
        };
        let kind = match kind {
            Err(e) => {
                return Err(ConfigError::Field { field: ConfigField::Kind, cause: e });
            },
            Ok(v) => v,
        };
        let compression = match compression {
            Err(e) => {
                return Err(ConfigError::Field { field: ConfigField::Compression, cause: e });
            },
            Ok(v) => v,
        };
        let k = match parse_archive_kind(&kind) {
            None => {
                return Err(ConfigError::InvalidArchiveKind(kind));
            },
            Some(k) => k,
        };
        let c = match parse_archive_compression(&compression) {
            None => {
                return Err(ConfigError::InvalidArchiveCompression(compression));
            },
            Some(c) => c,
        };
        Ok(SourceBase::Archive(Archive { url, checksum, kind: k, compression: c }))
    } else if is_text(&t, "git") {
        let url = match url {
            Err(e) => {
                return Err(ConfigError::Field { field: ConfigField::Url, cause: e });
            },
            Ok(v) => v,
        };
        let revision = match revision {
            Err(e) => {
                return Err(ConfigError::Field { field: ConfigField::Revision, cause: e });
            },
            Ok(v) => v,
        };
        Ok(SourceBase::Git(GitSource { url, revision }))
    } else if is_text(&t, "local") {
        match path {
            Err(e) => Err(ConfigError::Field { field: ConfigField::Path, cause: e }),
            Ok(path) => Ok(SourceBase::Local(LocalSource { path })),
        }
    } else {
        Err(ConfigError::InvalidBaseType(t))
    }
}

/// Why a `prepare` table is refused, if it is.
pub open spec fn prepare_error<E>(p: Option<PrepareFields<E>>, packages: Seq<Package>) -> Option<
    ConfigError<E>,
> {
    match p {
        None => None,
        Some(p) => match (p.script, p.dependencies) {
            (Err(e), _) => Some(ConfigError::Field { field: ConfigField::Script, cause: e }),
            (Ok(_), Err(e)) => Some(ConfigError::Field { field: ConfigField::Dependencies, cause: e }),
            (Ok(_), Ok(entries)) => match parse_dependencies(entries@, packages) {
                Err(e) => Some(e),
                Ok(_) => None,
            },
        },
    }
}

/// Why a source definition is refused, if it is: the base first, then `prepare`.
pub open spec fn source_error<E>(
    base: SourceBaseFields<E>,
    prepare: Option<PrepareFields<E>>,
    packages: Seq<Package>,
) -> Option<ConfigError<E>> {
    match source_base_from(base) {
        Err(e) => Some(e),
        Ok(_) => prepare_error(prepare, packages),
    }
}

/// A bash script with the given text.
pub open spec fn bash(code: String) -> Script {
    Script { language: ScriptLanguage::Bash, code }
}

/// `prepare` is what the `prepare` table describes.
pub open spec fn prepare_matches<E>(
    prepare: Option<SourcePrepare>,
    f: Option<PrepareFields<E>>,
    packages: Seq<Package>,
) -> bool {
    match (prepare, f) {
        (None, None) => true,
        (Some(p), Some(f)) => match (f.script, f.dependencies) {
            (Ok(script), Ok(entries)) => {
                &&& p.script == bash(script)
                &&& p.environment_variables@.len() == 0
                &&& parsed_as(Ok::<Dependencies, ConfigError<E>>(p.dependencies), parse_dependencies(entries@, packages))
            },
            _ => false,
        },
        _ => false,
    }
}

/// `s` is the source that a definition describes.
pub open spec fn source_matches<E>(
    s: Source,
    base: SourceBaseFields<E>,
    patches: Option<Vec<String>>,
    prepare: Option<PrepareFields<E>>,
    packages: Seq<Package>,
) -> bool {
    &&& source_base_from(base) == Ok::<SourceBase, ConfigError<E>>(s.base)
    &&& s.patches@ == match patches {
        Some(v) => v@,
        None => Seq::empty(),
    }
    &&& prepare_matches(s.prepare, prepare, packages)
}

/// Every source and package that the `prepare` table refers to lies within
/// registries of the given sizes.
pub open spec fn prepare_within<E>(p: Option<PrepareFields<E>>, n_sources: nat, n_packages: nat) -> bool {
    match p {
        Some(p) => match p.dependencies {
            Ok(entries) => entries_within(entries@, n_sources, n_packages),
            Err(_) => true,
        },
        None => true,
    }
}

// ---------------------------------------------------------------------------
// Packages
// ---------------------------------------------------------------------------

/// One value of a `runtime_dependencies` list, as the rules see it: the package it
/// is, if it is one, and its text (or the error met while producing it).
pub struct RuntimeDependency<E> {
    pub package: Option<usize>,
    pub text: Result<String, E>,
}

/// The fields of the table handed to `def_package`, each as read.
pub struct PackageFields<E> {
    pub platform: Result<String, E>,
    pub name: Result<String, E>,
    pub version: Result<String, E>,
    pub revision: Result<usize, E>,
    /// The `dependencies` table: its entries, or the error met reading it.
    pub dependencies: Result<Vec<Result<DependencyEntry<E>, E>>, E>,
    /// The `runtime_dependencies` list: its values, or the error met reading it.
    pub runtime_dependencies: Result<Vec<Result<RuntimeDependency<E>, E>>, E>,
    pub configure: Result<Option<String>, E>,
    pub build: Result<Option<String>, E>,
    pub install: Result<String, E>,
}

/// The platform a name stands for.
pub open spec fn platform_named(name: Seq<char>) -> Option<PackagePlatform> {
    if name == "host"@ {
        Some(PackagePlatform::Host)
    } else if name == "target"@ {
        Some(PackagePlatform::Target)
    } else {
        None
    }
}

/// The platform that a name stands for.
pub fn parse_platform(name: &String) -> (p: Option<PackagePlatform>)
    ensures
        p == platform_named(name@),
{
    if is_text(name, "host") {
        Some(PackagePlatform::Host)
    } else if is_text(name, "target") {
        Some(PackagePlatform::Target)
    } else {
        None
    }
}

/// Every package that the values refer to lies within a registry of the given size.
pub open spec fn runtime_within<E>(entries: Seq<Result<RuntimeDependency<E>, E>>, n_packages: nat) -> bool {
    forall|i: int|
        0 <= i < entries.len() ==> match #[trigger] entries[i] {
            Ok(rd) => match rd.package {
                Some(id) => id < n_packages,
                None => true,
            },
            Err(_) => true,
        }
}

/// The error for a value that is not a runtime dependency: its text, or the
/// error met while producing it.
pub open spec fn not_a_runtime_dependency<E>(text: Result<String, E>) -> ConfigError<E> {
    match text {
        Ok(t) => ConfigError::InvalidRuntimeDependency(t),
        Err(e) => ConfigError::Lua(e),
    }
}

/// The runtime dependencies that a `runtime_dependencies` list stands for: each
/// value must be a package of the given platform.
pub open spec fn parse_runtime<E>(
    entries: Seq<Result<RuntimeDependency<E>, E>>,
    platform: PackagePlatform,
    packages: Seq<Package>,
) -> Result<Seq<usize>, ConfigError<E>>
    decreases entries.len(),
{
    if entries.len() == 0 {
        Ok(Seq::empty())
    } else {
        match parse_runtime(entries.drop_last(), platform, packages) {
            Err(e) => Err(e),
            Ok(ids) => match entries.last() {
                Err(e) => Err(ConfigError::Lua(e)),
                Ok(rd) => match rd.package {
                    Some(id) => if packages[id as int].platform == platform {
                        Ok(ids.push(id))
                    } else {
                        Err(not_a_runtime_dependency(rd.text))
                    },
                    None => Err(not_a_runtime_dependency(rd.text)),
                },
            },
        }
    }
}

proof fn lemma_runtime_error_persists<E>(
    entries: Seq<Result<RuntimeDependency<E>, E>>,
    platform: PackagePlatform,
    packages: Seq<Package>,
    i: int,
)
    requires
        0 <= i <= entries.len(),
        parse_runtime(entries.take(i), platform, packages) is Err,
    ensures
        parse_runtime(entries, platform, packages) == parse_runtime(entries.take(i), platform, packages),
    decreases entries.len(),
{
    if entries.len() == i {
        assert(entries.take(i) =~= entries);
    } else {
        assert(entries.drop_last().take(i) =~= entries.take(i));
        lemma_runtime_error_persists(entries.drop_last(), platform, packages, i);
    }
}

/// An entry of a runtime dependency list that is a package of `platform`, as
/// that package's position.
pub open spec fn runtime_entry_is<E>(
    entry: Result<RuntimeDependency<E>, E>,
    id: usize,
    platform: PackagePlatform,
    packages: Seq<Package>,
) -> bool {
    &&& entry is Ok
    &&& entry->Ok_0.package == Some(id)
    &&& packages[id as int].platform == platform
}

/// An entry of a runtime dependency list is a package of `platform`.
pub open spec fn runtime_entry_ok<E>(
    entry: Result<RuntimeDependency<E>, E>,
    platform: PackagePlatform,
    packages: Seq<Package>,
) -> bool {
    &&& entry is Ok
    &&& entry->Ok_0.package is Some
    &&& packages[entry->Ok_0.package->Some_0 as int].platform == platform
}

/// A runtime dependency list is accepted exactly when every value is a package
/// of the package's platform, and then it yields one package per value, in
/// the order of the list.
pub proof fn lemma_runtime_one_per_entry<E>(
    entries: Seq<Result<RuntimeDependency<E>, E>>,
    platform: PackagePlatform,
    packages: Seq<Package>,
)
    ensures
        parse_runtime(entries, platform, packages) is Ok <==> forall|i: int|
            0 <= i < entries.len() ==> runtime_entry_ok(#[trigger] entries[i], platform, packages),
        parse_runtime(entries, platform, packages) is Ok ==> {
            let ids = parse_runtime(entries, platform, packages)->Ok_0;
            &&& ids.len() == entries.len()
            &&& forall|i: int|
                0 <= i < entries.len() ==> runtime_entry_is(
                    #[trigger] entries[i],
                    ids[i],
                    platform,
                    packages,
                )
        },
    decreases entries.len(),
{
    if entries.len() > 0 {
        let p = entries.drop_last();
        let n = entries.len() - 1;
        lemma_runtime_one_per_entry(p, platform, packages);
        assert forall|i: int| 0 <= i < p.len() implies #[trigger] p[i] == entries[i] by {}
        if parse_runtime(p, platform, packages) is Ok {
            let ids0 = parse_runtime(p, platform, packages)->Ok_0;
            if parse_runtime(entries, platform, packages) is Ok {
                let ids = parse_runtime(entries, platform, packages)->Ok_0;
                let id = entries[n]->Ok_0.package->Some_0;
                assert(ids == ids0.push(id));
                assert(runtime_entry_is(entries[n], id, platform, packages));
                assert forall|i: int| 0 <= i < entries.len() implies runtime_entry_is(
                    #[trigger] entries[i],
                    ids[i],
                    platform,
                    packages,
                ) by {
                    if i < n {
                        assert(runtime_entry_is(p[i], ids0[i], platform, packages));
                    }
                }
                assert forall|i: int| 0 <= i < entries.len() implies runtime_entry_ok(
                    #[trigger] entries[i],
                    platform,
                    packages,
                ) by {
                    assert(runtime_entry_is(entries[i], ids[i], platform, packages));
                }
            } else {
                assert(!runtime_entry_ok(entries[n], platform, packages));
            }
        } else {
            let i = choose|i: int|
                0 <= i < p.len() && !runtime_entry_ok(#[trigger] p[i], platform, packages);
            assert(p[i] == entries[i]);
        }
    }
}

/// Why an entry of a runtime dependency list that is not a package of the
/// platform is refused: the error met reading it, or its text.
pub open spec fn runtime_entry_error<E>(entry: Result<RuntimeDependency<E>, E>) -> ConfigError<E> {
    match entry {
        Err(e) => ConfigError::Lua(e),
        Ok(rd) => not_a_runtime_dependency(rd.text),
    }
}

/// A runtime dependency list is refused for its first entry that is not a
/// package of the platform, whatever follows it.
pub proof fn lemma_runtime_first_bad_entry<E>(
    entries: Seq<Result<RuntimeDependency<E>, E>>,
    platform: PackagePlatform,
    packages: Seq<Package>,
    i: int,
)
    requires
        0 <= i < entries.len(),
        !runtime_entry_ok(entries[i], platform, packages),
        forall|j: int| 0 <= j < i ==> runtime_entry_ok(#[trigger] entries[j], platform, packages),
    ensures
        parse_runtime(entries, platform, packages) == Err::<Seq<usize>, ConfigError<E>>(
            runtime_entry_error(entries[i]),
        ),
{
    let t = entries.take(i + 1);
    assert(t.drop_last() =~= entries.take(i));
    assert forall|j: int| 0 <= j < i implies runtime_entry_ok(#[trigger] entries.take(i)[j], platform, packages) by {
        assert(entries.take(i)[j] == entries[j]);
    }
    lemma_runtime_one_per_entry(entries.take(i), platform, packages);
    assert(t.last() == entries[i]);
    lemma_runtime_error_persists(entries, platform, packages, i + 1);
}

/// A list of runtime dependencies that was read agrees with what the list stands for.
pub open spec fn runtime_parsed_as<E>(
    r: Result<Vec<usize>, ConfigError<E>>,
    expected: Result<Seq<usize>, ConfigError<E>>,
) -> bool {
    match r {
        Ok(v) => expected == Ok::<Seq<usize>, ConfigError<E>>(v@),
        Err(e) => expected == Err::<Seq<usize>, ConfigError<E>>(e),
    }
}

/// Reads a `runtime_dependencies` list: each value must be a package of `platform`.
pub fn parse_runtime_dependencies<E>(
    entries: Vec<Result<RuntimeDependency<E>, E>>,
    platform: PackagePlatform,
    packages: &Vec<Package>,
) -> (r: Result<Vec<usize>, ConfigError<E>>)
    requires
        runtime_within(entries@, packages@.len()),
    ensures
        runtime_parsed_as(r, parse_runtime(entries@, platform, packages@)),
        r is Ok ==> r->Ok_0@.len() == entries@.len(),
        r is Ok ==> forall|i: int|
            0 <= i < entries@.len() ==> runtime_entry_is(
                #[trigger] entries@[i],
                r->Ok_0@[i],
                platform,
                packages@,
            ),
{
    let ghost all = entries@;
    assert(all.len() == entries.len());
    let mut ids: Vec<usize> = Vec::new();
    let mut rest = entries;
    let mut k: usize = 0;
    while rest.len() > 0
        invariant
            k + rest@.len() == all.len(),
            all.len() <= usize::MAX,
            all == entries@,
            rest@ == all.skip(k as int),
            runtime_within(all, packages@.len()),
            parse_runtime(all.take(k as int), platform, packages@) == Ok::<
                Seq<usize>,
                ConfigError<E>,
            >(ids@),
        decreases rest@.len(),
    {
        let entry = rest.remove(0);
        proof {
            assert(all.take(k + 1).drop_last() =~= all.take(k as int));
            assert(all.take(k + 1).last() == all[k as int]);
            assert(rest@ =~= all.skip(k + 1));
            if parse_runtime(all.take(k + 1), platform, packages@) is Err {
                lemma_runtime_error_persists(all, platform, packages@, k + 1);
            }
        }
        match entry {
            Err(e) => {
                return Err(ConfigError::Lua(e));
            },
            Ok(rd) => {
                let RuntimeDependency { package, text } = rd;
                match package {
                    Some(id) => {
                        if packages[id].platform == platform {
                            ids.push(id);
                        } else {
                            return Err(not_a_runtime_dependency_of(text));
                        }
                    },
                    None => {
                        return Err(not_a_runtime_dependency_of(text));
                    },
                }
            },
        }
        k = k + 1;
    }
    assert(all.take(k as int) =~= all);
    proof {
        lemma_runtime_one_per_entry(all, platform, packages@);
    }
    Ok(ids)
}

/// The error for a value that is not a runtime dependency.
fn not_a_runtime_dependency_of<E>(text: Result<String, E>) -> (e: ConfigError<E>)
    ensures
        e == not_a_runtime_dependency(text),
{
    match text {
        Ok(t) => ConfigError::InvalidRuntimeDependency(t),
        Err(e) => ConfigError::Lua(e),
    }
}

/// A package of that name and platform is in the list.
pub open spec fn has_package(packages: Seq<Package>, name: Seq<char>, platform: PackagePlatform) -> bool {
    exists|i: int| 0 <= i < packages.len() && packages[i].name@ == name && packages[i].platform == platform
}

/// Why a package definition is refused, if it is: the fields in the order they
/// are read, then the platform, then a package of the same name and platform,
/// then the dependencies, then the runtime dependencies.
pub open spec fn package_error<E>(f: PackageFields<E>, packages: Seq<Package>) -> Option<
    ConfigError<E>,
> {
    first_error(
        field_error(f.platform, ConfigField::Platform),
        first_error(
            field_error(f.name, ConfigField::Name),
            first_error(
                field_error(f.version, ConfigField::Version),
                first_error(
                    field_error(f.revision, ConfigField::PackageRevision),
                    first_error(
                        field_error(f.dependencies, ConfigField::Dependencies),
                        first_error(
                            field_error(f.runtime_dependencies, ConfigField::RuntimeDependencies),
                            first_error(
                                field_error(f.configure, ConfigField::Configure),
                                first_error(
                                    field_error(f.build, ConfigField::Build),
                                    first_error(
                                        field_error(f.install, ConfigField::Install),
                                        package_rule_error(f, packages),
                                    ),
                                ),
                            ),
                        ),
                    ),
                ),
            ),
        ),
    )
}

/// Why a package whose fields could all be read is refused, if it is.
pub open spec fn package_rule_error<E>(f: PackageFields<E>, packages: Seq<Package>) -> Option<
    ConfigError<E>,
> {
    let name = f.name->Ok_0;
    match platform_named(f.platform->Ok_0@) {
        None => Some(ConfigError::InvalidPlatform),
        Some(platform) => if has_package(packages, name@, platform) {
            Some(ConfigError::DuplicatePackage(name))
        } else {
            match parse_dependencies(f.dependencies->Ok_0@, packages) {
                Err(e) => Some(e),
                Ok(_) => match parse_runtime(f.runtime_dependencies->Ok_0@, platform, packages) {
                    Err(e) => Some(e),
                    Ok(_) => None,
                },
            }
        },
    }
}

/// The optional script that an optional text stands for.
pub open spec fn optional_bash(code: Option<String>) -> Option<Script> {
    match code {
        Some(c) => Some(bash(c)),
        None => None,
    }
}

/// `p` is the package that a definition whose fields could all be read describes.
pub open spec fn package_matches<E>(p: Package, f: PackageFields<E>, packages: Seq<Package>) -> bool {
    &&& Some(p.platform) == platform_named(f.platform->Ok_0@)
    &&& p.name == f.name->Ok_0
    &&& p.version == f.version->Ok_0
    &&& p.revision == f.revision->Ok_0
    &&& parsed_as(Ok::<Dependencies, ConfigError<E>>(p.dependencies), parse_dependencies(f.dependencies->Ok_0@, packages))
    &&& parse_runtime(f.runtime_dependencies->Ok_0@, p.platform, packages) == Ok::<
        Seq<usize>,
        ConfigError<E>,
    >(p.runtime_dependencies@)
    &&& p.environment_variables@.len() == 0
    &&& p.configure == optional_bash(f.configure->Ok_0)
    &&& p.build == optional_bash(f.build->Ok_0)
    &&& p.install == bash(f.install->Ok_0)
}

/// Every source and package that the fields refer to lies within registries of
/// the given sizes.
pub open spec fn package_fields_within<E>(f: PackageFields<E>, n_sources: nat, n_packages: nat) -> bool {
    &&& (f.dependencies is Ok ==> entries_within(f.dependencies->Ok_0@, n_sources, n_packages))
    &&& (f.runtime_dependencies is Ok ==> runtime_within(f.runtime_dependencies->Ok_0@, n_packages))
}

// ---------------------------------------------------------------------------
// The registry of a configuration being evaluated
// ---------------------------------------------------------------------------

/// The tools of a dependency list are host packages and its packages are target
/// packages of the registry `packages`.
pub open spec fn dependencies_split(d: Dependencies, packages: Seq<Package>) -> bool {
    &&& forall|k: int|
        0 <= k < d.tools@.len() ==> packages[#[trigger] d.tools@[k] as int].platform
            == PackagePlatform::Host
    &&& forall|k: int|
        0 <= k < d.packages@.len() ==> packages[#[trigger] d.packages@[k] as int].platform
            == PackagePlatform::Target
}

/// A source refers only to sources among the first `n_sources` and to packages of
/// `packages`, its `prepare` step sets no variable twice, and the tools and packages of its `prepare` step are host and
/// target packages.
pub open spec fn source_within(s: Source, n_sources: nat, packages: Seq<Package>) -> bool {
    match s.prepare {
        Some(p) => {
            &&& names_distinct(p.environment_variables@)
            &&& p.dependencies.wf()
            &&& p.dependencies.refers_within(n_sources, packages.len())
            &&& dependencies_split(p.dependencies, packages)
        },
        None => true,
    }
}

/// A package refers only to sources among the first `n_sources` and to packages
/// of `earlier` (the packages defined before it); it sets no variable twice; its tools are host packages, its
/// packages target packages, and each of its runtime dependencies a package of
/// its own platform.
pub open spec fn package_within(p: Package, n_sources: nat, earlier: Seq<Package>) -> bool {
    &&& names_distinct(p.environment_variables@)
    &&& p.dependencies.wf()
    &&& p.dependencies.refers_within(n_sources, earlier.len())
    &&& dependencies_split(p.dependencies, earlier)
    &&& forall|k: int|
        0 <= k < p.runtime_dependencies@.len() ==> {
            let id = #[trigger] p.runtime_dependencies@[k];
            &&& id < earlier.len()
            &&& earlier[id as int].platform == p.platform
        }
}

/// The registry is consistent: every source refers within the registry, every
/// package refers only to packages defined before it (so the packages are in
/// dependency order), tools are host and packages target packages throughout,
/// runtime dependencies share the platform of the package that needs them, no
/// environment sets a variable twice, and no two packages of one platform share
/// a name.
pub open spec fn registry_consistent(sources: Seq<Source>, packages: Seq<Package>) -> bool {
    &&& forall|i: int|
        0 <= i < sources.len() ==> source_within(#[trigger] sources[i], sources.len(), packages)
    &&& forall|i: int|
        0 <= i < packages.len() ==> package_within(
            #[trigger] packages[i],
            sources.len(),
            packages.take(i),
        )
    &&& forall|i: int, j: int|
        0 <= i < j < packages.len() ==> !(packages[i].name@ == packages[j].name@
            && packages[i].platform == packages[j].platform)
}

/// A source that refers within a registry still does once a package is added.
proof fn lemma_source_within_grows(s: Source, n_sources: nat, packages: Seq<Package>, more: Package)
    requires
        source_within(s, n_sources, packages),
    ensures
        source_within(s, n_sources, packages.push(more)),
{
    if let Some(p) = s.prepare {
        let np = packages.push(more);
        assert forall|k: int| 0 <= k < p.dependencies.tools@.len() implies np[#[trigger] p.dependencies.tools@[k] as int].platform
            == PackagePlatform::Host by {
            assert(np[p.dependencies.tools@[k] as int] == packages[p.dependencies.tools@[k] as int]);
        }
        assert forall|k: int| 0 <= k < p.dependencies.packages@.len() implies np[#[trigger] p.dependencies.packages@[k] as int].platform
            == PackagePlatform::Target by {
            assert(np[p.dependencies.packages@[k] as int] == packages[p.dependencies.packages@[k] as int]);
        }
    }
}

/// The sources and packages that a configuration script has defined so far.
pub struct ChariotAppData {
    pub sources: Vec<Source>,
    pub packages: Vec<Package>,
}

impl ChariotAppData {
    /// The registry is consistent (see [`registry_consistent`]).
    pub open spec fn wf(&self) -> bool {
        registry_consistent(self.sources@, self.packages@)
    }

    /// An empty registry.
    pub fn new() -> (data: ChariotAppData)
        ensures
            data.wf(),
            data.sources@.len() == 0,
            data.packages@.len() == 0,
    {
        ChariotAppData { sources: Vec::new(), packages: Vec::new() }
    }

    /// What `def_source` does: reads the definition and, if it is accepted,
    /// appends the source to the registry and returns its position.
    pub fn define_source<E>(
        &mut self,
        base: SourceBaseFields<E>,
        patches: Option<Vec<String>>,
        prepare: Option<PrepareFields<E>>,
    ) -> (r: Result<usize, ConfigError<E>>)
        requires
            old(self).wf(),
            prepare_within(prepare, old(self).sources@.len(), old(self).packages@.len()),
        ensures
            final(self).wf(),
            final(self).packages@ == old(self).packages@,
            source_defined(*old(self), *final(self), r, base, patches, prepare),
            r is Ok && patches is Some ==> final(self).sources@[r->Ok_0 as int].patches@
                == patches->Some_0@,
            r is Ok && patches is None ==> final(self).sources@[r->Ok_0 as int].patches@.len() == 0,
    {
        let ghost pre = *self;
        let ghost base_in = base;
        let ghost prepare_in = prepare;
        let base = match parse_source_base(base) {
            Err(e) => {
                return Err(e);
            },
            Ok(b) => b,
        };
        let prep = match prepare {
            None => None,
            Some(p) => {
                let PrepareFields { script, dependencies } = p;
                let script = match script {
                    Err(e) => {
                        return Err(ConfigError::Field { field: ConfigField::Script, cause: e });
                    },
                    Ok(s) => s,
                };
                let entries = match dependencies {
                    Err(e) => {
                        return Err(
                            ConfigError::Field { field: ConfigField::Dependencies, cause: e },
                        );
                    },
                    Ok(v) => v,
                };
                let ghost es = entries@;
                let deps = match parse_dependencies_table(entries, self.sources.len(), &self.packages) {
                    Err(e) => {
                        return Err(e);
                    },
                    Ok(d) => d,
                };
                proof {
                    lemma_accepted_dependencies(es, self.packages@);
                    assert(dependencies_split(deps, self.packages@));
                }
                Some(SourcePrepare { environment_variables: Vec::new(), dependencies: deps, script: Script::bash(script) })
            },
        };
        let patches = match patches {
            Some(v) => v,
            None => Vec::new(),
        };
        let i = self.sources.len();
        self.sources.push(Source { base, patches, prepare: prep });
        proof {
            let post = *self;
            assert(post.sources@[i as int].prepare == prep);
            assert forall|j: int| 0 <= j < post.sources@.len() implies source_within(
                #[trigger] post.sources@[j],
                post.sources@.len(),
                post.packages@,
            ) by {
                if j < i {
                    assert(post.sources@[j] == pre.sources@[j]);
                    assert(source_within(pre.sources@[j], pre.sources@.len(), pre.packages@));
                }
            }
            assert forall|j: int| 0 <= j < post.packages@.len() implies package_within(
                #[trigger] post.packages@[j],
                post.sources@.len(),
                post.packages@.take(j),
            ) by {
                assert(package_within(pre.packages@[j], pre.sources@.len(), pre.packages@.take(j)));
            }
            assert(post.sources@.drop_last() =~= pre.sources@);
        }
        Ok(i)
    }

    /// What `def_package` does: reads the definition and, if it is accepted,
    /// appends the package to the registry and returns its position.
    pub fn define_package<E>(&mut self, f: PackageFields<E>) -> (r: Result<usize, ConfigError<E>>)
        requires
            old(self).wf(),
            package_fields_within(f, old(self).sources@.len(), old(self).packages@.len()),
        ensures
            final(self).wf(),
            final(self).sources@ == old(self).sources@,
            package_defined(*old(self), *final(self), r, f),
    {
        let ghost pre = *self;
        let PackageFields {
            platform,
            name,
            version,
            revision,
            dependencies,
            runtime_dependencies,
            configure,
            build,
            install,
        } = f;
        let platform = match platform {
            Err(e) => {
                return Err(ConfigError::Field { field: ConfigField::Platform, cause: e });
            },
            Ok(v) => v,
        };
        let name = match name {
            Err(e) => {
                return Err(ConfigError::Field { field: ConfigField::Name, cause: e });
            },
            Ok(v) => v,
        };
        let version = match version {
            Err(e) => {
                return Err(ConfigError::Field { field: ConfigField::Version, cause: e });
            },
            Ok(v) => v,
        };
        let revision = match revision {
            Err(e) => {
                return Err(ConfigError::Field { field: ConfigField::PackageRevision, cause: e });
            },
            Ok(v) => v,
        };
        let dependencies = match dependencies {
            Err(e) => {
                return Err(ConfigError::Field { field: ConfigField::Dependencies, cause: e });
            },
            Ok(v) => v,
        };
        let runtime_dependencies = match runtime_dependencies {
            Err(e) => {
                return Err(
                    ConfigError::Field { field: ConfigField::RuntimeDependencies, cause: e },
                );
            },
            Ok(v) => v,
        };
        let configure = match configure {
            Err(e) => {
                return Err(ConfigError::Field { field: ConfigField::Configure, cause: e });
            },
            Ok(v) => v,
        };
        let build = match build {
            Err(e) => {
                return Err(ConfigError::Field { field: ConfigField::Build, cause: e });
            },
            Ok(v) => v,
        };
        let install = match install {
            Err(e) => {
                return Err(ConfigError::Field { field: ConfigField::Install, cause: e });
            },
            Ok(v) => v,
        };
        let platform = match parse_platform(&platform) {
            None => {
                return Err(ConfigError::InvalidPlatform);
            },
            Some(p) => p,
        };
        if self.find_package(&name, platform).is_some() {
            return Err(ConfigError::DuplicatePackage(name));
        }
        let ghost es = dependencies@;
        let deps = match parse_dependencies_table(dependencies, self.sources.len(), &self.packages) {
            Err(e) => {
                return Err(e);
            },
            Ok(d) => d,
        };
        proof {
            lemma_accepted_dependencies(es, self.packages@);
            assert(dependencies_split(deps, self.packages@));
        }
        let rdeps = match parse_runtime_dependencies(runtime_dependencies, platform, &self.packages) {
            Err(e) => {
                return Err(e);
            },
            Ok(v) => v,
        };
        let configure = match configure {
            Some(c) => Some(Script::bash(c)),
            None => None,
        };
        let build = match build {
            Some(c) => Some(Script::bash(c)),
            None => None,
        };
        let package = Package {
            platform,
            name,
            version,
            revision,
            dependencies: deps,
            runtime_dependencies: rdeps,
            environment_variables: Vec::new(),
            configure,
            build,
            install: Script::bash(install),
        };
        let i = self.packages.len();
        let ghost added = package;
        self.packages.push(package);
        proof {
            let post = *self;
            let np = post.packages@;
            assert(np.drop_last() =~= pre.packages@);
            assert forall|j: int| 0 <= j < post.sources@.len() implies source_within(
                #[trigger] post.sources@[j],
                post.sources@.len(),
                np,
            ) by {
                assert(source_within(pre.sources@[j], pre.sources@.len(), pre.packages@));
                lemma_source_within_grows(pre.sources@[j], pre.sources@.len(), pre.packages@, added);
                assert(np =~= pre.packages@.push(added));
            }
            assert forall|j: int| 0 <= j < np.len() implies package_within(
                #[trigger] np[j],
                post.sources@.len(),
                np.take(j),
            ) by {
                if j < i {
                    assert(np[j] == pre.packages@[j]);
                    assert(np.take(j) =~= pre.packages@.take(j));
                    assert(package_within(pre.packages@[j], pre.sources@.len(), pre.packages@.take(j)));
                } else {
                    assert(np.take(j) =~= pre.packages@);
                    assert forall|k: int| 0 <= k < np[j].runtime_dependencies@.len() implies {
                        let id = #[trigger] np[j].runtime_dependencies@[k];
                        &&& id < pre.packages@.len()
                        &&& pre.packages@[id as int].platform == np[j].platform
                    } by {
                        lemma_runtime_within(runtime_dependencies_in(f), platform, pre.packages@, k);
                    }
                }
            }
            assert forall|a: int, b: int| 0 <= a < b < np.len() implies !(np[a].name@ == np[b].name@
                && np[a].platform == np[b].platform) by {
                if b == i {
                    assert(np[a] == pre.packages@[a]);
                }
            }
        }
        Ok(i)
    }

    /// The position of the package of that name and platform, if there is one.
    pub fn find_package(&self, name: &String, platform: PackagePlatform) -> (r: Option<usize>)
        ensures
            r is None <==> !has_package(self.packages@, name@, platform),
            r matches Some(i) ==> i < self.packages@.len() && self.packages@[i as int].name@ == name@
                && self.packages@[i as int].platform == platform,
    {
        let mut k: usize = 0;
        while k < self.packages.len()
            invariant
                0 <= k <= self.packages@.len(),
                forall|j: int|
                    0 <= j < k ==> !(self.packages@[j].name@ == name@ && self.packages@[j].platform
                        == platform),
            decreases self.packages@.len() - k,
        {
            if self.packages[k].name == *name && self.packages[k].platform == platform {
                return Some(k);
            }
            k = k + 1;
        }
        None
    }

    /// The configuration that the definitions make up.
    pub fn finish(self, global_env: GlobalEnvironment) -> (config: Config)
        requires
            self.wf(),
            names_distinct(global_env.global_environment_variables@),
        ensures
            registry_consistent(config.sources@, config.packages@),
            names_distinct(config.global_env.global_environment_variables@),
            config.global_env == global_env,
            config.sources@ == self.sources@,
            config.packages@ == self.packages@,
    {
        Config { global_env, packages: self.packages, sources: self.sources }
    }
}

/// An evaluated configuration is in dependency order: every package needs
/// (as tool, as package, or at run time) only packages defined before it, so
/// the packages form no cycle. Every tool is a host package, every package
/// dependency a target package, every runtime dependency a package of the same
/// platform; every named source, of a package or of a `prepare` step, is a
/// source of the configuration, and the tools and packages of every `prepare`
/// step are host and target packages of the configuration.
pub proof fn lemma_config_dependency_order(c: Config)
    requires
        registry_consistent(c.sources@, c.packages@),
    ensures
        forall|i: int, k: int|
            0 <= i < c.packages@.len() && 0 <= k < c.packages@[i].runtime_dependencies@.len()
                ==> {
                let id = #[trigger] c.packages@[i].runtime_dependencies@[k];
                &&& id < i
                &&& c.packages@[id as int].platform == c.packages@[i].platform
            },
        forall|i: int, k: int|
            0 <= i < c.packages@.len() && 0 <= k < c.packages@[i].dependencies.tools@.len() ==> {
                let id = #[trigger] c.packages@[i].dependencies.tools@[k];
                &&& id < i
                &&& c.packages@[id as int].platform == PackagePlatform::Host
            },
        forall|i: int, k: int|
            0 <= i < c.packages@.len() && 0 <= k < c.packages@[i].dependencies.packages@.len()
                ==> {
                let id = #[trigger] c.packages@[i].dependencies.packages@[k];
                &&& id < i
                &&& c.packages@[id as int].platform == PackagePlatform::Target
            },
        forall|i: int, k: int|
            0 <= i < c.packages@.len() && 0 <= k < c.packages@[i].dependencies.sources@.len()
                ==> #[trigger] c.packages@[i].dependencies.sources@[k].value < c.sources@.len(),
        forall|i: int|
            0 <= i < c.sources@.len() && #[trigger] c.sources@[i].prepare is Some ==> {
                let d = c.sources@[i].prepare->Some_0.dependencies;
                &&& d.refers_within(c.sources@.len(), c.packages@.len())
                &&& dependencies_split(d, c.packages@)
            },
{
    let ps = c.packages@;
    assert forall|i: int, k: int|
        0 <= i < ps.len() && 0 <= k < ps[i].runtime_dependencies@.len() implies {
        let id = #[trigger] ps[i].runtime_dependencies@[k];
        &&& id < i
        &&& ps[id as int].platform == ps[i].platform
    } by {
        assert(package_within(ps[i], c.sources@.len(), ps.take(i)));
        let id = ps[i].runtime_dependencies@[k];
        assert(ps.take(i)[id as int] == ps[id as int]);
    }
    assert forall|i: int, k: int|
        0 <= i < ps.len() && 0 <= k < ps[i].dependencies.tools@.len() implies {
        let id = #[trigger] ps[i].dependencies.tools@[k];
        &&& id < i
        &&& ps[id as int].platform == PackagePlatform::Host
    } by {
        assert(package_within(ps[i], c.sources@.len(), ps.take(i)));
        let id = ps[i].dependencies.tools@[k];
        assert(ps.take(i)[id as int] == ps[id as int]);
    }
    assert forall|i: int, k: int|
        0 <= i < ps.len() && 0 <= k < ps[i].dependencies.packages@.len() implies {
        let id = #[trigger] ps[i].dependencies.packages@[k];
        &&& id < i
        &&& ps[id as int].platform == PackagePlatform::Target
    } by {
        assert(package_within(ps[i], c.sources@.len(), ps.take(i)));
        let id = ps[i].dependencies.packages@[k];
        assert(ps.take(i)[id as int] == ps[id as int]);
    }
    assert forall|i: int, k: int|
        0 <= i < ps.len() && 0 <= k < ps[i].dependencies.sources@.len() implies #[trigger] ps[i].dependencies.sources@[k].value
        < c.sources@.len() by {
        assert(package_within(ps[i], c.sources@.len(), ps.take(i)));
    }
    assert forall|i: int|
        0 <= i < c.sources@.len() && #[trigger] c.sources@[i].prepare is Some implies {
        let d = c.sources@[i].prepare->Some_0.dependencies;
        &&& d.refers_within(c.sources@.len(), c.packages@.len())
        &&& dependencies_split(d, c.packages@)
    } by {
        assert(source_within(c.sources@[i], c.sources@.len(), ps));
    }
}

/// The runtime dependency list of a package definition, as read.
pub open spec fn runtime_dependencies_in<E>(f: PackageFields<E>) -> Seq<Result<RuntimeDependency<E>, E>> {
    f.runtime_dependencies->Ok_0@
}

/// Each package that an accepted runtime dependency list names is a package of
/// the registry of the given platform.
proof fn lemma_runtime_within<E>(
    entries: Seq<Result<RuntimeDependency<E>, E>>,
    platform: PackagePlatform,
    packages: Seq<Package>,
    k: int,
)
    requires
        parse_runtime(entries, platform, packages) is Ok,
        0 <= k < parse_runtime(entries, platform, packages)->Ok_0.len(),
    ensures
        ({
            let id = parse_runtime(entries, platform, packages)->Ok_0[k];
            id < packages.len() || !runtime_within(entries, packages.len())
        }),
        ({
            let id = parse_runtime(entries, platform, packages)->Ok_0[k];
            packages[id as int].platform == platform
        }),
    decreases entries.len(),
{
    let p = entries.drop_last();
    let ids = parse_runtime(entries, platform, packages)->Ok_0;
    if k < ids.len() - 1 {
        assert(runtime_within(entries, packages.len()) ==> runtime_within(p, packages.len())) by {
            if runtime_within(entries, packages.len()) {
                assert forall|i: int| 0 <= i < p.len() implies match #[trigger] p[i] {
                    Ok(rd) => match rd.package {
                        Some(id) => id < packages.len(),
                        None => true,
                    },
                    Err(_) => true,
                } by {
                    assert(p[i] == entries[i]);
                }
            }
        }
        lemma_runtime_within(p, platform, packages, k);
    } else {
        let last = entries[entries.len() - 1];
        assert(runtime_within(entries, packages.len()) ==> match last {
            Ok(rd) => match rd.package {
                Some(id) => id < packages.len(),
                None => true,
            },
            Err(_) => true,
        });
    }
}

/// The outcome of a source definition: either it was accepted, the source was
/// appended and its position returned, or it was refused with the first error
/// and the registry left as it was.
pub open spec fn source_defined<E>(
    pre: ChariotAppData,
    post: ChariotAppData,
    r: Result<usize, ConfigError<E>>,
    base: SourceBaseFields<E>,
    patches: Option<Vec<String>>,
    prepare: Option<PrepareFields<E>>,
) -> bool {
    match r {
        Ok(i) => {
            &&& source_error(base, prepare, pre.packages@) is None
            &&& i == pre.sources@.len()
            &&& post.sources@.len() == i + 1
            &&& post.sources@.drop_last() == pre.sources@
            &&& source_matches(post.sources@[i as int], base, patches, prepare, pre.packages@)
        },
        Err(e) => {
            &&& source_error(base, prepare, pre.packages@) == Some(e)
            &&& post == pre
        },
    }
}

/// An accepted source keeps exactly the patches it was given, all of them, in
/// the order given (none when it was given none).
pub proof fn lemma_source_keeps_patches<E>(
    pre: ChariotAppData,
    post: ChariotAppData,
    i: usize,
    base: SourceBaseFields<E>,
    patches: Option<Vec<String>>,
    prepare: Option<PrepareFields<E>>,
)
    requires
        source_defined(pre, post, Ok(i), base, patches, prepare),
    ensures
        patches is Some ==> post.sources@[i as int].patches@ == patches->Some_0@,
        patches is Some ==> post.sources@[i as int].patches@.len() == patches->Some_0@.len(),
        patches is None ==> post.sources@[i as int].patches@.len() == 0,
{
}

/// The outcome of a package definition: either it was accepted, the package was
/// appended and its position returned, or it was refused with the first error
/// and the registry left as it was.
pub open spec fn package_defined<E>(
    pre: ChariotAppData,
    post: ChariotAppData,
    r: Result<usize, ConfigError<E>>,
    f: PackageFields<E>,
) -> bool {
    match r {
        Ok(i) => {
            &&& package_error(f, pre.packages@) is None
            &&& i == pre.packages@.len()
            &&& post.packages@.len() == i + 1
            &&& post.packages@.drop_last() == pre.packages@
            &&& package_matches(post.packages@[i as int], f, pre.packages@)
        },
        Err(e) => {
            &&& package_error(f, pre.packages@) == Some(e)
            &&& post == pre
        },
    }
}

// ---------------------------------------------------------------------------
// Messages
// ---------------------------------------------------------------------------

/// `prefix`, then `quoted`, then `suffix` (the prefix and suffix bring the quotes).
pub open spec fn quoted_text(prefix: Seq<char>, quoted: Seq<char>, suffix: Seq<char>) -> Seq<char> {
    prefix + quoted + suffix
}

/// The message of a refusal that the rules themselves decide: `None` for an
/// unreadable field (whose message is the field's context, see
/// [`ConfigField::context`]) and for an error of the script engine.
pub open spec fn rule_message<E>(e: ConfigError<E>) -> Option<Seq<char>> {
    match e {
        ConfigError::Field { .. } => None,
        ConfigError::Lua(_) => None,
        ConfigError::InvalidArchiveKind(k) => Some(
            quoted_text("invalid archive kind `"@, k@, "`"@),
        ),
        ConfigError::InvalidArchiveCompression(c) => Some(
            quoted_text("invalid archive compression `"@, c@, "`"@),
        ),
        ConfigError::InvalidBaseType(t) => Some(quoted_text("invalid base type `"@, t@, "`"@)),
        ConfigError::UnnamedSourceDependency => Some(
            "source dependencies must be named (bound to a key)"@,
        ),
        ConfigError::InvalidDependency(d) => Some(quoted_text("invalid dependency `"@, d@, "`"@)),
        ConfigError::InvalidPlatform => Some("`platform` must be \"host\" or \"target\""@),
        ConfigError::DuplicatePackage(n) => Some(
            quoted_text("a package with the name `"@, n@, "` already exists"@),
        ),
        ConfigError::InvalidRuntimeDependency(d) => Some(
            quoted_text("invalid runtime dependency `"@, d@, "`"@),
        ),
    }
}

/// `prefix`, then `quoted`, then `suffix`, as one string.
fn quote(prefix: &str, quoted: &String, suffix: &str) -> (s: String)
    ensures
        s@ == quoted_text(prefix@, quoted@, suffix@),
{
    let mut s = String::from_str(prefix);
    s.append(quoted.as_str());
    s.append(suffix);
    s
}

impl<E> ConfigError<E> {
    /// The message of a refusal that the rules themselves decide.
    pub fn rule_message(&self) -> (m: Option<String>)
        ensures
            match m {
                Some(s) => rule_message(*self) == Some(s@),
                None => rule_message(*self) is None,
            },
    {
        match self {
            ConfigError::Field { .. } => None,
            ConfigError::Lua(_) => None,
            ConfigError::InvalidArchiveKind(k) => Some(quote("invalid archive kind `", k, "`")),
            ConfigError::InvalidArchiveCompression(c) => Some(
                quote("invalid archive compression `", c, "`"),
            ),
            ConfigError::InvalidBaseType(t) => Some(quote("invalid base type `", t, "`")),
            ConfigError::UnnamedSourceDependency => Some(
                String::from_str("source dependencies must be named (bound to a key)"),
            ),
            ConfigError::InvalidDependency(d) => Some(quote("invalid dependency `", d, "`")),
            ConfigError::InvalidPlatform => Some(
                String::from_str("`platform` must be \"host\" or \"target\""),
            ),
            ConfigError::DuplicatePackage(n) => Some(
                quote("a package with the name `", n, "` already exists"),
            ),
            ConfigError::InvalidRuntimeDependency(d) => Some(
                quote("invalid runtime dependency `", d, "`"),
            ),
        }
    }
}

// ---------------------------------------------------------------------------
// Laws
// ---------------------------------------------------------------------------

/// The name of a native package that an entry binds, if it binds one.
pub open spec fn native_name<E>(e: Result<DependencyEntry<E>, E>) -> Option<Seq<char>> {
    match e {
        Ok(entry) => match entry.value {
            DependencyValue::Native(n) => Some(n@),
            _ => None,
        },
        Err(_) => None,
    }
}

/// The name under which an entry binds a source, if it binds one.
pub open spec fn source_key<E>(e: Result<DependencyEntry<E>, E>) -> Option<Seq<char>> {
    match e {
        Ok(entry) => match (entry.key, entry.value) {
            (Some(k), DependencyValue::SourceRef(_)) => Some(k@),
            _ => None,
        },
        Err(_) => None,
    }
}

/// An entry that an accepted dependency table may hold: a named source, a
/// package, or a string.
pub open spec fn acceptable_entry<E>(e: Result<DependencyEntry<E>, E>) -> bool {
    match e {
        Ok(entry) => match entry.value {
            DependencyValue::SourceRef(_) => entry.key is Some,
            DependencyValue::PackageRef(_) => true,
            DependencyValue::Native(_) => true,
            DependencyValue::Other(_) => false,
        },
        Err(_) => false,
    }
}

/// A dependency table is accepted exactly when each of its entries is a named
/// source, a package or a string. Then its tools are host packages, its
/// packages are target packages, its native names are the strings of the
/// table, and its source names are the keys of the sources of the table.
pub proof fn lemma_accepted_dependencies<E>(
    entries: Seq<Result<DependencyEntry<E>, E>>,
    packages: Seq<Package>,
)
    ensures
        parse_dependencies(entries, packages) is Ok <==> forall|i: int|
            0 <= i < entries.len() ==> acceptable_entry(#[trigger] entries[i]),
        parse_dependencies(entries, packages) is Ok ==> {
            let d = parse_dependencies(entries, packages)->Ok_0;
            &&& forall|k: int|
                0 <= k < d.tools.len() ==> packages[#[trigger] d.tools[k] as int].platform
                    == PackagePlatform::Host
            &&& forall|k: int|
                0 <= k < d.packages.len() ==> packages[#[trigger] d.packages[k] as int].platform
                    == PackagePlatform::Target
            &&& forall|n: Seq<char>|
                #[trigger] d.native.contains(n) <==> exists|i: int|
                    0 <= i < entries.len() && native_name(entries[i]) == Some(n)
            &&& forall|n: Seq<char>|
                #[trigger] d.sources.dom().contains(n) <==> exists|i: int|
                    0 <= i < entries.len() && source_key(entries[i]) == Some(n)
        },
    decreases entries.len(),
{
    if entries.len() > 0 {
        let p = entries.drop_last();
        let last = entries.last();
        lemma_accepted_dependencies(p, packages);
        assert forall|i: int| 0 <= i < p.len() implies #[trigger] p[i] == entries[i] by {}
        if parse_dependencies(p, packages) is Ok {
            let d0 = parse_dependencies(p, packages)->Ok_0;
            if parse_dependencies(entries, packages) is Ok {
                let d = parse_dependencies(entries, packages)->Ok_0;
                assert(acceptable_entry(entries[entries.len() - 1]));
                assert forall|i: int| 0 <= i < entries.len() implies acceptable_entry(
                    #[trigger] entries[i],
                ) by {
                    if i < p.len() {
                        assert(acceptable_entry(p[i]));
                    }
                }
                assert forall|n: Seq<char>| #[trigger] d.native.contains(n) <==> exists|i: int|
                    0 <= i < entries.len() && native_name(entries[i]) == Some(n) by {
                    if d.native.contains(n) {
                        if d0.native.contains(n) {
                            let i = choose|i: int| 0 <= i < p.len() && native_name(p[i]) == Some(n);
                            assert(native_name(entries[i]) == Some(n));
                        } else {
                            assert(native_name(entries[entries.len() - 1]) == Some(n));
                        }
                    }
                    if exists|i: int| 0 <= i < entries.len() && native_name(entries[i]) == Some(n) {
                        let i = choose|i: int|
                            0 <= i < entries.len() && native_name(entries[i]) == Some(n);
                        if i < p.len() {
                            assert(native_name(p[i]) == Some(n));
                            assert(d0.native.contains(n));
                        }
                    }
                }
                assert forall|n: Seq<char>| #[trigger] d.sources.dom().contains(n) <==> exists|i: int|
                    0 <= i < entries.len() && source_key(entries[i]) == Some(n) by {
                    if d.sources.dom().contains(n) {
                        if d0.sources.dom().contains(n) {
                            let i = choose|i: int| 0 <= i < p.len() && source_key(p[i]) == Some(n);
                            assert(source_key(entries[i]) == Some(n));
                        } else {
                            assert(source_key(entries[entries.len() - 1]) == Some(n));
                        }
                    }
                    if exists|i: int| 0 <= i < entries.len() && source_key(entries[i]) == Some(n) {
                        let i = choose|i: int|
                            0 <= i < entries.len() && source_key(entries[i]) == Some(n);
                        if i < p.len() {
                            assert(source_key(p[i]) == Some(n));
                            assert(d0.sources.dom().contains(n));
                        }
                    }
                }
                assert forall|k: int| 0 <= k < d.tools.len() implies packages[#[trigger] d.tools[k] as int].platform
                    == PackagePlatform::Host by {
                    if k < d0.tools.len() {
                        assert(d.tools[k] == d0.tools[k]);
                    }
                }
                assert forall|k: int| 0 <= k < d.packages.len() implies packages[#[trigger] d.packages[k] as int].platform
                    == PackagePlatform::Target by {
                    if k < d0.packages.len() {
                        assert(d.packages[k] == d0.packages[k]);
                    }
                }
            } else {
                assert(!acceptable_entry(entries[entries.len() - 1]));
            }
        } else {
            let i = choose|i: int| 0 <= i < p.len() && !acceptable_entry(#[trigger] p[i]);
            assert(!acceptable_entry(entries[i]));
        }
    }
}

/// The package an entry of a dependency table refers to, when it refers to a
/// package of `platform`.
pub open spec fn package_ref_on<E>(
    e: Result<DependencyEntry<E>, E>,
    packages: Seq<Package>,
    platform: PackagePlatform,
) -> Option<usize> {
    match e {
        Ok(entry) => match entry.value {
            DependencyValue::PackageRef(id) => if packages[id as int].platform == platform {
                Some(id)
            } else {
                None
            },
            _ => None,
        },
        Err(_) => None,
    }
}

/// Why an entry that an accepted dependency table may not hold is refused:
/// the error met reading it, a source bound to no name, or its text.
pub open spec fn dependency_entry_error<E>(e: Result<DependencyEntry<E>, E>) -> ConfigError<E> {
    match e {
        Err(err) => ConfigError::Lua(err),
        Ok(entry) => match entry.value {
            DependencyValue::Other(Ok(text)) => ConfigError::InvalidDependency(text),
            DependencyValue::Other(Err(err)) => ConfigError::Lua(err),
            _ => ConfigError::UnnamedSourceDependency,
        },
    }
}

/// A dependency table is refused for its first entry that is not a named
/// source, a package or a string, whatever follows it.
pub proof fn lemma_dependencies_first_bad_entry<E>(
    entries: Seq<Result<DependencyEntry<E>, E>>,
    packages: Seq<Package>,
    i: int,
)
    requires
        0 <= i < entries.len(),
        !acceptable_entry(entries[i]),
        forall|j: int| 0 <= j < i ==> acceptable_entry(#[trigger] entries[j]),
    ensures
        parse_dependencies(entries, packages) == Err::<DependenciesModel, ConfigError<E>>(
            dependency_entry_error(entries[i]),
        ),
{
    let t = entries.take(i + 1);
    assert(t.drop_last() =~= entries.take(i));
    assert forall|j: int| 0 <= j < i implies acceptable_entry(#[trigger] entries.take(i)[j]) by {
        assert(entries.take(i)[j] == entries[j]);
    }
    lemma_accepted_dependencies(entries.take(i), packages);
    assert(t.last() == entries[i]);
    lemma_parse_error_persists(entries, packages, i + 1);
}

/// Every package of an accepted dependency table is kept: its tools are
/// exactly the host packages the table refers to, and its packages exactly
/// the target packages, each in the order of the table, repeats included.
pub proof fn lemma_dependency_packages_kept<E>(
    entries: Seq<Result<DependencyEntry<E>, E>>,
    packages: Seq<Package>,
)
    requires
        parse_dependencies(entries, packages) is Ok,
    ensures
        parse_dependencies(entries, packages)->Ok_0.tools == entries.filter_map(
            |e: Result<DependencyEntry<E>, E>| package_ref_on(e, packages, PackagePlatform::Host),
        ),
        parse_dependencies(entries, packages)->Ok_0.packages == entries.filter_map(
            |e: Result<DependencyEntry<E>, E>| package_ref_on(e, packages, PackagePlatform::Target),
        ),
    decreases entries.len(),
{
    let fh = |e: Result<DependencyEntry<E>, E>| package_ref_on(e, packages, PackagePlatform::Host);
    let ft = |e: Result<DependencyEntry<E>, E>| package_ref_on(e, packages, PackagePlatform::Target);
    if entries.len() > 0 {
        let p = entries.drop_last();
        lemma_dependency_packages_kept(p, packages);
        let d0 = parse_dependencies(p, packages)->Ok_0;
        let d = parse_dependencies(entries, packages)->Ok_0;
        assert(entries.filter_map(fh) == match fh(entries.last()) {
            Some(x) => p.filter_map(fh) + seq![x],
            None => p.filter_map(fh),
        });
        assert(entries.filter_map(ft) == match ft(entries.last()) {
            Some(x) => p.filter_map(ft) + seq![x],
            None => p.filter_map(ft),
        });
        match entries.last() {
            Ok(entry) => match entry.value {
                DependencyValue::PackageRef(id) => {
                    if packages[id as int].platform == PackagePlatform::Host {
                        assert(d.tools =~= d0.tools + seq![id]);
                        assert(d.packages == d0.packages);
                    } else {
                        assert(d.packages =~= d0.packages + seq![id]);
                        assert(d.tools == d0.tools);
                    }
                },
                _ => {},
            },
            Err(_) => {},
        }
    }
}

/// The source an entry binds, when it binds one under a name.
pub open spec fn bound_source<E>(e: Result<DependencyEntry<E>, E>) -> Option<usize> {
    match e {
        Ok(entry) => match (entry.key, entry.value) {
            (Some(_), DependencyValue::SourceRef(id)) => Some(id),
            _ => None,
        },
        Err(_) => None,
    }
}

/// In an accepted dependency table, each name is bound to the source of the
/// last entry that binds that name: a later binding replaces an earlier one.
pub proof fn lemma_last_source_binding_wins<E>(
    entries: Seq<Result<DependencyEntry<E>, E>>,
    packages: Seq<Package>,
)
    requires
        parse_dependencies(entries, packages) is Ok,
    ensures
        forall|n: Seq<char>|
            #[trigger] parse_dependencies(entries, packages)->Ok_0.sources.dom().contains(n) ==> exists|
                i: int,
            |
                0 <= i < entries.len() && source_key(entries[i]) == Some(n) && bound_source(
                    entries[i],
                ) == Some(parse_dependencies(entries, packages)->Ok_0.sources[n]) && forall|j: int|
                    i < j < entries.len() ==> source_key(#[trigger] entries[j]) != Some(n),
    decreases entries.len(),
{
    if entries.len() > 0 {
        let p = entries.drop_last();
        let last = entries.len() - 1;
        lemma_last_source_binding_wins(p, packages);
        let d0 = parse_dependencies(p, packages)->Ok_0;
        let d = parse_dependencies(entries, packages)->Ok_0;
        assert forall|i: int| 0 <= i < p.len() implies #[trigger] p[i] == entries[i] by {}
        assert forall|n: Seq<char>| #[trigger] d.sources.dom().contains(n) implies exists|i: int|
            0 <= i < entries.len() && source_key(entries[i]) == Some(n) && bound_source(entries[i])
                == Some(d.sources[n]) && forall|j: int|
                i < j < entries.len() ==> source_key(#[trigger] entries[j]) != Some(n) by {
            if source_key(entries[last]) == Some(n) {
                assert(source_key(entries[last]) == Some(n) && bound_source(entries[last]) == Some(
                    d.sources[n],
                ));
            } else {
                assert(d0.sources.dom().contains(n));
                assert(d.sources[n] == d0.sources[n]);
                let i = choose|i: int|
                    0 <= i < p.len() && source_key(p[i]) == Some(n) && bound_source(p[i]) == Some(
                        d0.sources[n],
                    ) && forall|j: int| i < j < p.len() ==> source_key(#[trigger] p[j]) != Some(n);
                assert(source_key(entries[i]) == Some(n));
                assert forall|j: int| i < j < entries.len() implies source_key(#[trigger] entries[j])
                    != Some(n) by {
                    if j < last {
                        assert(source_key(p[j]) != Some(n));
                    }
                }
            }
        }
    }
}

/// An accepted package keeps what it was given: its name, version, revision,
/// the platform its `platform` names, its scripts as bash scripts with the
/// given texts, and no environment variables.
pub proof fn lemma_package_keeps_fields<E>(
    pre: ChariotAppData,
    post: ChariotAppData,
    i: usize,
    f: PackageFields<E>,
)
    requires
        package_defined(pre, post, Ok(i), f),
    ensures
        ({
            let p = post.packages@[i as int];
            &&& p.name == f.name->Ok_0
            &&& p.version == f.version->Ok_0
            &&& p.revision == f.revision->Ok_0
            &&& (f.platform->Ok_0@ == "host"@ ==> p.platform == PackagePlatform::Host)
            &&& (f.platform->Ok_0@ == "target"@ ==> p.platform == PackagePlatform::Target)
            &&& p.install.language == ScriptLanguage::Bash
            &&& p.install.code == f.install->Ok_0
            &&& (f.configure->Ok_0 is None <==> p.configure is None)
            &&& (f.configure->Ok_0 is Some ==> p.configure->Some_0.code == f.configure->Ok_0->Some_0)
            &&& (f.build->Ok_0 is None <==> p.build is None)
            &&& (f.build->Ok_0 is Some ==> p.build->Some_0.code == f.build->Ok_0->Some_0)
            &&& p.environment_variables@.len() == 0
        }),
        f.platform is Ok && f.name is Ok && f.version is Ok && f.revision is Ok && f.install is Ok,
        i == pre.packages@.len(),
        post.packages@.len() == pre.packages@.len() + 1,
        forall|j: int| 0 <= j < i ==> post.packages@[j] == pre.packages@[j],
        f.runtime_dependencies is Ok,
        ({
            let entries = f.runtime_dependencies->Ok_0@;
            let p = post.packages@[i as int];
            &&& p.runtime_dependencies@.len() == entries.len()
            &&& forall|k: int|
                0 <= k < entries.len() ==> runtime_entry_is(
                    #[trigger] entries[k],
                    p.runtime_dependencies@[k],
                    p.platform,
                    pre.packages@,
                )
        }),
        f.dependencies is Ok,
        ({
            let entries = f.dependencies->Ok_0@;
            let d = post.packages@[i as int].dependencies;
            let pk = pre.packages@;
            &&& d.tools@ == entries.filter_map(
                |e: Result<DependencyEntry<E>, E>| package_ref_on(e, pk, PackagePlatform::Host),
            )
            &&& d.packages@ == entries.filter_map(
                |e: Result<DependencyEntry<E>, E>| package_ref_on(e, pk, PackagePlatform::Target),
            )
        }),
{
    let p = post.packages@[i as int];
    assert forall|j: int| 0 <= j < i implies post.packages@[j] == pre.packages@[j] by {
        assert(post.packages@.drop_last()[j] == post.packages@[j]);
    }
    lemma_runtime_one_per_entry(f.runtime_dependencies->Ok_0@, p.platform, pre.packages@);
    lemma_dependency_packages_kept(f.dependencies->Ok_0@, pre.packages@);
    reveal_strlit("host");
    reveal_strlit("target");
    assert("host"@.len() == 4 && "target"@.len() == 6);
    assert(package_matches(p, f, pre.packages@));
}

/// An accepted source base keeps the fields of its kind: an archive its URL and
/// checksum, with kind `tar` and the compression its name says; a git source
/// its URL and revision; a local source its path.
pub proof fn lemma_source_base_keeps_fields<E>(f: SourceBaseFields<E>)
    requires
        source_base_from(f) is Ok,
    ensures
        f.source_type is Ok,
        ({
            let t = f.source_type->Ok_0@;
            match source_base_from(f)->Ok_0 {
                SourceBase::Archive(a) => {
                    &&& t == "archive"@
                    &&& a.url == f.url->Ok_0
                    &&& a.checksum == f.checksum->Ok_0
                    &&& f.kind->Ok_0@ == "tar"@
                    &&& a.kind == ArchiveKind::Tar
                    &&& (f.compression->Ok_0@ == "gz"@ <==> a.compression == ArchiveCompression::Gzip)
                    &&& (f.compression->Ok_0@ == "xz"@ <==> a.compression == ArchiveCompression::Xz)
                    &&& (f.compression->Ok_0@ == "bzip2"@ <==> a.compression
                        == ArchiveCompression::Bzip2)
                },
                SourceBase::Git(g) => {
                    &&& t == "git"@
                    &&& g.url == f.url->Ok_0
                    &&& g.revision == f.revision->Ok_0
                },
                SourceBase::Local(l) => {
                    &&& t == "local"@
                    &&& l.path == f.path->Ok_0
                },
            }
        }),
{
    reveal_strlit("gz");
    reveal_strlit("xz");
    reveal_strlit("bzip2");
    reveal_strlit("archive");
    reveal_strlit("git");
    reveal_strlit("local");
    reveal_strlit("tar");
    assert("archive"@.len() == 7);
    assert("git"@.len() == 3);
    assert("local"@.len() == 5);
    assert("gz"@[0] != "xz"@[0]);
    assert("bzip2"@.len() == 5 && "gz"@.len() == 2 && "xz"@.len() == 2);
}

/// An accepted source is appended to the registry, the sources before it left
/// as they were, and keeps what it was given: its base has the kind that
/// `type` names with the fields of that kind, and it has a `prepare` step
/// exactly when it was given one, whose script is a bash script with the given
/// text and which sets no environment variables.
pub proof fn lemma_source_keeps_fields<E>(
    pre: ChariotAppData,
    post: ChariotAppData,
    i: usize,
    base: SourceBaseFields<E>,
    patches: Option<Vec<String>>,
    prepare: Option<PrepareFields<E>>,
)
    requires
        source_defined(pre, post, Ok(i), base, patches, prepare),
    ensures
        i == pre.sources@.len(),
        post.sources@.len() == pre.sources@.len() + 1,
        forall|j: int| 0 <= j < i ==> post.sources@[j] == pre.sources@[j],
        base.source_type is Ok,
        ({
            let t = base.source_type->Ok_0@;
            match post.sources@[i as int].base {
                SourceBase::Archive(a) => t == "archive"@ && a.url == base.url->Ok_0 && a.checksum
                    == base.checksum->Ok_0,
                SourceBase::Git(g) => t == "git"@ && g.url == base.url->Ok_0 && g.revision
                    == base.revision->Ok_0,
                SourceBase::Local(l) => t == "local"@ && l.path == base.path->Ok_0,
            }
        }),
        prepare is None <==> post.sources@[i as int].prepare is None,
        prepare is Some ==> ({
            let p = post.sources@[i as int].prepare->Some_0;
            &&& prepare->Some_0.script is Ok
            &&& p.script.language == ScriptLanguage::Bash
            &&& p.script.code == prepare->Some_0.script->Ok_0
            &&& p.environment_variables@.len() == 0
        }),
{
    lemma_source_base_keeps_fields(base);
    assert forall|j: int| 0 <= j < i implies post.sources@[j] == pre.sources@[j] by {
        assert(post.sources@.drop_last()[j] == post.sources@[j]);
    }
}

/// A package of a platform can be defined only once: once a definition was
/// accepted, a later definition, readable in full, of a package of the same name
/// for the same platform is refused because that package exists.
pub proof fn lemma_package_defined_once<E>(
    pre: ChariotAppData,
    post: ChariotAppData,
    i: usize,
    f: PackageFields<E>,
    g: PackageFields<E>,
)
    requires
        package_defined(pre, post, Ok(i), f),
        g.platform is Ok,
        g.name is Ok,
        g.version is Ok,
        g.revision is Ok,
        g.dependencies is Ok,
        g.runtime_dependencies is Ok,
        g.configure is Ok,
        g.build is Ok,
        g.install is Ok,
        g.name->Ok_0@ == f.name->Ok_0@,
        platform_named(g.platform->Ok_0@) == platform_named(f.platform->Ok_0@),
    ensures
        package_error(g, post.packages@) == Some(ConfigError::<E>::DuplicatePackage(g.name->Ok_0)),
{
    let p = post.packages@[i as int];
    assert(has_package(post.packages@, g.name->Ok_0@, p.platform));
}

} // verus!
