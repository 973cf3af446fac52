//! The build configuration that evaluating a configuration script produces:
//! sources, packages and the dependencies between them.
//!
//! Sources and packages live in the registry of the configuration (its `sources`
//! and `packages` lists); everything that refers to one refers to it by its
//! position there.
use vstd::prelude::*;

verus! {

/// The container format of a downloadable source archive.
#[derive(Debug, Clone, Copy, PartialEq, Eq, Structural)]
pub enum ArchiveKind {
    Tar,
}

/// The compression applied to a downloadable source archive.
#[derive(Debug, Clone, Copy, PartialEq, Eq, Structural)]
pub enum ArchiveCompression {
    Gzip,
    Xz,
    Bzip2,
}

/// A source fetched as an archive from a URL and checked against a checksum.
#[derive(Debug)]
pub struct Archive {
    pub url: String,
    pub checksum: String,
    pub kind: ArchiveKind,
    pub compression: ArchiveCompression,
}

/// A source checked out from a git repository at a revision.
#[derive(Debug)]
pub struct GitSource {
    pub url: String,
    pub revision: String,
}

/// A source copied from the local file system.
#[derive(Debug)]
pub struct LocalSource {
    pub path: String,
}

/// Where the files of a source come from.
#[derive(Debug)]
pub enum SourceBase {
    Archive(Archive),
    Git(GitSource),
    Local(LocalSource),
}

/// The interpreter that runs a script.
#[derive(Debug, Clone, Copy, PartialEq, Eq, Structural)]
pub enum ScriptLanguage {
    Bash,
}

/// A script: its language and its text.
#[derive(Debug)]
pub struct Script {
    pub language: ScriptLanguage,
    pub code: String,
}

impl Script {
    /// A bash script with the given text.
    pub fn bash(code: String) -> (script: Script)
        ensures
            script.language == ScriptLanguage::Bash,
            script.code == code,
    {
        Script { language: ScriptLanguage::Bash, code }
    }
}

/// A value bound to a name.
#[derive(Debug)]
pub struct Named<V> {
    pub name: String,
    pub value: V,
}

/// An environment variable: its name and its value.
pub type EnvVar = Named<String>;

/// A source bound to a name in a dependency list; the value is the position of
/// the source in the registry.
pub type SourceBinding = Named<usize>;

/// No name is bound twice.
pub open spec fn names_distinct<V>(s: Seq<Named<V>>) -> bool {
    forall|i: int, j: int| 0 <= i < j < s.len() ==> s[i].name@ != s[j].name@
}

/// The map that a list of bindings stands for, later bindings of a name
/// overriding earlier ones.
pub open spec fn named_map<V>(s: Seq<Named<V>>) -> Map<Seq<char>, V>
    decreases s.len(),
{
    if s.len() == 0 {
        Map::empty()
    } else {
        named_map(s.drop_last()).insert(s.last().name@, s.last().value)
    }
}

/// The names a list of distinct bindings binds, and the value each is bound to.
pub proof fn lemma_named_map_distinct<V>(s: Seq<Named<V>>)
    requires
        names_distinct(s),
    ensures
        forall|n: Seq<char>|
            #[trigger] named_map(s).dom().contains(n) <==> exists|i: int|
                0 <= i < s.len() && s[i].name@ == n,
        forall|i: int| 0 <= i < s.len() ==> named_map(s)[#[trigger] s[i].name@] == s[i].value,
    decreases s.len(),
{
    if s.len() > 0 {
        let p = s.drop_last();
        let last = s.last();
        lemma_named_map_distinct(p);
        assert forall|i: int| 0 <= i < p.len() implies #[trigger] p[i] == s[i] by {}
        assert forall|n: Seq<char>|
            named_map(s).dom().contains(n) <==> exists|i: int| 0 <= i < s.len() && s[i].name@ == n by {
            if named_map(s).dom().contains(n) {
                if n != last.name@ {
                    assert(named_map(p).dom().contains(n));
                    let i = choose|i: int| 0 <= i < p.len() && p[i].name@ == n;
                    assert(p[i] == s[i]);
                } else {
                    assert(s[s.len() - 1].name@ == n);
                }
            }
            if exists|i: int| 0 <= i < s.len() && s[i].name@ == n {
                let i = choose|i: int| 0 <= i < s.len() && s[i].name@ == n;
                if i < s.len() - 1 {
                    assert(p[i] == s[i]);
                    assert(named_map(p).dom().contains(n));
                }
            }
        }
        assert forall|i: int| 0 <= i < s.len() implies named_map(s)[#[trigger] s[i].name@]
            == s[i].value by {
            if i < s.len() - 1 {
                assert(p[i] == s[i]);
                assert(s[i].name@ != last.name@);
                assert(named_map(p)[p[i].name@] == p[i].value);
            }
        }
    }
}

/// Binds `name` to `value` in `list`, replacing an earlier binding of `name`.
pub fn set_named<V>(list: &mut Vec<Named<V>>, name: String, value: V)
    requires
        names_distinct(old(list)@),
    ensures
        names_distinct(final(list)@),
        named_map(final(list)@) == named_map(old(list)@).insert(name@, value),
        forall|i: int|
            0 <= i < final(list)@.len() ==> final(list)@[i].value == value || (i < old(
                list,
            )@.len() && final(list)@[i] == old(list)@[i]),
{
    let ghost old_list = list@;
    let mut k: usize = 0;
    while k < list.len()
        invariant
            0 <= k <= list@.len(),
            list@ == old_list,
            old_list == old(list)@,
            names_distinct(old_list),
            forall|j: int| 0 <= j < k ==> list@[j].name@ != name@,
        decreases list@.len() - k,
    {
        if list[k].name == name {
            let ghost v = value;
            let ghost nm = name@;
            list.set(k, Named { name, value });
            proof {
                let s = list@;
                assert(forall|j: int| 0 <= j < s.len() && j != k ==> s[j] == old_list[j]);
                assert(forall|j: int| 0 <= j < s.len() ==> #[trigger] s[j].name@ == old_list[j].name@);
                lemma_named_map_distinct(s);
                lemma_named_map_distinct(old_list);
                let m = named_map(old_list).insert(nm, v);
                assert forall|n: Seq<char>| #![auto] named_map(s).dom().contains(n) <==> m.dom().contains(n) by {
                    if m.dom().contains(n) {
                        if n != nm {
                            assert(named_map(old_list).dom().contains(n));
                            let i = choose|i: int| 0 <= i < old_list.len() && old_list[i].name@ == n;
                            assert(s[i].name@ == n);
                        } else {
                            assert(s[k as int].name@ == n);
                        }
                    }
                    if named_map(s).dom().contains(n) {
                        let i = choose|i: int| 0 <= i < s.len() && s[i].name@ == n;
                        if i != k {
                            assert(old_list[i].name@ == n);
                        }
                    }
                }
                assert forall|n: Seq<char>| #![auto] named_map(s).dom().contains(n) implies named_map(s)[n] == m[n] by {
                    let i = choose|i: int| 0 <= i < s.len() && s[i].name@ == n;
                    if i != k {
                        assert(old_list[i].name@ == n);
                        assert(named_map(old_list)[old_list[i].name@] == old_list[i].value);
                    }
                }
                assert(named_map(s) =~= m);
            }
            return;
        }
        k = k + 1;
    }
    list.push(Named { name, value });
    proof {
        let s = list@;
        assert(s.drop_last() =~= old_list);
    }
}

/// The variables a list of environment variables sets, with their values.
pub open spec fn env_map(s: Seq<EnvVar>) -> Map<Seq<char>, Seq<char>> {
    named_map(s).map_values(|v: String| v@)
}

/// Setting a variable sets it in the variables' map.
pub proof fn lemma_env_map_insert(m: Map<Seq<char>, String>, name: Seq<char>, value: String)
    ensures
        m.insert(name, value).map_values(|v: String| v@) == m.map_values(|v: String| v@).insert(
            name,
            value@,
        ),
{
    assert(m.insert(name, value).map_values(|v: String| v@) =~= m.map_values(|v: String| v@).insert(
        name,
        value@,
    ));
}

/// What a script needs before it runs: named sources, host tools, target
/// packages and native (system) packages.
#[derive(Debug)]
pub struct Dependencies {
    /// Sources by name; no name occurs twice.
    pub sources: Vec<SourceBinding>,
    /// Host packages, by position in the registry.
    pub tools: Vec<usize>,
    /// Target packages, by position in the registry.
    pub packages: Vec<usize>,
    /// Native package names; no name occurs twice.
    pub native: Vec<String>,
}

/// The abstract value of a dependency list.
pub struct DependenciesModel {
    pub sources: Map<Seq<char>, usize>,
    pub tools: Seq<usize>,
    pub packages: Seq<usize>,
    pub native: Set<Seq<char>>,
}

impl DependenciesModel {
    pub open spec fn empty() -> DependenciesModel {
        DependenciesModel {
            sources: Map::empty(),
            tools: Seq::empty(),
            packages: Seq::empty(),
            native: Set::empty(),
        }
    }
}

/// The set of names that a list of strings holds.
pub open spec fn name_set(s: Seq<String>) -> Set<Seq<char>> {
    Set::new(|n: Seq<char>| exists|i: int| 0 <= i < s.len() && s[i]@ == n)
}

impl Dependencies {
    /// No source name and no native name occurs twice.
    pub open spec fn wf(&self) -> bool {
        &&& names_distinct(self.sources@)
        &&& forall|i: int, j: int|
            0 <= i < j < self.native@.len() ==> self.native@[i]@ != self.native@[j]@
    }

    pub open spec fn model(&self) -> DependenciesModel {
        DependenciesModel {
            sources: named_map(self.sources@),
            tools: self.tools@,
            packages: self.packages@,
            native: name_set(self.native@),
        }
    }

    /// Every source and package it names lies within registries of the given sizes.
    pub open spec fn refers_within(&self, n_sources: nat, n_packages: nat) -> bool {
        &&& forall|i: int| 0 <= i < self.sources@.len() ==> self.sources@[i].value < n_sources
        &&& forall|i: int| 0 <= i < self.tools@.len() ==> self.tools@[i] < n_packages
        &&& forall|i: int| 0 <= i < self.packages@.len() ==> self.packages@[i] < n_packages
    }

    /// An empty dependency list.
    pub fn new() -> (d: Dependencies)
        ensures
            d.wf(),
            d.model() == DependenciesModel::empty(),
            d.refers_within(0, 0),
    {
        let d = Dependencies {
            sources: Vec::new(),
            tools: Vec::new(),
            packages: Vec::new(),
            native: Vec::new(),
        };
        assert(named_map(d.sources@) =~= Map::empty());
        assert(name_set(d.native@) =~= Set::empty());
        d
    }
}

/// Which machine a package is built for.
#[derive(Debug, Clone, Copy, PartialEq, Eq, Structural)]
pub enum PackagePlatform {
    /// Built to run on the build machine (a tool).
    Host,
    /// Built for the target system.
    Target,
}

/// How a source is prepared after it has been fetched and patched.
#[derive(Debug)]
pub struct SourcePrepare {
    pub environment_variables: Vec<EnvVar>,
    pub dependencies: Dependencies,
    pub script: Script,
}

/// A source: where it comes from, the patches applied to it, and how it is
/// prepared.
#[derive(Debug)]
pub struct Source {
    pub base: SourceBase,
    pub patches: Vec<String>,
    pub prepare: Option<SourcePrepare>,
}

/// A package: what it is, what it needs, and the scripts that build it.
#[derive(Debug)]
pub struct Package {
    pub platform: PackagePlatform,
    pub name: String,
    pub version: String,
    pub revision: usize,
    pub dependencies: Dependencies,
    /// Packages needed at run time, by position in the registry.
    pub runtime_dependencies: Vec<usize>,
    pub environment_variables: Vec<EnvVar>,
    pub configure: Option<Script>,
    pub build: Option<Script>,
    pub install: Script,
}

/// The environment shared by every source and package of a configuration.
#[derive(Debug)]
pub struct GlobalEnvironment {
    pub target_prefix: String,
    pub target_arch: String,
    pub global_environment_variables: Vec<EnvVar>,
}

/// An evaluated configuration.
#[derive(Debug)]
pub struct Config {
    pub global_env: GlobalEnvironment,
    pub packages: Vec<Package>,
    pub sources: Vec<Source>,
}

} // verus!
