//! Fetching a source into the store: the base, then the patched tree (when the
//! source has patches), then the prepared tree (when it has a `prepare` step).
//! Each stage is looked up in the store by its hash first and built only when
//! it is missing.
//!
//! The store, the fetchers and the container runtime are outside this crate.
//! [`SourceFetch`] holds the decisions: it is told what each request answered
//! ([`FetchEvent`]) and says what to do next ([`FetchAction`]).
use vstd::prelude::*;
use crate::config::{
    EnvVar, Script, ScriptLanguage, Source, SourceBase, env_map, lemma_env_map_insert,
    named_map, names_distinct, set_named,
};
use crate::local::{FileSystemError, LocalFetchError};

verus! {

/// An error of the container runtime.
#[derive(Debug)]
pub struct RuntimeError {
    pub message: String,
}

/// An error met while resolving the dependencies of a `prepare` step.
#[derive(Debug)]
pub struct ResolveDependenciesError {
    pub message: String,
}

/// An error met while fetching an archive.
#[derive(Debug)]
pub struct ArchiveFetchError {
    pub message: String,
}

/// An error met while fetching a git repository.
#[derive(Debug)]
pub struct GitFetchError {
    pub message: String,
}

/// Why fetching a source failed.
#[derive(Debug)]
pub enum SourceFetchError {
    FileSystem(FileSystemError),
    Runtime(RuntimeError),
    ResolveDependencies(Box<ResolveDependenciesError>),
    Archive(ArchiveFetchError),
    Git(GitFetchError),
    Local(LocalFetchError),
    /// A patch did not apply: `patch` exited with a status other than 0.
    Patch,
    /// The `prepare` script exited with a status other than 0.
    Prepare,
}

/// The three kinds of store entry a source is made of.
#[derive(Debug, Clone, Copy, PartialEq, Eq, Structural)]
pub enum StoreKind {
    Base,
    Patch,
    Prepare,
}

impl StoreKind {
    /// The name under which entries of this kind are kept in the store.
    pub fn name(&self) -> (s: &'static str)
        ensures
            s@ == store_kind_name(*self),
    {
        match self {
            StoreKind::Base => "source.base",
            StoreKind::Patch => "source.patch",
            StoreKind::Prepare => "source.prepare",
        }
    }
}

/// The name under which entries of a kind are kept in the store.
pub open spec fn store_kind_name(k: StoreKind) -> Seq<char> {
    match k {
        StoreKind::Base => "source.base"@,
        StoreKind::Patch => "source.patch"@,
        StoreKind::Prepare => "source.prepare"@,
    }
}

/// Where the base of a source is fetched from.
#[derive(Debug, Clone, Copy, PartialEq, Eq, Structural)]
pub enum BaseKind {
    Archive,
    Git,
    Local,
}

/// Where a source base is fetched from.
pub open spec fn base_kind_of(b: SourceBase) -> BaseKind {
    match b {
        SourceBase::Archive(_) => BaseKind::Archive,
        SourceBase::Git(_) => BaseKind::Git,
        SourceBase::Local(_) => BaseKind::Local,
    }
}

/// The hashes that name the three store entries of a source.
#[derive(Debug)]
pub struct SourceHashes {
    pub base: String,
    pub patch: String,
    pub prepare: String,
}

/// Where a fetch stands.
#[derive(Debug, Clone, Copy, PartialEq, Eq, Structural)]
pub enum FetchStage {
    LookupBase,
    FetchBase,
    StoreBase,
    LookupPatch,
    CreatePatchDirectories,
    /// Applying the patch at this position.
    ApplyPatch(usize),
    StorePatch,
    ResolveDependencies,
    LookupPrepare,
    CreatePrepareDirectories,
    RunPrepare,
    StorePrepare,
    Done,
    Failed,
}

/// What to do next.
#[derive(Debug)]
pub enum FetchAction {
    /// Look the entry of this kind and hash up in the store.
    LookupStore { kind: StoreKind, hash: String },
    /// Fetch the base of the source into a fresh work directory.
    FetchBase(BaseKind),
    /// Create a work directory and an overlay work directory.
    CreateWorkDirectories,
    /// Apply the patch at this position on top of the store entries so far, in
    /// the work directories.
    ApplyPatch { index: usize },
    /// Resolve the dependencies of the `prepare` step.
    ResolveDependencies,
    /// Run the `prepare` script on top of the store entries so far, in the work
    /// directories.
    RunPrepare,
    /// Turn the work directory into a store entry of this kind and hash.
    StoreWorkDirectory { kind: StoreKind, hash: String },
    /// Done: the store entries are the result.
    Finish,
    /// Failed with this error.
    Fail(SourceFetchError),
}

/// What the last request answered.
#[derive(Debug)]
pub enum FetchEvent<T> {
    /// The store holds the entry.
    Found(T),
    /// The store does not hold the entry.
    NotFound,
    /// The base was fetched into a work directory.
    Fetched,
    /// The work directories were created.
    WorkDirectoriesCreated,
    /// The patch or the `prepare` script exited with this status.
    Exited(i32),
    /// The dependencies of the `prepare` step were resolved.
    DependenciesResolved,
    /// The work directory became this store entry.
    Stored(T),
    /// The request failed with this error.
    Failed(SourceFetchError),
}

/// The decisions of fetching one source; `T` is a store entry.
pub struct SourceFetch<T> {
    pub stage: FetchStage,
    pub entries: Vec<T>,
    pub base: BaseKind,
    pub patch_count: usize,
    pub has_prepare: bool,
    pub hashes: SourceHashes,
}

/// The abstract state of a fetch: where it stands, the store entries so far,
/// and what it was started with.
pub struct FetchView<T> {
    pub stage: FetchStage,
    pub entries: Seq<T>,
    pub base: BaseKind,
    pub patch_count: usize,
    pub has_prepare: bool,
    pub hashes: SourceHashes,
}

impl<T> View for SourceFetch<T> {
    type V = FetchView<T>;

    open spec fn view(&self) -> FetchView<T> {
        FetchView {
            stage: self.stage,
            entries: self.entries@,
            base: self.base,
            patch_count: self.patch_count,
            has_prepare: self.has_prepare,
            hashes: self.hashes,
        }
    }
}

/// The number of store entries a finished fetch yields: the base, the patched
/// tree when there are patches, the prepared tree when there is a `prepare` step.
pub open spec fn expected_entries(patch_count: nat, has_prepare: bool) -> nat {
    1 + (if patch_count > 0 {
        1nat
    } else {
        0nat
    }) + (if has_prepare {
        1nat
    } else {
        0nat
    })
}

/// The stage and action that follow a finished base.
pub open spec fn after_base<T>(m: FetchView<T>) -> (FetchStage, FetchAction) {
    if m.patch_count > 0 {
        (FetchStage::LookupPatch, FetchAction::LookupStore { kind: StoreKind::Patch, hash: m.hashes.patch })
    } else {
        after_patch(m)
    }
}

/// The stage and action that follow a finished patched tree (or a base without patches).
pub open spec fn after_patch<T>(m: FetchView<T>) -> (FetchStage, FetchAction) {
    if m.has_prepare {
        (FetchStage::ResolveDependencies, FetchAction::ResolveDependencies)
    } else {
        (FetchStage::Done, FetchAction::Finish)
    }
}

/// The event answers the request of the stage.
pub open spec fn answers<T>(stage: FetchStage, e: FetchEvent<T>) -> bool {
    match e {
        FetchEvent::Failed(_) => stage != FetchStage::Done && stage != FetchStage::Failed,
        FetchEvent::Found(_) | FetchEvent::NotFound => stage == FetchStage::LookupBase || stage
            == FetchStage::LookupPatch || stage == FetchStage::LookupPrepare,
        FetchEvent::Fetched => stage == FetchStage::FetchBase,
        FetchEvent::WorkDirectoriesCreated => stage == FetchStage::CreatePatchDirectories || stage
            == FetchStage::CreatePrepareDirectories,
        FetchEvent::Exited(_) => stage is ApplyPatch || stage == FetchStage::RunPrepare,
        FetchEvent::DependenciesResolved => stage == FetchStage::ResolveDependencies,
        FetchEvent::Stored(_) => stage == FetchStage::StoreBase || stage == FetchStage::StorePatch
            || stage == FetchStage::StorePrepare,
    }
}

/// The stage, store entries and action that an answer leads to.
pub open spec fn next<T>(m: FetchView<T>, e: FetchEvent<T>) -> (FetchStage, Seq<T>, FetchAction) {
    let entries = m.entries;
    match e {
        FetchEvent::Failed(err) => (FetchStage::Failed, entries, FetchAction::Fail(err)),
        FetchEvent::Found(t) | FetchEvent::Stored(t) => {
            let (stage, action) = if m.stage == FetchStage::LookupBase || m.stage
                == FetchStage::StoreBase {
                after_base(m)
            } else if m.stage == FetchStage::LookupPatch || m.stage == FetchStage::StorePatch {
                after_patch(m)
            } else {
                (FetchStage::Done, FetchAction::Finish)
            };
            (stage, entries.push(t), action)
        },
        FetchEvent::NotFound => if m.stage == FetchStage::LookupBase {
            (FetchStage::FetchBase, entries, FetchAction::FetchBase(m.base))
        } else if m.stage == FetchStage::LookupPatch {
            (FetchStage::CreatePatchDirectories, entries, FetchAction::CreateWorkDirectories)
        } else {
            (FetchStage::CreatePrepareDirectories, entries, FetchAction::CreateWorkDirectories)
        },
        FetchEvent::Fetched => (
            FetchStage::StoreBase,
            entries,
            FetchAction::StoreWorkDirectory { kind: StoreKind::Base, hash: m.hashes.base },
        ),
        FetchEvent::WorkDirectoriesCreated => if m.stage == FetchStage::CreatePatchDirectories {
            (FetchStage::ApplyPatch(0), entries, FetchAction::ApplyPatch { index: 0 })
        } else {
            (FetchStage::RunPrepare, entries, FetchAction::RunPrepare)
        },
        FetchEvent::Exited(code) => match m.stage {
            FetchStage::ApplyPatch(i) => if code != 0 {
                (FetchStage::Failed, entries, FetchAction::Fail(SourceFetchError::Patch))
            } else if i + 1 < m.patch_count {
                (
                    FetchStage::ApplyPatch((i + 1) as usize),
                    entries,
                    FetchAction::ApplyPatch { index: (i + 1) as usize },
                )
            } else {
                (
                    FetchStage::StorePatch,
                    entries,
                    FetchAction::StoreWorkDirectory { kind: StoreKind::Patch, hash: m.hashes.patch },
                )
            },
            _ => if code != 0 {
                (FetchStage::Failed, entries, FetchAction::Fail(SourceFetchError::Prepare))
            } else {
                (
                    FetchStage::StorePrepare,
                    entries,
                    FetchAction::StoreWorkDirectory {
                        kind: StoreKind::Prepare,
                        hash: m.hashes.prepare,
                    },
                )
            },
        },
        FetchEvent::DependenciesResolved => (
            FetchStage::LookupPrepare,
            entries,
            FetchAction::LookupStore { kind: StoreKind::Prepare, hash: m.hashes.prepare },
        ),
    }
}

impl<T> SourceFetch<T> {
    /// The number of store entries matches the stage.
    pub open spec fn wf(&self) -> bool {
        let n = self.entries@.len();
        match self.stage {
            FetchStage::LookupBase | FetchStage::FetchBase | FetchStage::StoreBase => n == 0,
            FetchStage::LookupPatch
            | FetchStage::CreatePatchDirectories
            | FetchStage::StorePatch => n == 1 && self.patch_count > 0,
            FetchStage::ApplyPatch(i) => n == 1 && i < self.patch_count,
            FetchStage::ResolveDependencies
            | FetchStage::LookupPrepare
            | FetchStage::CreatePrepareDirectories
            | FetchStage::RunPrepare
            | FetchStage::StorePrepare => self.has_prepare && n == 1 + (if self.patch_count > 0 {
                1nat
            } else {
                0nat
            }),
            FetchStage::Done => n == expected_entries(self.patch_count as nat, self.has_prepare),
            FetchStage::Failed => true,
        }
    }

    /// Starts fetching `source`, whose store entries are named by `hashes`.
    pub fn new(source: &Source, hashes: SourceHashes) -> (m: SourceFetch<T>)
        ensures
            m.wf(),
            m.stage == FetchStage::LookupBase,
            m.entries@.len() == 0,
            m.base == base_kind_of(source.base),
            m.patch_count == source.patches@.len(),
            m.has_prepare == source.prepare is Some,
            m.hashes == hashes,
    {
        let base = match &source.base {
            SourceBase::Archive(_) => BaseKind::Archive,
            SourceBase::Git(_) => BaseKind::Git,
            SourceBase::Local(_) => BaseKind::Local,
        };
        SourceFetch {
            stage: FetchStage::LookupBase,
            entries: Vec::new(),
            base,
            patch_count: source.patches.len(),
            has_prepare: source.prepare.is_some(),
            hashes,
        }
    }

    /// The first request: look the base up in the store.
    pub fn start(&self) -> (a: FetchAction)
        requires
            self.stage == FetchStage::LookupBase,
        ensures
            a == (FetchAction::LookupStore { kind: StoreKind::Base, hash: self.hashes.base }),
    {
        FetchAction::LookupStore { kind: StoreKind::Base, hash: self.hashes.base.clone() }
    }

    /// Whether `e` answers the pending request.
    pub fn accepts(&self, e: &FetchEvent<T>) -> (b: bool)
        ensures
            b == answers(self.stage, *e),
    {
        match e {
            FetchEvent::Failed(_) => self.stage != FetchStage::Done && self.stage
                != FetchStage::Failed,
            FetchEvent::Found(_) | FetchEvent::NotFound => self.stage == FetchStage::LookupBase
                || self.stage == FetchStage::LookupPatch || self.stage
                == FetchStage::LookupPrepare,
            FetchEvent::Fetched => self.stage == FetchStage::FetchBase,
            FetchEvent::WorkDirectoriesCreated => self.stage == FetchStage::CreatePatchDirectories
                || self.stage == FetchStage::CreatePrepareDirectories,
            FetchEvent::Exited(_) => match self.stage {
                FetchStage::ApplyPatch(_) => true,
                FetchStage::RunPrepare => true,
                _ => false,
            },
            FetchEvent::DependenciesResolved => self.stage == FetchStage::ResolveDependencies,
            FetchEvent::Stored(_) => self.stage == FetchStage::StoreBase || self.stage
                == FetchStage::StorePatch || self.stage == FetchStage::StorePrepare,
        }
    }

    fn finish_base(&mut self) -> (a: FetchAction)
        ensures
            (final(self).stage, a) == after_base(old(self)@),
            final(self).entries == old(self).entries,
            final(self).base == old(self).base,
            final(self).patch_count == old(self).patch_count,
            final(self).has_prepare == old(self).has_prepare,
            final(self).hashes == old(self).hashes,
    {
        if self.patch_count > 0 {
            self.stage = FetchStage::LookupPatch;
            FetchAction::LookupStore { kind: StoreKind::Patch, hash: self.hashes.patch.clone() }
        } else {
            self.finish_patch()
        }
    }

    fn finish_patch(&mut self) -> (a: FetchAction)
        ensures
            (final(self).stage, a) == after_patch(old(self)@),
            final(self).entries == old(self).entries,
            final(self).base == old(self).base,
            final(self).patch_count == old(self).patch_count,
            final(self).has_prepare == old(self).has_prepare,
            final(self).hashes == old(self).hashes,
    {
        if self.has_prepare {
            self.stage = FetchStage::ResolveDependencies;
            FetchAction::ResolveDependencies
        } else {
            self.stage = FetchStage::Done;
            FetchAction::Finish
        }
    }

    /// Takes the answer to the pending request and says what to do next.
    pub fn step(&mut self, e: FetchEvent<T>) -> (a: FetchAction)
        requires
            old(self).wf(),
            answers(old(self).stage, e),
        ensures
            final(self).wf(),
            (final(self).stage, final(self).entries@, a) == next(old(self)@, e),
            match a {
                FetchAction::LookupStore { kind, hash } => hash == hash_of_kind(old(self).hashes, kind),
                FetchAction::StoreWorkDirectory { kind, hash } => hash == hash_of_kind(
                    old(self).hashes,
                    kind,
                ),
                _ => true,
            },
            final(self).base == old(self).base,
            final(self).patch_count == old(self).patch_count,
            final(self).has_prepare == old(self).has_prepare,
            final(self).hashes == old(self).hashes,
    {
        match e {
            FetchEvent::Failed(err) => {
                self.stage = FetchStage::Failed;
                FetchAction::Fail(err)
            },
            FetchEvent::Found(t) => self.record(t),
            FetchEvent::Stored(t) => self.record(t),
            FetchEvent::NotFound => {
                if self.stage == FetchStage::LookupBase {
                    self.stage = FetchStage::FetchBase;
                    FetchAction::FetchBase(self.base)
                } else if self.stage == FetchStage::LookupPatch {
                    self.stage = FetchStage::CreatePatchDirectories;
                    FetchAction::CreateWorkDirectories
                } else {
                    self.stage = FetchStage::CreatePrepareDirectories;
                    FetchAction::CreateWorkDirectories
                }
            },
            FetchEvent::Fetched => {
                self.stage = FetchStage::StoreBase;
                FetchAction::StoreWorkDirectory { kind: StoreKind::Base, hash: self.hashes.base.clone() }
            },
            FetchEvent::WorkDirectoriesCreated => {
                if self.stage == FetchStage::CreatePatchDirectories {
                    self.stage = FetchStage::ApplyPatch(0);
                    FetchAction::ApplyPatch { index: 0 }
                } else {
                    self.stage = FetchStage::RunPrepare;
                    FetchAction::RunPrepare
                }
            },
            FetchEvent::Exited(code) => {
                match self.stage {
                    FetchStage::ApplyPatch(i) => {
                        if code != 0 {
                            self.stage = FetchStage::Failed;
                            FetchAction::Fail(SourceFetchError::Patch)
                        } else if i + 1 < self.patch_count {
                            self.stage = FetchStage::ApplyPatch(i + 1);
                            FetchAction::ApplyPatch { index: i + 1 }
                        } else {
                            self.stage = FetchStage::StorePatch;
                            FetchAction::StoreWorkDirectory {
                                kind: StoreKind::Patch,
                                hash: self.hashes.patch.clone(),
                            }
                        }
                    },
                    _ => {
                        if code != 0 {
                            self.stage = FetchStage::Failed;
                            FetchAction::Fail(SourceFetchError::Prepare)
                        } else {
                            self.stage = FetchStage::StorePrepare;
                            FetchAction::StoreWorkDirectory {
                                kind: StoreKind::Prepare,
                                hash: self.hashes.prepare.clone(),
                            }
                        }
                    },
                }
            },
            FetchEvent::DependenciesResolved => {
                self.stage = FetchStage::LookupPrepare;
                FetchAction::LookupStore { kind: StoreKind::Prepare, hash: self.hashes.prepare.clone() }
            },
        }
    }

    /// Records a store entry that was found or made, and moves past its stage.
    fn record(&mut self, t: T) -> (a: FetchAction)
        requires
            old(self).wf(),
            old(self).stage == FetchStage::LookupBase || old(self).stage == FetchStage::StoreBase
                || old(self).stage == FetchStage::LookupPatch || old(self).stage
                == FetchStage::StorePatch || old(self).stage == FetchStage::LookupPrepare
                || old(self).stage == FetchStage::StorePrepare,
        ensures
            final(self).wf(),
            (final(self).stage, final(self).entries@, a) == next(old(self)@, FetchEvent::Found(t)),
            final(self).base == old(self).base,
            final(self).patch_count == old(self).patch_count,
            final(self).has_prepare == old(self).has_prepare,
            final(self).hashes == old(self).hashes,
    {
        self.entries.push(t);
        if self.stage == FetchStage::LookupBase || self.stage == FetchStage::StoreBase {
            self.finish_base()
        } else if self.stage == FetchStage::LookupPatch || self.stage == FetchStage::StorePatch {
            self.finish_patch()
        } else {
            self.stage = FetchStage::Done;
            FetchAction::Finish
        }
    }

    /// The store entries of a finished fetch.
    pub fn into_entries(self) -> (entries: Vec<T>)
        ensures
            entries@ == self.entries@,
    {
        self.entries
    }
}

/// A finished fetch holds one store entry for the base, one more when the source
/// has patches, and one more when it has a `prepare` step.
pub proof fn lemma_finished_entries<T>(m: SourceFetch<T>)
    requires
        m.wf(),
        m.stage == FetchStage::Done,
    ensures
        m.entries@.len() == expected_entries(m.patch_count as nat, m.has_prepare),
{
}

/// Patches are applied in order: the first patch right after the work
/// directories were made, every later one only after the patch before it
/// exited with status 0.
pub proof fn lemma_patches_in_order<T>(m: SourceFetch<T>, e: FetchEvent<T>, index: usize)
    requires
        m.wf(),
        answers(m.stage, e),
        next(m@, e).2 == (FetchAction::ApplyPatch { index }),
    ensures
        index == 0 ==> m.stage == FetchStage::CreatePatchDirectories && e
            == FetchEvent::<T>::WorkDirectoriesCreated,
        index > 0 ==> m.stage == FetchStage::ApplyPatch((index - 1) as usize) && e
            == FetchEvent::<T>::Exited(0),
{
}

/// A patch or `prepare` script that exits with a status other than 0 fails the
/// fetch with the matching error, and nothing is stored.
pub proof fn lemma_failed_exit<T>(m: SourceFetch<T>, code: i32)
    requires
        m.wf(),
        answers(m.stage, FetchEvent::<T>::Exited(code)),
        code != 0,
    ensures
        next(m@, FetchEvent::Exited(code)).0 == FetchStage::Failed,
        next(m@, FetchEvent::Exited(code)).1 == m.entries@,
        m.stage is ApplyPatch ==> next(m@, FetchEvent::Exited(code)).2 == FetchAction::Fail(
            SourceFetchError::Patch,
        ),
        m.stage == FetchStage::RunPrepare ==> next(m@, FetchEvent::Exited(code)).2
            == FetchAction::Fail(SourceFetchError::Prepare),
{
}

/// The store is only consulted for the `prepare` entry after the dependencies
/// of the `prepare` step were resolved.
pub proof fn lemma_prepare_after_resolve<T>(m: SourceFetch<T>, e: FetchEvent<T>, hash: String)
    requires
        m.wf(),
        answers(m.stage, e),
        next(m@, e).2 == (FetchAction::LookupStore { kind: StoreKind::Prepare, hash }),
    ensures
        m.stage == FetchStage::ResolveDependencies,
        e == FetchEvent::<T>::DependenciesResolved,
        hash == m.hashes.prepare,
{
}

/// An entry the store already holds is used as it is: after a store hit nothing
/// is fetched, patched or run for that entry; the fetch moves on to the next
/// entry, to resolving the `prepare` dependencies, or finishes.
pub proof fn lemma_store_hit_builds_nothing<T>(m: SourceFetch<T>, t: T)
    requires
        m.wf(),
        answers(m.stage, FetchEvent::Found(t)),
    ensures
        next(m@, FetchEvent::Found(t)).1 == m.entries@.push(t),
        match next(m@, FetchEvent::Found(t)).2 {
            FetchAction::LookupStore { .. } => true,
            FetchAction::ResolveDependencies => true,
            FetchAction::Finish => true,
            _ => false,
        },
{
}

/// The state an answer leads to.
pub open spec fn successor<T>(v: FetchView<T>, e: FetchEvent<T>) -> FetchView<T> {
    FetchView { stage: next(v, e).0, entries: next(v, e).1, ..v }
}

/// The answer a store that holds every entry gives to a request: the next
/// stored entry for a lookup, success for resolving dependencies.
pub open spec fn hit_answer<T>(a: FetchAction, hit: T) -> FetchEvent<T> {
    match a {
        FetchAction::ResolveDependencies => FetchEvent::DependenciesResolved,
        _ => FetchEvent::Found(hit),
    }
}

/// A fetch answered by a store that holds every entry (`hits`, in the order
/// they are looked up), for at most `steps` answers: the state it ends in and
/// the requests it makes, the pending request `a` first.
pub open spec fn run_on_hits<T>(v: FetchView<T>, a: FetchAction, hits: Seq<T>, steps: nat) -> (
    FetchView<T>,
    Seq<FetchAction>,
)
    decreases steps,
{
    if steps == 0 || a is Finish {
        (v, seq![a])
    } else {
        let e = hit_answer(a, hits[0]);
        let rest = if a is ResolveDependencies {
            hits
        } else {
            hits.drop_first()
        };
        let (end, actions) = run_on_hits(successor(v, e), next(v, e).2, rest, (steps - 1) as nat);
        (end, seq![a] + actions)
    }
}

/// The requests of a fetch whose every entry is already stored: the base is
/// looked up, then the patched tree when there are patches, then the
/// dependencies of the `prepare` step are resolved and the prepared tree is
/// looked up when there is one, and the fetch finishes.
pub open spec fn hit_actions<T>(v: FetchView<T>) -> Seq<FetchAction> {
    seq![FetchAction::LookupStore { kind: StoreKind::Base, hash: v.hashes.base }] + (if v.patch_count
        > 0 {
        seq![FetchAction::LookupStore { kind: StoreKind::Patch, hash: v.hashes.patch }]
    } else {
        Seq::empty()
    }) + (if v.has_prepare {
        seq![
            FetchAction::ResolveDependencies,
            FetchAction::LookupStore { kind: StoreKind::Prepare, hash: v.hashes.prepare },
        ]
    } else {
        Seq::empty()
    }) + seq![FetchAction::Finish]
}

/// A fetch of a source whose every entry is already in the store builds
/// nothing: it only looks entries up (and resolves the dependencies of the
/// `prepare` step, when there is one) and finishes with exactly the stored
/// entries, in order. Nothing is fetched, no patch applied, no script run and
/// nothing stored.
pub proof fn lemma_fetch_on_store_hits<T>(m: SourceFetch<T>, hits: Seq<T>)
    requires
        m.stage == FetchStage::LookupBase,
        m.entries@.len() == 0,
        hits.len() == expected_entries(m.patch_count as nat, m.has_prepare),
    ensures
        ({
            let (end, actions) = run_on_hits(
                m@,
                FetchAction::LookupStore { kind: StoreKind::Base, hash: m.hashes.base },
                hits,
                5,
            );
            &&& actions == hit_actions(m@)
            &&& end.stage == FetchStage::Done
            &&& end.entries == hits
            &&& forall|i: int|
                0 <= i < actions.len() ==> match #[trigger] actions[i] {
                    FetchAction::LookupStore { .. } => true,
                    FetchAction::ResolveDependencies => true,
                    FetchAction::Finish => true,
                    _ => false,
                }
        }),
{
    reveal_with_fuel(run_on_hits, 6);
    let v = m@;
    let a0 = FetchAction::LookupStore { kind: StoreKind::Base, hash: m.hashes.base };
    let v1 = successor(v, FetchEvent::Found(hits[0]));
    let a1 = next(v, FetchEvent::Found(hits[0])).2;
    assert(v1.entries == seq![hits[0]]);
    let (end, actions) = run_on_hits(v, a0, hits, 5);
    if m.patch_count > 0 {
        let v2 = successor(v1, FetchEvent::Found(hits[1]));
        let a2 = next(v1, FetchEvent::Found(hits[1])).2;
        assert(v2.entries == seq![hits[0], hits[1]]);
        if m.has_prepare {
            let v3 = successor(v2, FetchEvent::DependenciesResolved);
            let a3 = next(v2, FetchEvent::<T>::DependenciesResolved).2;
            let v4 = successor(v3, FetchEvent::Found(hits[2]));
            assert(v4.entries == seq![hits[0], hits[1], hits[2]]);
            assert(hits =~= seq![hits[0], hits[1], hits[2]]);
            assert(actions =~= hit_actions(m@));
        } else {
            assert(hits =~= seq![hits[0], hits[1]]);
            assert(actions =~= hit_actions(m@));
        }
    } else {
        if m.has_prepare {
            let v3 = successor(v1, FetchEvent::DependenciesResolved);
            let v4 = successor(v3, FetchEvent::Found(hits[1]));
            assert(v4.entries == seq![hits[0], hits[1]]);
            assert(hits =~= seq![hits[0], hits[1]]);
            assert(actions =~= hit_actions(m@));
        } else {
            assert(hits =~= seq![hits[0]]);
            assert(actions =~= hit_actions(m@));
        }
    }
}

/// The hash that names the store entry of a kind.
pub open spec fn hash_of_kind(hashes: SourceHashes, kind: StoreKind) -> String {
    match kind {
        StoreKind::Base => hashes.base,
        StoreKind::Patch => hashes.patch,
        StoreKind::Prepare => hashes.prepare,
    }
}

/// Every store request names the entry by the hash of its own kind: a lookup
/// or a store of the base, patched or prepared tree always carries the base,
/// patch or prepare hash. In particular the prepared tree, once its script
/// exited with status 0, is stored as a prepare entry under the prepare hash.
pub proof fn lemma_store_requests_use_their_hash<T>(m: SourceFetch<T>, e: FetchEvent<T>)
    requires
        m.wf(),
        answers(m.stage, e),
    ensures
        match next(m@, e).2 {
            FetchAction::LookupStore { kind, hash } => hash == hash_of_kind(m.hashes, kind),
            FetchAction::StoreWorkDirectory { kind, hash } => hash == hash_of_kind(m.hashes, kind),
            _ => true,
        },
        m.stage == FetchStage::RunPrepare && e == FetchEvent::<T>::Exited(0) ==> next(m@, e).2
            == (FetchAction::StoreWorkDirectory { kind: StoreKind::Prepare, hash: m.hashes.prepare }),
        m.stage == FetchStage::LookupPrepare && e == FetchEvent::<T>::NotFound ==> next(m@, e).2
            == FetchAction::CreateWorkDirectories,
        m.stage is ApplyPatch && m.stage->ApplyPatch_0 + 1 == m.patch_count && e
            == FetchEvent::<T>::Exited(0) ==> next(m@, e).2 == (FetchAction::StoreWorkDirectory {
            kind: StoreKind::Patch,
            hash: m.hashes.patch,
        }),
        m.stage == FetchStage::FetchBase && e == FetchEvent::<T>::Fetched ==> next(m@, e).2
            == (FetchAction::StoreWorkDirectory { kind: StoreKind::Base, hash: m.hashes.base }),
{
}

/// A tree is stored only once it was built: the base right after it was
/// fetched, the patched tree right after the last patch exited with status 0
/// (so after every patch was applied), the prepared tree right after the
/// `prepare` script exited with status 0.
pub proof fn lemma_stored_only_when_built<T>(
    m: SourceFetch<T>,
    e: FetchEvent<T>,
    kind: StoreKind,
    hash: String,
)
    requires
        m.wf(),
        answers(m.stage, e),
        next(m@, e).2 == (FetchAction::StoreWorkDirectory { kind, hash }),
    ensures
        kind == StoreKind::Base ==> m.stage == FetchStage::FetchBase && e == FetchEvent::<T>::Fetched,
        kind == StoreKind::Patch ==> m.patch_count > 0 && m.stage == FetchStage::ApplyPatch(
            (m.patch_count - 1) as usize,
        ) && e == FetchEvent::<T>::Exited(0),
        kind == StoreKind::Prepare ==> m.has_prepare && m.stage == FetchStage::RunPrepare && e
            == FetchEvent::<T>::Exited(0),
{
}

// ---------------------------------------------------------------------------
// What the container runs
// ---------------------------------------------------------------------------

/// Sets `name` to `value` in `env`, replacing an earlier setting of `name`.
fn set_var(env: &mut Vec<EnvVar>, name: String, value: String)
    requires
        names_distinct(old(env)@),
    ensures
        names_distinct(final(env)@),
        env_map(final(env)@) == env_map(old(env)@).insert(name@, value@),
{
    let ghost n = name@;
    let ghost v = value;
    let ghost before = named_map(env@);
    set_named(env, name, value);
    proof {
        lemma_env_map_insert(before, n, v);
    }
}

/// Where the source tree is mounted in the container, and its working directory.
pub open spec fn source_mount() -> Seq<char> {
    "/chariot/source"@
}

/// Where the source tree is mounted in the container, and its working directory.
pub fn source_mount_path() -> (s: &'static str)
    ensures
        s@ == source_mount(),
{
    "/chariot/source"
}

/// The environment of a `prepare` script: the global variables, then the
/// variables of the `prepare` step, then `SOURCE_DIR` set to where the source
/// is mounted; a later setting of a variable overrides an earlier one.
pub fn prepare_environment(global: &Vec<EnvVar>, local: &Vec<EnvVar>) -> (env: Vec<EnvVar>)
    ensures
        names_distinct(env@),
        env_map(env@) == env_map(global@ + local@).insert("SOURCE_DIR"@, source_mount()),
{
    let mut env: Vec<EnvVar> = Vec::new();
    let ghost all = global@ + local@;
    let n = global.len();
    let mut i: usize = 0;
    assert(all.take(0) =~= env@);
    while i < n
        invariant
            n == global@.len(),
            0 <= i <= n,
            all == global@ + local@,
            names_distinct(env@),
            env_map(env@) == env_map(all.take(i as int)),
        decreases n - i,
    {
        let v = &global[i];
        set_var(&mut env, v.name.clone(), v.value.clone());
        proof {
            assert(all.take(i + 1).drop_last() =~= all.take(i as int));
            assert(all[i as int] == global@[i as int]);
            lemma_env_map_insert(named_map(all.take(i as int)), v.name@, v.value);
        }
        i = i + 1;
    }
    let m = local.len();
    let mut j: usize = 0;
    while j < m
        invariant
            n == global@.len(),
            m == local@.len(),
            0 <= j <= m,
            all == global@ + local@,
            names_distinct(env@),
            env_map(env@) == env_map(all.take(n + j)),
        decreases m - j,
    {
        let v = &local[j];
        set_var(&mut env, v.name.clone(), v.value.clone());
        proof {
            assert(all.take(n + j + 1).drop_last() =~= all.take(n + j));
            assert(all[n + j] == local@[j as int]);
            lemma_env_map_insert(named_map(all.take(n + j)), v.name@, v.value);
        }
        j = j + 1;
    }
    assert(all.take(n + m) =~= all);
    set_var(&mut env, String::from_str("SOURCE_DIR"), String::from_str("/chariot/source"));
    env
}

/// The script that applies a patch: the patch text is passed in `CHARIOT_PATCH`.
pub fn patch_script() -> (s: Script)
    ensures
        s.language == ScriptLanguage::Bash,
        s.code@ == "echo \"$CHARIOT_PATCH\" | patch -p1"@,
{
    Script::bash(String::from_str("echo \"$CHARIOT_PATCH\" | patch -p1"))
}

/// The environment of the script that applies `patch`.
pub fn patch_environment(patch: &String) -> (env: Vec<EnvVar>)
    ensures
        names_distinct(env@),
        env_map(env@) == Map::<Seq<char>, Seq<char>>::empty().insert("CHARIOT_PATCH"@, patch@),
{
    let mut env: Vec<EnvVar> = Vec::new();
    proof {
        assert(env_map(env@) =~= Map::empty());
    }
    set_var(&mut env, String::from_str("CHARIOT_PATCH"), patch.clone());
    env
}

} // verus!
