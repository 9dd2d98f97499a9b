//! The plugin lifecycle manager.
//!
//! The manager owns the collection of loaded plugins, the registered loader
//! backends and the dispatch bus, and decides every lifecycle transition.
//! Work only the host can do — probing files, running loader backends and
//! awaiting plugin hooks — happens outside; the manager is handed the
//! observed outcome and answers with the exact state change and with the
//! actions still owed (a rollback, an unload hook, a loader release).

use vstd::prelude::*;

use crate::events::{
    DispatchPlan, EventPriority, HandlerRegistry, RegisteredHandler, spec_by_priority,
};

verus! {

/// Why a loader failed to produce a plugin from an artifact.
#[derive(Debug)]
pub enum LoaderError {
    /// The artifact is not in a format this loader understands.
    InvalidFormat(String),
    /// The artifact lacks the fixed registration entry point.
    MissingEntryPoint(String),
    /// The artifact was built against an incompatible host version.
    VersionMismatch(String),
    /// The artifact loaded, but the plugin reported that its own
    /// initialization failed; the payload carries the plugin-reported error.
    InitializationFailed(String),
}

/// Errors the lifecycle manager reports.
#[derive(Debug)]
pub enum ManagerError {
    /// An operation needing the host reference ran before it was set.
    ServerNotInitialized,
    /// The operation targeted a plugin name or file no one has loaded.
    PluginNotFound(String),
    /// A loader's own failure, wrapped.
    LoaderError(LoaderError),
    /// A directory or file operation failed.
    IoError(String),
    /// The self-reference needed to build a plugin context was never set.
    ManagerNotInitialized,
}

/// Immutable identity record a loader reads from an artifact's manifest.
#[derive(Debug)]
pub struct PluginMetadata {
    pub name: String,
    pub version: String,
    pub authors: String,
    pub description: String,
}

impl Clone for PluginMetadata {
    fn clone(&self) -> (r: Self)
        ensures
            r == *self,
    {
        PluginMetadata {
            name: self.name.clone(),
            version: self.version.clone(),
            authors: self.authors.clone(),
            description: self.description.clone(),
        }
    }
}

/// Opaque handle to the host server.
#[derive(Clone, Copy, PartialEq, Eq, Structural, Debug)]
pub struct ServerRef {
    pub id: u64,
}

/// Opaque handle to the shared cell holding this manager, used to build
/// plugin contexts.
#[derive(Clone, Copy, PartialEq, Eq, Structural, Debug)]
pub struct ManagerRef {
    pub id: u64,
}

/// A registered loader backend: an opaque token naming the backend, and
/// whether its artifacts can ever be released at runtime. On platforms that
/// cannot release in-process code the flag is false and unloaded plugins
/// stay resident but inert.
#[derive(Clone, Copy, PartialEq, Eq, Structural, Debug)]
pub struct LoaderInfo {
    pub loader: u64,
    pub can_unload: bool,
}

/// One successfully loaded plugin.
pub struct LoadedPlugin {
    pub metadata: PluginMetadata,
    /// Token for the plugin instance the host holds.
    pub instance: u64,
    /// Token of the owning loader backend.
    pub loader: u64,
    /// Token for the loader-private opaque state.
    pub loader_data: u64,
    /// Whether the owning loader can release this plugin's code, fixed at
    /// load time.
    pub can_unload: bool,
    pub is_active: bool,
}

/// What the host observed while probing and loading one file.
pub enum LoadOutcome {
    /// No registered loader accepted the file.
    NotAccepted,
    /// A loader accepted the file but failed to load the artifact.
    LoadFailed(LoaderError),
    /// The artifact loaded but the plugin's load hook failed.
    HookFailed { instance: u64, loader: u64, loader_data: u64, error: String },
    /// The artifact loaded and the plugin's load hook succeeded.
    HookSucceeded {
        metadata: PluginMetadata,
        instance: u64,
        loader: u64,
        loader_data: u64,
        can_unload: bool,
    },
}

/// The single rollback attempt owed after a failed load hook: invoke the
/// unload hook of `instance` with its errors discarded, then hand
/// `loader_data` back to loader `loader` as independent cleanup whose result
/// is not surfaced.
pub struct RollbackPlan {
    pub instance: u64,
    pub loader: u64,
    pub loader_data: u64,
}

/// What one load attempt decided.
pub enum LoadReport {
    /// The plugin was appended to the collection, active.
    Loaded,
    /// The loader failed; the collection is untouched. Log-worthy only.
    LoadFailed(LoaderError),
    /// The load hook failed; the collection is untouched and the caller owes
    /// the plugin exactly the returned rollback attempt.
    RolledBack { error: LoaderError, plan: RollbackPlan },
}

/// The actions still owed after `unload_plugin`: invoke the unload hook of
/// `instance` (errors discarded), then, when `release` carries the loader
/// state, hand it back to loader `loader`.
#[derive(Debug)]
pub struct UnloadPlan {
    pub metadata: PluginMetadata,
    pub instance: u64,
    pub loader: u64,
    pub release: Option<u64>,
}

/// Is `path` recorded in the pending set?
pub open spec fn spec_pending_has(files: Seq<String>, path: Seq<char>) -> bool
    decreases files.len(),
{
    if files.len() == 0 {
        false
    } else {
        files.last()@ == path || spec_pending_has(files.drop_last(), path)
    }
}

/// Index of the first plugin named `name`, or `-1`.
pub open spec fn spec_first_named(s: Seq<LoadedPlugin>, name: Seq<char>) -> int
    decreases s.len(),
{
    if s.len() == 0 {
        -1
    } else if s[0].metadata.name@ == name {
        0
    } else {
        let r = spec_first_named(s.drop_first(), name);
        if r == -1 {
            -1
        } else {
            r + 1
        }
    }
}

/// A plugin of this name is in the collection, active or not.
pub open spec fn spec_is_loaded(s: Seq<LoadedPlugin>, name: Seq<char>) -> bool {
    spec_first_named(s, name) >= 0
}

/// A plugin of this name is in the collection and active.
pub open spec fn spec_is_active(s: Seq<LoadedPlugin>, name: Seq<char>) -> bool
    decreases s.len(),
{
    if s.len() == 0 {
        false
    } else {
        (s.last().metadata.name@ == name && s.last().is_active) || spec_is_active(
            s.drop_last(),
            name,
        )
    }
}

/// How many plugins carry this name.
pub open spec fn spec_count_named(s: Seq<LoadedPlugin>, name: Seq<char>) -> int
    decreases s.len(),
{
    if s.len() == 0 {
        0
    } else {
        (if s.last().metadata.name@ == name {
            1int
        } else {
            0int
        }) + spec_count_named(s.drop_last(), name)
    }
}

/// Every entry named `name` with its active flag cleared; the rest as they
/// are.
pub open spec fn spec_deactivate_named(s: Seq<LoadedPlugin>, name: Seq<char>) -> Seq<
    LoadedPlugin,
> {
    Seq::new(
        s.len(),
        |i: int|
            if 0 <= i < s.len() && s[i].metadata.name@ == name {
                LoadedPlugin { is_active: false, ..s[i] }
            } else {
                s[i]
            },
    )
}

/// A plugin name maps to at most one active entry.
pub open spec fn spec_unique_active(s: Seq<LoadedPlugin>) -> bool {
    forall|i: int, j: int|
        0 <= i < j < s.len() && (#[trigger] s[i]).is_active && (#[trigger] s[j]).is_active
            ==> s[i].metadata.name@ != s[j].metadata.name@
}

/// The metadata of the active plugins, in collection order.
pub open spec fn spec_active_metadata(s: Seq<LoadedPlugin>) -> Seq<PluginMetadata>
    decreases s.len(),
{
    if s.len() == 0 {
        Seq::empty()
    } else {
        let rest = spec_active_metadata(s.drop_last());
        if s.last().is_active {
            rest.push(s.last().metadata)
        } else {
            rest
        }
    }
}

/// The metadata of every loaded plugin, in collection order.
pub open spec fn spec_all_metadata(s: Seq<LoadedPlugin>) -> Seq<PluginMetadata>
    decreases s.len(),
{
    if s.len() == 0 {
        Seq::empty()
    } else {
        spec_all_metadata(s.drop_last()).push(s.last().metadata)
    }
}

/// Core plugin management system.
pub struct PluginManager {
    pub plugins: Vec<LoadedPlugin>,
    pub loaders: Vec<LoaderInfo>,
    pub server: Option<ServerRef>,
    pub handlers: HandlerRegistry,
    pub unloaded_files: Vec<String>,
    pub self_ref: Option<ManagerRef>,
}

proof fn lemma_first_named_at(s: Seq<LoadedPlugin>, name: Seq<char>, i: int)
    requires
        0 <= i < s.len(),
        s[i].metadata.name@ == name,
        forall|j: int| 0 <= j < i ==> s[j].metadata.name@ != name,
    ensures
        spec_first_named(s, name) == i,
    decreases i,
{
    if i > 0 {
        lemma_first_named_at(s.drop_first(), name, i - 1);
    }
}

proof fn lemma_first_named_props(s: Seq<LoadedPlugin>, name: Seq<char>)
    ensures
        ({
            let r = spec_first_named(s, name);
            r == -1 || (0 <= r < s.len() && s[r].metadata.name@ == name && forall|j: int|
                0 <= j < r ==> s[j].metadata.name@ != name)
        }),
    decreases s.len(),
{
    if s.len() > 0 && s[0].metadata.name@ != name {
        lemma_first_named_props(s.drop_first(), name);
        let r = spec_first_named(s, name);
        if r != -1 {
            assert(s[r] == s.drop_first()[r - 1]);
            assert forall|j: int| 0 <= j < r implies s[j].metadata.name@ != name by {
                if j > 0 {
                    assert(s[j] == s.drop_first()[j - 1]);
                }
            }
        }
    }
}

proof fn lemma_first_named_absent(s: Seq<LoadedPlugin>, name: Seq<char>)
    requires
        forall|j: int| 0 <= j < s.len() ==> s[j].metadata.name@ != name,
    ensures
        spec_first_named(s, name) == -1,
    decreases s.len(),
{
    if s.len() > 0 {
        lemma_first_named_absent(s.drop_first(), name);
    }
}

proof fn lemma_named_witness(s: Seq<LoadedPlugin>, name: Seq<char>, j: int)
    requires
        0 <= j < s.len(),
        s[j].metadata.name@ == name,
    ensures
        spec_first_named(s, name) >= 0,
    decreases s.len(),
{
    if s[0].metadata.name@ != name {
        lemma_named_witness(s.drop_first(), name, j - 1);
    }
}

/// Deactivating a name nobody carries changes nothing.
proof fn lemma_deactivate_absent(s: Seq<LoadedPlugin>, name: Seq<char>)
    requires
        !spec_is_loaded(s, name),
    ensures
        spec_deactivate_named(s, name) == s,
{
    assert forall|k: int| 0 <= k < s.len() implies (#[trigger] s[k]).metadata.name@ != name by {
        if s[k].metadata.name@ == name {
            lemma_named_witness(s, name, k);
        }
    }
    assert(spec_deactivate_named(s, name) =~= s);
}

proof fn lemma_absent_not_active(s: Seq<LoadedPlugin>, name: Seq<char>)
    requires
        forall|j: int| 0 <= j < s.len() ==> s[j].metadata.name@ != name,
    ensures
        !spec_is_active(s, name),
    decreases s.len(),
{
    if s.len() > 0 {
        assert(forall|j: int|
            0 <= j < s.drop_last().len() ==> s.drop_last()[j].metadata.name@ != name);
        lemma_absent_not_active(s.drop_last(), name);
    }
}

/// When a name occurs exactly once, no position but `i` carries it.
proof fn lemma_unique_named(s: Seq<LoadedPlugin>, name: Seq<char>, i: int)
    requires
        0 <= i < s.len(),
        spec_count_named(s, name) == 1,
        s[i].metadata.name@ == name,
    ensures
        forall|j: int|
            0 <= j < s.len() && j != i ==> (#[trigger] s[j]).metadata.name@ != name,
{
    assert forall|j: int| 0 <= j < s.len() && j != i implies (#[trigger] s[j]).metadata.name@
        != name by {
        if s[j].metadata.name@ == name {
            lemma_two_positions(s, name, i, j);
        }
    }
}

proof fn lemma_remove_named(s: Seq<LoadedPlugin>, name: Seq<char>, i: int)
    requires
        0 <= i < s.len(),
        spec_count_named(s, name) == 1,
        s[i].metadata.name@ == name,
    ensures
        forall|j: int| 0 <= j < s.remove(i).len() ==> s.remove(i)[j].metadata.name@ != name,
{
    lemma_unique_named(s, name, i);
}

proof fn lemma_two_positions(s: Seq<LoadedPlugin>, name: Seq<char>, i: int, j: int)
    requires
        0 <= i < s.len(),
        0 <= j < s.len(),
        i != j,
        s[i].metadata.name@ == name,
        s[j].metadata.name@ == name,
    ensures
        spec_count_named(s, name) >= 2,
    decreases s.len(),
{
    let hi = if i > j {
        i
    } else {
        j
    };
    let lo = if i > j {
        j
    } else {
        i
    };
    assert(hi == s.len() - 1 || hi < s.len() - 1);
    if hi == s.len() - 1 {
        lemma_count_ge_one(s.drop_last(), name, lo);
    } else {
        lemma_two_positions(s.drop_last(), name, lo, hi);
    }
    lemma_count_nonnegative(s, name);
}

proof fn lemma_count_ge_one(s: Seq<LoadedPlugin>, name: Seq<char>, i: int)
    requires
        0 <= i < s.len(),
        s[i].metadata.name@ == name,
    ensures
        spec_count_named(s, name) >= 1,
    decreases s.len(),
{
    lemma_count_nonnegative(s.drop_last(), name);
    if i < s.len() - 1 {
        lemma_count_ge_one(s.drop_last(), name, i);
    }
}

proof fn lemma_count_nonnegative(s: Seq<LoadedPlugin>, name: Seq<char>)
    ensures
        spec_count_named(s, name) >= 0,
    decreases s.len(),
{
    if s.len() > 0 {
        lemma_count_nonnegative(s.drop_last(), name);
    }
}

/// Clear the active flag of every entry named `name`.
fn deactivate_named(plugins: &mut Vec<LoadedPlugin>, name: &String)
    ensures
        final(plugins)@ == spec_deactivate_named(old(plugins)@, name@),
{
    let n = plugins.len();
    let mut i: usize = 0;
    while i < n
        invariant
            i <= n,
            n == plugins@.len(),
            plugins@.len() == old(plugins)@.len(),
            forall|j: int|
                0 <= j < i ==> plugins@[j] == spec_deactivate_named(old(plugins)@, name@)[j],
            forall|j: int| i <= j < n ==> plugins@[j] == old(plugins)@[j],
        decreases n - i,
    {
        if plugins[i].metadata.name == *name && plugins[i].is_active {
            let mut copy = clone_plugin(&plugins[i]);
            copy.is_active = false;
            plugins.set(i, copy);
        }
        i += 1;
    }
    proof {
        assert(plugins@ =~= spec_deactivate_named(old(plugins)@, name@));
    }
}

/// Law: a successful load keeps "a plugin name maps to at most one active
/// entry": every previously active entry of the incoming name is deactivated
/// before the new entry is appended active.
pub proof fn lemma_load_preserves_unique_active(s: Seq<LoadedPlugin>, entry: LoadedPlugin)
    requires
        spec_unique_active(s),
    ensures
        spec_unique_active(spec_deactivate_named(s, entry.metadata.name@).push(entry)),
{
    let d = spec_deactivate_named(s, entry.metadata.name@);
    let t = d.push(entry);
    assert forall|i: int, j: int|
        0 <= i < j < t.len() && (#[trigger] t[i]).is_active && (#[trigger] t[j]).is_active
        implies t[i].metadata.name@ != t[j].metadata.name@ by {
        if j < d.len() {
            assert(t[i] == d[i]);
            assert(t[j] == d[j]);
            assert(s[i].is_active && s[i].metadata.name@ != entry.metadata.name@);
            assert(s[j].is_active);
        } else {
            assert(t[j] == entry);
            assert(t[i] == d[i]);
            assert(d[i].metadata.name@ != entry.metadata.name@);
        }
    }
}

/// Insert `path` into the pending set when it is not yet there.
fn pending_insert(files: &mut Vec<String>, path: &str)
    ensures
        spec_pending_has(final(files)@, path@),
        forall|q: Seq<char>|
            q != path@ ==> spec_pending_has(final(files)@, q) == spec_pending_has(old(files)@, q),
{
    let key: String = path.to_owned();
    let mut i: usize = 0;
    while i < files.len()
        invariant
            i <= files@.len(),
            key@ == path@,
            files@ == old(files)@,
        decreases files@.len() - i,
    {
        if files[i] == key {
            proof {
                lemma_pending_witness(files@, path@, i as int);
            }
            return ;
        }
        i += 1;
    }
    files.push(key);
    proof {
        assert(files@.drop_last() =~= old(files)@);
    }
}

proof fn lemma_pending_witness(files: Seq<String>, path: Seq<char>, i: int)
    requires
        0 <= i < files.len(),
        files[i]@ == path,
    ensures
        spec_pending_has(files, path),
    decreases files.len(),
{
    if i < files.len() - 1 {
        lemma_pending_witness(files.drop_last(), path, i);
    }
}

/// Remove every record of `path` from the pending set.
fn pending_remove(files: &mut Vec<String>, path: &str)
    ensures
        !spec_pending_has(final(files)@, path@),
        forall|q: Seq<char>|
            q != path@ ==> spec_pending_has(final(files)@, q) == spec_pending_has(old(files)@, q),
{
    let key: String = path.to_owned();
    let mut out: Vec<String> = Vec::new();
    let mut i: usize = 0;
    while i < files.len()
        invariant
            i <= files@.len(),
            key@ == path@,
            files@ == old(files)@,
            !spec_pending_has(out@, path@),
            forall|q: Seq<char>|
                q != path@ ==> spec_pending_has(out@, q) == spec_pending_has(
                    files@.take(i as int),
                    q,
                ),
        decreases files@.len() - i,
    {
        proof {
            assert(files@.take(i + 1 as int).drop_last() =~= files@.take(i as int));
            assert(files@.take(i + 1 as int).last() == files@[i as int]);
        }
        if files[i] != key {
            let ghost pre = out@;
            out.push(files[i].clone());
            proof {
                assert(out@.drop_last() =~= pre);
                assert(out@.last()@ == files@[i as int]@);
                assert forall|q: Seq<char>| q != path@ implies spec_pending_has(out@, q)
                    == spec_pending_has(files@.take(i + 1 as int), q) by {
                    assert(spec_pending_has(out@, q) == (out@.last()@ == q || spec_pending_has(
                        pre,
                        q,
                    )));
                    assert(spec_pending_has(files@.take(i + 1 as int), q) == (files@[i as int]@
                        == q || spec_pending_has(files@.take(i as int), q)));
                }
                assert(spec_pending_has(out@, path@) == (out@.last()@ == path@
                    || spec_pending_has(pre, path@)));
            }
        } else {
            proof {
                assert forall|q: Seq<char>| q != path@ implies spec_pending_has(out@, q)
                    == spec_pending_has(files@.take(i + 1 as int), q) by {
                    assert(spec_pending_has(files@.take(i + 1 as int), q) == (files@[i as int]@
                        == q || spec_pending_has(files@.take(i as int), q)));
                }
            }
        }
        i += 1;
    }
    proof {
        assert(files@.take(files@.len() as int) =~= files@);
    }
    *files = out;
}

impl PluginManager {
    /// Create a new plugin manager with no loaders registered yet. A loader
    /// is a host backend, so the host registers its default native
    /// dynamic-module loader through `add_loader` as soon as the manager
    /// exists; only the backend itself can report whether its artifacts can
    /// be released.
    pub fn new() -> (r: Self)
        ensures
            r.plugins@.len() == 0,
            r.loaders@.len() == 0,
            r.server is None,
            r.self_ref is None,
            r.handlers.entries@.len() == 0,
            r.unloaded_files@.len() == 0,
    {
        PluginManager {
            plugins: Vec::new(),
            loaders: Vec::new(),
            server: None,
            handlers: HandlerRegistry::new(),
            unloaded_files: Vec::new(),
            self_ref: None,
        }
    }

    /// Set the server reference used to build plugin contexts.
    pub fn set_server(&mut self, server: ServerRef)
        ensures
            final(self).server == Some(server),
            final(self).plugins@ == old(self).plugins@,
            final(self).loaders@ == old(self).loaders@,
            final(self).handlers.entries@ == old(self).handlers.entries@,
            final(self).unloaded_files@ == old(self).unloaded_files@,
            final(self).self_ref == old(self).self_ref,
    {
        self.server = Some(server);
    }

    /// Set the self-reference used to build plugin contexts.
    pub fn set_self_ref(&mut self, self_ref: ManagerRef)
        ensures
            final(self).self_ref == Some(self_ref),
            final(self).plugins@ == old(self).plugins@,
            final(self).loaders@ == old(self).loaders@,
            final(self).handlers.entries@ == old(self).handlers.entries@,
            final(self).unloaded_files@ == old(self).unloaded_files@,
            final(self).server == old(self).server,
    {
        self.self_ref = Some(self_ref);
    }

    /// The registered loaders, in registration order.
    pub fn get_loaders(&self) -> (r: Vec<LoaderInfo>)
        ensures
            r@ == self.loaders@,
    {
        let r = self.loaders.clone();
        proof {
            assert(r@ =~= self.loaders@);
        }
        r
    }

    /// Whether a context for plugin hooks can be built right now.
    pub fn context_ready(&self) -> (r: Result<(), ManagerError>)
        ensures
            self.server is None ==> r matches Err(ManagerError::ServerNotInitialized),
            (self.server is Some && self.self_ref is None) ==> r matches Err(
                ManagerError::ManagerNotInitialized,
            ),
            (self.server is Some && self.self_ref is Some) == (r is Ok),
    {
        if self.server.is_none() {
            return Err(ManagerError::ServerNotInitialized);
        }
        if self.self_ref.is_none() {
            return Err(ManagerError::ManagerNotInitialized);
        }
        Ok(())
    }

    /// The registered loader that takes the file: the first acceptance, in
    /// registration order, wins.
    pub fn select_loader(&self, accepts: &Vec<bool>) -> (r: Option<usize>)
        requires
            accepts@.len() == self.loaders@.len(),
        ensures
            match r {
                Some(i) => i < self.loaders@.len() && accepts@[i as int] && forall|j: int|
                    0 <= j < i ==> !accepts@[j],
                None => forall|j: int| 0 <= j < accepts@.len() ==> !accepts@[j],
            },
    {
        let mut i: usize = 0;
        while i < accepts.len()
            invariant
                i <= accepts@.len(),
                accepts@.len() == self.loaders@.len(),
                forall|j: int| 0 <= j < i ==> !accepts@[j],
            decreases accepts@.len() - i,
        {
            if accepts[i] {
                return Some(i);
            }
            i += 1;
        }
        None
    }

    /// Register an additional loader backend. The caller receives the
    /// pending files recorded so far and retries each of them through
    /// `try_load_plugin`.
    pub fn add_loader(&mut self, loader: LoaderInfo) -> (pending: Vec<String>)
        ensures
            final(self).loaders@ == old(self).loaders@.push(loader),
            final(self).plugins@ == old(self).plugins@,
            final(self).unloaded_files@ == old(self).unloaded_files@,
            final(self).handlers.entries@ == old(self).handlers.entries@,
            final(self).server == old(self).server,
            final(self).self_ref == old(self).self_ref,
            pending@ == final(self).unloaded_files@,
    {
        self.loaders.push(loader);
        let pending = self.unloaded_files.clone();
        proof {
            assert(pending@ =~= self.unloaded_files@);
        }
        pending
    }

    /// Record what one load attempt on `path` came to, and answer with the
    /// state change it caused. A file no loader accepts is remembered in the
    /// pending set and reported as `PluginNotFound`; a loader or hook
    /// failure leaves the collection untouched (the hook failure also hands
    /// back the one rollback attempt the plugin is owed); a successful hook
    /// appends the plugin, active, and clears the path from the pending set.
    pub fn try_load_plugin(&mut self, path: &str, outcome: LoadOutcome) -> (r: Result<
        LoadReport,
        ManagerError,
    >)
        ensures
            final(self).loaders@ == old(self).loaders@,
            final(self).handlers.entries@ == old(self).handlers.entries@,
            final(self).server == old(self).server,
            final(self).self_ref == old(self).self_ref,
            outcome matches LoadOutcome::NotAccepted ==> {
                &&& final(self).plugins@ == old(self).plugins@
                &&& spec_pending_has(final(self).unloaded_files@, path@)
                &&& forall|q: Seq<char>|
                    q != path@ ==> spec_pending_has(final(self).unloaded_files@, q)
                        == spec_pending_has(old(self).unloaded_files@, q)
                &&& r matches Err(ManagerError::PluginNotFound(p)) && p@ == path@
            },
            outcome matches LoadOutcome::LoadFailed(e) ==> {
                &&& final(self).plugins@ == old(self).plugins@
                &&& final(self).unloaded_files@ == old(self).unloaded_files@
                &&& r matches Ok(LoadReport::LoadFailed(e2)) && e2 == e
            },
            outcome matches LoadOutcome::HookFailed { instance, loader, loader_data, error } ==> {
                &&& final(self).plugins@ == old(self).plugins@
                &&& final(self).unloaded_files@ == old(self).unloaded_files@
                &&& r matches Ok(LoadReport::RolledBack { error: e2, plan }) && e2
                    == (LoaderError::InitializationFailed(error)) && plan.instance == instance
                    && plan.loader == loader && plan.loader_data == loader_data
            },
            outcome matches LoadOutcome::HookSucceeded {
                metadata,
                instance,
                loader,
                loader_data,
                can_unload,
            } ==> {
                &&& final(self).plugins@ == spec_deactivate_named(
                    old(self).plugins@,
                    metadata.name@,
                ).push(
                    (LoadedPlugin {
                        metadata,
                        instance,
                        loader,
                        loader_data,
                        can_unload,
                        is_active: true,
                    }),
                )
                &&& spec_unique_active(old(self).plugins@) ==> spec_unique_active(
                    final(self).plugins@,
                )
                &&& !spec_pending_has(final(self).unloaded_files@, path@)
                &&& forall|q: Seq<char>|
                    q != path@ ==> spec_pending_has(final(self).unloaded_files@, q)
                        == spec_pending_has(old(self).unloaded_files@, q)
                &&& r matches Ok(LoadReport::Loaded)
            },
    {
        match outcome {
            LoadOutcome::NotAccepted => {
                pending_insert(&mut self.unloaded_files, path);
                Err(ManagerError::PluginNotFound(path.to_owned()))
            },
            LoadOutcome::LoadFailed(e) => Ok(LoadReport::LoadFailed(e)),
            LoadOutcome::HookFailed { instance, loader, loader_data, error } => Ok(
                LoadReport::RolledBack {
                    error: LoaderError::InitializationFailed(error),
                    plan: RollbackPlan { instance, loader, loader_data },
                },
            ),
            LoadOutcome::HookSucceeded { metadata, instance, loader, loader_data, can_unload } => {
                deactivate_named(&mut self.plugins, &metadata.name);
                let entry = LoadedPlugin {
                    metadata,
                    instance,
                    loader,
                    loader_data,
                    can_unload,
                    is_active: true,
                };
                let ghost e = entry;
                self.plugins.push(entry);
                proof {
                    if spec_unique_active(old(self).plugins@) {
                        lemma_load_preserves_unique_active(old(self).plugins@, e);
                    }
                }
                pending_remove(&mut self.unloaded_files, path);
                Ok(LoadReport::Loaded)
            },
        }
    }

    /// Checks if a plugin of this name is loaded and active.
    pub fn is_plugin_active(&self, name: &str) -> (r: bool)
        ensures
            r == spec_is_active(self.plugins@, name@),
    {
        let key: String = name.to_owned();
        let mut i: usize = 0;
        while i < self.plugins.len()
            invariant
                i <= self.plugins@.len(),
                key@ == name@,
                !spec_is_active(self.plugins@.take(i as int), name@),
            decreases self.plugins@.len() - i,
        {
            proof {
                assert(self.plugins@.take(i + 1 as int).drop_last() =~= self.plugins@.take(
                    i as int,
                ));
                assert(self.plugins@.take(i + 1 as int).last() == self.plugins@[i as int]);
            }
            if self.plugins[i].metadata.name == key && self.plugins[i].is_active {
                proof {
                    lemma_active_witness(self.plugins@, name@, i as int);
                }
                return true;
            }
            i += 1;
        }
        proof {
            assert(self.plugins@.take(self.plugins@.len() as int) =~= self.plugins@);
        }
        false
    }

    /// Checks if a plugin of this name is loaded, active or not.
    pub fn is_plugin_loaded(&self, name: &str) -> (r: bool)
        ensures
            r == spec_is_loaded(self.plugins@, name@),
    {
        let key: String = name.to_owned();
        let mut i: usize = 0;
        while i < self.plugins.len()
            invariant
                i <= self.plugins@.len(),
                key@ == name@,
                forall|j: int| 0 <= j < i ==> self.plugins@[j].metadata.name@ != name@,
            decreases self.plugins@.len() - i,
        {
            if self.plugins[i].metadata.name == key {
                proof {
                    lemma_first_named_at(self.plugins@, name@, i as int);
                }
                return true;
            }
            i += 1;
        }
        proof {
            lemma_first_named_absent(self.plugins@, name@);
        }
        false
    }

    /// The metadata of the active plugins.
    pub fn active_plugins(&self) -> (r: Vec<PluginMetadata>)
        ensures
            r@ == spec_active_metadata(self.plugins@),
    {
        let mut out: Vec<PluginMetadata> = Vec::new();
        let mut i: usize = 0;
        while i < self.plugins.len()
            invariant
                i <= self.plugins@.len(),
                out@ == spec_active_metadata(self.plugins@.take(i as int)),
            decreases self.plugins@.len() - i,
        {
            proof {
                assert(self.plugins@.take(i + 1 as int).drop_last() =~= self.plugins@.take(
                    i as int,
                ));
                assert(self.plugins@.take(i + 1 as int).last() == self.plugins@[i as int]);
            }
            if self.plugins[i].is_active {
                out.push(self.plugins[i].metadata.clone());
            }
            i += 1;
        }
        proof {
            assert(self.plugins@.take(self.plugins@.len() as int) =~= self.plugins@);
        }
        out
    }

    /// The metadata of every loaded plugin, active or resident-inactive.
    pub fn loaded_plugins(&self) -> (r: Vec<PluginMetadata>)
        ensures
            r@ == spec_all_metadata(self.plugins@),
    {
        let mut out: Vec<PluginMetadata> = Vec::new();
        let mut i: usize = 0;
        while i < self.plugins.len()
            invariant
                i <= self.plugins@.len(),
                out@ == spec_all_metadata(self.plugins@.take(i as int)),
            decreases self.plugins@.len() - i,
        {
            proof {
                assert(self.plugins@.take(i + 1 as int).drop_last() =~= self.plugins@.take(
                    i as int,
                ));
                assert(self.plugins@.take(i + 1 as int).last() == self.plugins@[i as int]);
            }
            out.push(self.plugins[i].metadata.clone());
            i += 1;
        }
        proof {
            assert(self.plugins@.take(self.plugins@.len() as int) =~= self.plugins@);
        }
        out
    }

    /// Unload a plugin by name. An unknown name is `PluginNotFound` and
    /// changes nothing. Otherwise the caller receives the unload plan: run
    /// the unload hook, then, when the owning loader can release code, hand
    /// the loader state back — the entry is gone from the collection. When
    /// the loader cannot release code the entry stays, deactivated:
    /// resident but inert.
    pub fn unload_plugin(&mut self, name: &str) -> (r: Result<UnloadPlan, ManagerError>)
        ensures
            final(self).loaders@ == old(self).loaders@,
            final(self).handlers.entries@ == old(self).handlers.entries@,
            final(self).server == old(self).server,
            final(self).self_ref == old(self).self_ref,
            final(self).unloaded_files@ == old(self).unloaded_files@,
            !spec_is_loaded(old(self).plugins@, name@) <==> (r matches Err(
                ManagerError::PluginNotFound(p),
            ) && p@ == name@),
            r is Err ==> final(self).plugins@ == old(self).plugins@,
            (spec_is_loaded(old(self).plugins@, name@) && old(self).server is None) ==> r matches
                Err(ManagerError::ServerNotInitialized),
            (spec_is_loaded(old(self).plugins@, name@) && old(self).server is Some && old(
                self,
            ).self_ref is None) ==> r matches Err(ManagerError::ManagerNotInitialized),
            (spec_is_loaded(old(self).plugins@, name@) && old(self).server is Some && old(
                self,
            ).self_ref is Some) ==> r is Ok,
            r matches Ok(plan) ==> {
                let i = spec_first_named(old(self).plugins@, name@);
                let p = old(self).plugins@[i];
                &&& 0 <= i < old(self).plugins@.len()
                &&& plan.metadata == p.metadata
                &&& plan.instance == p.instance
                &&& plan.loader == p.loader
                &&& (p.can_unload ==> plan.release == Some(p.loader_data) && final(self).plugins@
                    == old(self).plugins@.remove(i))
                &&& (!p.can_unload ==> plan.release is None && final(self).plugins@
                    == old(self).plugins@.update(i, (LoadedPlugin { is_active: false, ..p })))
            },
            (r is Ok && spec_count_named(old(self).plugins@, name@) == 1) ==> {
                let i = spec_first_named(old(self).plugins@, name@);
                let p = old(self).plugins@[i];
                &&& (p.can_unload ==> !spec_is_loaded(final(self).plugins@, name@)
                    && !spec_is_active(final(self).plugins@, name@))
                &&& (!p.can_unload ==> spec_is_loaded(final(self).plugins@, name@)
                    && !spec_is_active(final(self).plugins@, name@))
            },
    {
        let key: String = name.to_owned();
        let mut i: usize = 0;
        let n = self.plugins.len();
        let mut found: Option<usize> = None;
        while i < n
            invariant
                i <= n,
                n == self.plugins@.len(),
                key@ == name@,
                match found {
                    Some(k) => spec_first_named(self.plugins@, name@) == k as int && k < n,
                    None => forall|j: int| 0 <= j < i ==> self.plugins@[j].metadata.name@ != name@,
                },
            decreases n - i,
        {
            if found.is_none() && self.plugins[i].metadata.name == key {
                found = Some(i);
                proof {
                    lemma_first_named_at(self.plugins@, name@, i as int);
                }
            }
            i += 1;
        }
        let idx = match found {
            Some(idx) => idx,
            None => {
                proof {
                    lemma_first_named_absent(self.plugins@, name@);
                }
                return Err(ManagerError::PluginNotFound(key));
            },
        };
        if self.server.is_none() {
            return Err(ManagerError::ServerNotInitialized);
        }
        if self.self_ref.is_none() {
            return Err(ManagerError::ManagerNotInitialized);
        }
        let ghost old_plugins = self.plugins@;
        proof {
            lemma_first_named_props(old_plugins, name@);
        }
        let plugin = self.plugins.remove(idx);
        let plan_metadata = plugin.metadata.clone();
        if plugin.can_unload {
            proof {
                if spec_count_named(old_plugins, name@) == 1 {
                    lemma_remove_named(old_plugins, name@, idx as int);
                    lemma_first_named_absent(self.plugins@, name@);
                    lemma_absent_not_active(self.plugins@, name@);
                }
            }
            Ok(UnloadPlan {
                metadata: plan_metadata,
                instance: plugin.instance,
                loader: plugin.loader,
                release: Some(plugin.loader_data),
            })
        } else {
            let mut kept = plugin;
            kept.is_active = false;
            let instance = kept.instance;
            let loader = kept.loader;
            self.plugins.insert(idx, kept);
            proof {
                assert(self.plugins@ =~= old_plugins.update(
                    idx as int,
                    (LoadedPlugin { is_active: false, ..old_plugins[idx as int] }),
                ));
                lemma_first_named_at(self.plugins@, name@, idx as int);
                if spec_count_named(old_plugins, name@) == 1 {
                    lemma_unique_named(old_plugins, name@, idx as int);
                    lemma_inactive_update_not_active(self.plugins@, name@, idx as int);
                }
            }
            Ok(UnloadPlan {
                metadata: plan_metadata,
                instance,
                loader,
                release: None,
            })
        }
    }

    /// Unload every active plugin. Plugins whose loader can release code
    /// leave the collection; the others stay resident but inert. No plugin
    /// is active afterwards. The returned plans carry the unload hooks and
    /// releases the caller still owes, in collection order.
    pub fn unload_all_plugins(&mut self) -> (r: Result<Vec<UnloadPlan>, ManagerError>)
        ensures
            final(self).loaders@ == old(self).loaders@,
            final(self).handlers.entries@ == old(self).handlers.entries@,
            final(self).server == old(self).server,
            final(self).self_ref == old(self).self_ref,
            final(self).unloaded_files@ == old(self).unloaded_files@,
            r is Ok,
            (old(self).server is None || old(self).self_ref is None) ==> (final(self).plugins@
                == old(self).plugins@ && (r matches Ok(plans) && plans@.len() == 0)),
            (old(self).server is Some && old(self).self_ref is Some) ==> {
                &&& final(self).plugins@ == spec_survivors(old(self).plugins@)
                &&& forall|j: int|
                    0 <= j < final(self).plugins@.len()
                        ==> !(#[trigger] final(self).plugins@[j]).is_active
                &&& r matches Ok(plans) && plans@ == spec_unload_plans(old(self).plugins@)
            },
    {
        if self.server.is_none() || self.self_ref.is_none() {
            // Without a context no unload hook can be invoked; nothing
            // changes, as when each per-name unload fails in isolation.
            return Ok(Vec::new());
        }
        let mut kept: Vec<LoadedPlugin> = Vec::new();
        let mut plans: Vec<UnloadPlan> = Vec::new();
        let mut i: usize = 0;
        let n = self.plugins.len();
        while i < n
            invariant
                i <= n,
                n == self.plugins@.len(),
                kept@ == spec_survivors(self.plugins@.take(i as int)),
                plans@ == spec_unload_plans(self.plugins@.take(i as int)),
                forall|j: int| 0 <= j < kept@.len() ==> !(#[trigger] kept@[j]).is_active,
            decreases n - i,
        {
            proof {
                assert(self.plugins@.take(i + 1 as int).drop_last() =~= self.plugins@.take(
                    i as int,
                ));
                assert(self.plugins@.take(i + 1 as int).last() == self.plugins@[i as int]);
            }
            let p = &self.plugins[i];
            if !p.is_active {
                let copy = clone_plugin(p);
                let ghost pre = kept@;
                kept.push(copy);
                proof {
                    assert(kept@.drop_last() =~= pre);
                }
            } else if p.can_unload {
                let ghost pre_plans = plans@;
                plans.push(
                    UnloadPlan {
                        metadata: p.metadata.clone(),
                        instance: p.instance,
                        loader: p.loader,
                        release: Some(p.loader_data),
                    },
                );
                proof {
                    assert(plans@.drop_last() =~= pre_plans);
                }
            } else {
                let mut copy = clone_plugin(p);
                copy.is_active = false;
                let ghost pre_plans = plans@;
                plans.push(
                    UnloadPlan {
                        metadata: copy.metadata.clone(),
                        instance: copy.instance,
                        loader: copy.loader,
                        release: None,
                    },
                );
                let ghost pre = kept@;
                kept.push(copy);
                proof {
                    assert(plans@.drop_last() =~= pre_plans);
                    assert(kept@.drop_last() =~= pre);
                }
            }
            i += 1;
        }
        proof {
            assert(self.plugins@.take(n as int) =~= self.plugins@);
        }
        self.plugins = kept;
        Ok(plans)
    }

    /// Register an event handler under the identity of one event type.
    pub fn register(
        &mut self,
        event_type: String,
        handler: u64,
        priority: EventPriority,
        blocking: bool,
    )
        ensures
            final(self).handlers.entries@ == old(self).handlers.entries@.push(
                (RegisteredHandler { event_type, handler, priority, blocking }),
            ),
            final(self).plugins@ == old(self).plugins@,
            final(self).loaders@ == old(self).loaders@,
            final(self).unloaded_files@ == old(self).unloaded_files@,
            final(self).server == old(self).server,
            final(self).self_ref == old(self).self_ref,
    {
        self.handlers.subscribe(event_type, handler, priority, blocking);
    }

    /// The schedule for publishing one event: all its blocking handlers,
    /// then all its non-blocking handlers, each partition by priority tier
    /// and, within a tier, in registration order. Before the server
    /// reference is set no handler runs, as there is no server to hand them.
    pub fn fire(&self, event_type: &str) -> (plan: DispatchPlan)
        ensures
            self.server is Some ==> plan.blocking@ == spec_by_priority(
                self.handlers.entries@,
                event_type@,
                true,
            ) && plan.non_blocking@ == spec_by_priority(
                self.handlers.entries@,
                event_type@,
                false,
            ),
            self.server is None ==> plan.blocking@.len() == 0 && plan.non_blocking@.len() == 0,
    {
        if self.server.is_some() {
            self.handlers.dispatch_plan(event_type)
        } else {
            DispatchPlan { blocking: Vec::new(), non_blocking: Vec::new() }
        }
    }
}

impl Default for PluginManager {
    /// A manager with no loaders, plugins or handlers.
    fn default() -> (r: Self)
        ensures
            r.plugins@.len() == 0,
            r.loaders@.len() == 0,
            r.server is None,
            r.self_ref is None,
            r.handlers.entries@.len() == 0,
            r.unloaded_files@.len() == 0,
    {
        PluginManager::new()
    }
}

/// The plans owed for unloading every active plugin, in collection order:
/// one per active entry, releasing the loader state exactly when the owning
/// loader can release code.
pub open spec fn spec_unload_plans(s: Seq<LoadedPlugin>) -> Seq<UnloadPlan>
    decreases s.len(),
{
    if s.len() == 0 {
        Seq::empty()
    } else {
        let rest = spec_unload_plans(s.drop_last());
        let p = s.last();
        if !p.is_active {
            rest
        } else if p.can_unload {
            rest.push(
                (UnloadPlan {
                    metadata: p.metadata,
                    instance: p.instance,
                    loader: p.loader,
                    release: Some(p.loader_data),
                }),
            )
        } else {
            rest.push(
                (UnloadPlan {
                    metadata: p.metadata,
                    instance: p.instance,
                    loader: p.loader,
                    release: None,
                }),
            )
        }
    }
}

/// The plugins that survive unloading every active plugin: inactive entries
/// stay as they are, active entries of a releasing loader leave, the rest
/// stay deactivated.
pub open spec fn spec_survivors(s: Seq<LoadedPlugin>) -> Seq<LoadedPlugin>
    decreases s.len(),
{
    if s.len() == 0 {
        Seq::empty()
    } else {
        let rest = spec_survivors(s.drop_last());
        let p = s.last();
        if !p.is_active {
            rest.push(p)
        } else if p.can_unload {
            rest
        } else {
            rest.push((LoadedPlugin { is_active: false, ..p }))
        }
    }
}

fn clone_plugin(p: &LoadedPlugin) -> (r: LoadedPlugin)
    ensures
        r == *p,
{
    LoadedPlugin {
        metadata: p.metadata.clone(),
        instance: p.instance,
        loader: p.loader,
        loader_data: p.loader_data,
        can_unload: p.can_unload,
        is_active: p.is_active,
    }
}

proof fn lemma_active_witness(s: Seq<LoadedPlugin>, name: Seq<char>, i: int)
    requires
        0 <= i < s.len(),
        s[i].metadata.name@ == name,
        s[i].is_active,
    ensures
        spec_is_active(s, name),
    decreases s.len(),
{
    if i < s.len() - 1 {
        lemma_active_witness(s.drop_last(), name, i);
    }
}

proof fn lemma_inactive_update_not_active(s: Seq<LoadedPlugin>, name: Seq<char>, i: int)
    requires
        0 <= i < s.len(),
        !s[i].is_active,
        forall|j: int| 0 <= j < s.len() && j != i ==> (#[trigger] s[j]).metadata.name@ != name,
    ensures
        !spec_is_active(s, name),
    decreases s.len(),
{
    if s.len() > 0 {
        if i == s.len() - 1 {
            assert(forall|j: int|
                0 <= j < s.drop_last().len() ==> (#[trigger] s.drop_last()[j]).metadata.name@
                    != name);
            lemma_absent_not_active(s.drop_last(), name);
        } else {
            lemma_inactive_update_not_active(s.drop_last(), name, i);
        }
    }
}

/// Law: a file no registered loader accepts leaves the plugin collection
/// untouched and joins the pending set; after a loader that accepts it is
/// added and the retry succeeds, exactly one plugin entry was added and the
/// file is no longer pending.
pub proof fn lemma_pending_retry(
    m0: PluginManager,
    m1: PluginManager,
    m2: PluginManager,
    m3: PluginManager,
    path: Seq<char>,
    entry: LoadedPlugin,
)
    requires
        m1.plugins@ == m0.plugins@,
        spec_pending_has(m1.unloaded_files@, path),
        m2.plugins@ == m1.plugins@,
        m2.unloaded_files@ == m1.unloaded_files@,
        !spec_is_loaded(m2.plugins@, entry.metadata.name@),
        m3.plugins@ == spec_deactivate_named(m2.plugins@, entry.metadata.name@).push(entry),
        !spec_pending_has(m3.unloaded_files@, path),
    ensures
        m3.plugins@ == m0.plugins@.push(entry),
        m3.plugins@.len() == m0.plugins@.len() + 1,
        spec_pending_has(m2.unloaded_files@, path),
        !spec_pending_has(m3.unloaded_files@, path),
{
    lemma_deactivate_absent(m2.plugins@, entry.metadata.name@);
}

} // verus!
