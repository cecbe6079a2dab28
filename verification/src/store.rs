use vstd::prelude::*;

use std::sync::Arc;

use crate::config::ConfigSnapshot;
use crate::config::RawConfig;
use crate::config::compile_config;
use crate::config::config_error_witnessed;
use crate::config::raw_config_ok;
use crate::config::raw_gateway_has_bad_address;
use crate::config::raw_gateway_has_bad_pattern;
use crate::config::raw_gateway_has_dangling;
use crate::config::raw_gateway_has_dup;
use crate::config::raw_gateway_has_empty_peers;
use crate::config::snapshot_matches_raw;
use crate::errors::ConfigError;

verus! {

/// Relies on std::sync::Arc::clone: the clone refers to the same immutable
/// snapshot value.
#[verifier::external_body]
fn arc_clone_snapshot(a: &Arc<ConfigSnapshot>) -> (r: Arc<ConfigSnapshot>)
    ensures
        r == *a,
{
    Arc::clone(a)
}

/// A cheap handle on one immutable snapshot. A holder always observes the
/// snapshot the handle was issued for, never a torn mix, whatever the store
/// does meanwhile.
#[derive(Debug)]
pub struct SnapshotHandle {
    inner: Arc<ConfigSnapshot>,
}

impl SnapshotHandle {
    /// The snapshot this handle observes; fixed for the handle's whole life.
    pub closed spec fn spec_snapshot(&self) -> ConfigSnapshot {
        *self.inner
    }

    /// Borrows the snapshot.
    pub fn get(&self) -> (r: &ConfigSnapshot)
        ensures
            *r == self.spec_snapshot(),
    {
        &*self.inner
    }

    /// Another handle on the same snapshot.
    pub fn duplicate(&self) -> (r: SnapshotHandle)
        ensures
            r.spec_snapshot() == self.spec_snapshot(),
    {
        SnapshotHandle { inner: arc_clone_snapshot(&self.inner) }
    }

    /// The version of the observed snapshot.
    pub fn version(&self) -> (v: u64)
        ensures
            v == self.spec_snapshot().version,
    {
        self.get().version
    }
}

/// The process-wide holder of the configuration in force: replaced wholesale
/// by a load or a swap, read through cheap handles that stay valid across
/// replacements.
#[derive(Debug)]
pub struct ConfigStore {
    current: Arc<ConfigSnapshot>,
}

/// What a swap does: afterwards the store's current snapshot is the installed
/// one; no handle issued earlier is touched.
pub open spec fn swap_post(pre: ConfigStore, post: ConfigStore, installed: ConfigSnapshot) -> bool {
    post.spec_current() == installed
}

/// What a load does: it succeeds exactly on defect-free configurations; on
/// success the store's current snapshot is the freshly compiled one, one
/// version up; on failure the store is untouched and the error names a defect
/// the configuration really has.
pub open spec fn load_post(
    pre: ConfigStore,
    post: ConfigStore,
    raw: RawConfig,
    r: Result<SnapshotHandle, ConfigError>,
) -> bool {
    &&& (r is Ok <==> raw_config_ok(raw))
    &&& match r {
        Ok(h) => {
            &&& h.spec_snapshot() == post.spec_current()
            &&& post.spec_current().wf()
            &&& post.spec_current().version == pre.spec_current().version + 1
            &&& snapshot_matches_raw(post.spec_current(), raw)
        },
        Err(e) => {
            &&& post.spec_current() == pre.spec_current()
            &&& config_error_witnessed(raw, e)
        },
    }
}

impl ConfigStore {
    /// The snapshot presently in force.
    pub closed spec fn spec_current(&self) -> ConfigSnapshot {
        *self.current
    }

    /// A store created at process start from the initial snapshot.
    pub fn new(initial: ConfigSnapshot) -> (s: ConfigStore)
        ensures
            s.spec_current() == initial,
    {
        ConfigStore { current: Arc::new(initial) }
    }

    /// A handle on the presently active snapshot; cheap, and safe to hold
    /// across a concurrent replacement.
    pub fn current(&self) -> (h: SnapshotHandle)
        ensures
            h.spec_snapshot() == self.spec_current(),
    {
        SnapshotHandle { inner: arc_clone_snapshot(&self.current) }
    }

    /// Replaces the current snapshot for all future `current` calls; handles
    /// already issued keep observing the snapshot they were issued for.
    pub fn swap(&mut self, snapshot: ConfigSnapshot)
        ensures
            swap_post(*old(self), *final(self), snapshot),
    {
        self.current = Arc::new(snapshot);
    }

    /// Validates and compiles a raw configuration and, only if the whole of
    /// it is good, installs it as the current snapshot with the next version;
    /// a failed load leaves the store exactly as it was.
    pub fn load(&mut self, raw: RawConfig) -> (r: Result<SnapshotHandle, ConfigError>)
        requires
            old(self).spec_current().version < u64::MAX,
        ensures
            load_post(*old(self), *final(self), raw, r),
    {
        let version = self.get_version() + 1;
        match compile_config(raw, version) {
            Ok(snapshot) => {
                self.swap(snapshot);
                Ok(self.current())
            },
            Err(e) => Err(e),
        }
    }

    /// The version of the snapshot presently in force.
    pub fn get_version(&self) -> (v: u64)
        ensures
            v == self.spec_current().version,
    {
        let h = self.current();
        h.version()
    }
}

/// Law: a configuration that references a missing target id is never
/// adopted. The load fails, the store is left exactly as it was, and when the
/// dangling reference is the configuration's only defect the reported error
/// is `DanglingTargetReference` itself.
pub proof fn lemma_load_rejects_dangling(
    pre: ConfigStore,
    post: ConfigStore,
    raw: RawConfig,
    r: Result<SnapshotHandle, ConfigError>,
)
    requires
        load_post(pre, post, raw, r),
        exists|gi: int|
            0 <= gi < raw.gateways@.len() && raw_gateway_has_dangling(
                #[trigger] raw.gateways@[gi],
            ),
    ensures
        r is Err,
        post.spec_current() == pre.spec_current(),
        (forall|gi: int|
            0 <= gi < raw.gateways@.len() ==> {
                let g = #[trigger] raw.gateways@[gi];
                &&& !raw_gateway_has_dup(g)
                &&& !raw_gateway_has_bad_address(g)
                &&& !raw_gateway_has_empty_peers(g)
                &&& !raw_gateway_has_bad_pattern(g)
            }) ==> (r matches Err(e) && e == ConfigError::DanglingTargetReference),
{
    let gi = choose|gi: int|
        0 <= gi < raw.gateways@.len() && raw_gateway_has_dangling(#[trigger] raw.gateways@[gi]);
    assert(!raw_config_ok(raw));
}

/// Law: a defect-free configuration is always adopted: the load succeeds and
/// installs it, one version up.
pub proof fn lemma_load_accepts_valid(
    pre: ConfigStore,
    post: ConfigStore,
    raw: RawConfig,
    r: Result<SnapshotHandle, ConfigError>,
)
    requires
        load_post(pre, post, raw, r),
        raw_config_ok(raw),
    ensures
        r is Ok,
        post.spec_current().version == pre.spec_current().version + 1,
        snapshot_matches_raw(post.spec_current(), raw),
{
}

/// Law: hot-swap isolation. A handle issued before a swap keeps observing
/// exactly the snapshot it was issued for; a handle issued after observes
/// exactly the installed snapshot; with a growing version the two can never
/// be confused, so no request ever sees a mix.
pub proof fn lemma_hot_swap_isolation(
    pre: ConfigStore,
    post: ConfigStore,
    installed: ConfigSnapshot,
    held: SnapshotHandle,
    later: SnapshotHandle,
)
    requires
        held.spec_snapshot() == pre.spec_current(),
        swap_post(pre, post, installed),
        later.spec_snapshot() == post.spec_current(),
        installed.version > pre.spec_current().version,
    ensures
        held.spec_snapshot() == pre.spec_current(),
        later.spec_snapshot() == installed,
        held.spec_snapshot().version < later.spec_snapshot().version,
{
}

} // verus!
