//! Keeping the catalog in step with the control channel.
//!
//! The channel carries the creation, the update and the deletion of
//! deployments. A creation and an update install the descriptor they carry
//! in the place of its deployment; a deletion takes the deployment out.
//! Applying a message changes the catalog, unbinds the hostnames that left
//! it from the affinity map, and names the hostnames whose isolates every
//! worker has to evict: those that left, and those whose deployment has
//! other settings now.

use crate::affinity::{AffinityMap, AffinityView};
use crate::catalog::{
    conflicts, dropped, held_by, installed, is_outdated, outdated_hostnames, without, Catalog,
    CatalogError, CatalogView, Installed,
};
use crate::deployment::{Deployment, DeploymentView};
use crate::isolate::{
    acquired, evicted, options_for, AcquiredView, CacheView, IsolateInitError, IsolateRecordView,
};
use vstd::arithmetic::power2::{lemma2_to64, lemma_pow2_strictly_increases, lemma_pow2_unfold, pow2};
use vstd::prelude::*;

verus! {

/// A message of the control channel.
#[derive(Debug)]
pub enum ControlMessage {
    /// A deployment was created.
    Create(Deployment),
    /// A deployment was changed.
    Update(Deployment),
    /// The deployment of this identifier was deleted.
    Delete(String),
}

#[verifier::ext_equal]
pub enum ControlMessageView {
    Create(DeploymentView),
    Update(DeploymentView),
    Delete(Seq<char>),
}

impl View for ControlMessage {
    type V = ControlMessageView;

    open spec fn view(&self) -> ControlMessageView {
        match self {
            ControlMessage::Create(d) => ControlMessageView::Create(d@),
            ControlMessage::Update(d) => ControlMessageView::Update(d@),
            ControlMessage::Delete(id) => ControlMessageView::Delete(id@),
        }
    }
}

/// Whether the catalog refuses the message: it installs a descriptor one of
/// whose hostnames resolves to another deployment.
pub open spec fn refused(c: CatalogView, m: ControlMessageView) -> bool {
    match m {
        ControlMessageView::Create(d) => conflicts(c, d),
        ControlMessageView::Update(d) => conflicts(c, d),
        ControlMessageView::Delete(_) => false,
    }
}

/// The catalog after the message. A refused message leaves it as it is.
pub open spec fn catalog_after(c: CatalogView, m: ControlMessageView) -> CatalogView {
    match m {
        ControlMessageView::Create(d) => if conflicts(c, d) {
            c
        } else {
            installed(c, d)
        },
        ControlMessageView::Update(d) => if conflicts(c, d) {
            c
        } else {
            installed(c, d)
        },
        ControlMessageView::Delete(id) => without(c, id),
    }
}

/// The hostnames that leave the catalog with the message: those that the
/// deployment of an installed descriptor held and the descriptor does not
/// list, and those of a deleted deployment.
pub open spec fn leaving(c: CatalogView, m: ControlMessageView) -> Set<Seq<char>> {
    match m {
        ControlMessageView::Create(d) => if conflicts(c, d) {
            Set::empty()
        } else {
            dropped(c, d)
        },
        ControlMessageView::Update(d) => if conflicts(c, d) {
            Set::empty()
        } else {
            dropped(c, d)
        },
        ControlMessageView::Delete(id) => held_by(c, id),
    }
}

/// The affinity map after the message: the hostnames that leave the
/// catalog are unbound.
pub open spec fn affinity_after(c: CatalogView, a: AffinityView, m: ControlMessageView) -> AffinityView {
    a.remove_keys(leaving(c, m))
}

/// Whether `evict` lists the hostnames to evict after `d` is installed:
/// first those of its hostnames whose isolates it outdates, in the
/// descriptor's order, then those that left the catalog, each once.
pub open spec fn evicts_installed(c: CatalogView, d: DeploymentView, evict: Seq<Seq<char>>) -> bool {
    let n = outdated_hostnames(c, d).len() as int;
    &&& n <= evict.len()
    &&& evict.take(n) == outdated_hostnames(c, d)
    &&& evict.skip(n).to_set() == dropped(c, d)
    &&& evict.skip(n).no_duplicates()
}

/// Whether `evict` lists the hostnames to evict after the message: for an
/// installed descriptor as [`evicts_installed`] says; for a deletion the
/// hostnames of the deployment, each once.
pub open spec fn evicts(c: CatalogView, m: ControlMessageView, evict: Seq<Seq<char>>) -> bool {
    match m {
        ControlMessageView::Create(d) => evicts_installed(c, d, evict),
        ControlMessageView::Update(d) => evicts_installed(c, d, evict),
        ControlMessageView::Delete(id) => evict.to_set() == held_by(c, id) && evict.no_duplicates(),
    }
}

/// A hostname keeps its worker thread for as long as it is in the catalog:
/// no message unbinds or rebinds a hostname that the catalog still holds
/// after it.
pub proof fn lemma_affinity_kept_while_in_catalog(
    c: CatalogView,
    a: AffinityView,
    m: ControlMessageView,
    hostname: Seq<char>,
)
    requires
        a.contains_key(hostname),
        catalog_after(c, m).contains_key(hostname),
    ensures
        affinity_after(c, a, m).contains_key(hostname),
        affinity_after(c, a, m)[hostname] == a[hostname],
{
}

/// A message unbinds exactly the bound hostnames that it takes out of the
/// catalog, and binds none.
pub proof fn lemma_unbound_with_catalog(
    c: CatalogView,
    a: AffinityView,
    m: ControlMessageView,
    hostname: Seq<char>,
)
    ensures
        affinity_after(c, a, m).contains_key(hostname) <==> a.contains_key(hostname) && !(
        c.contains_key(hostname) && !catalog_after(c, m).contains_key(hostname)),
{
}

/// After an update that changes the settings of a hostname's deployment
/// (its code, its environment or one of its limits), the hostname is among
/// those to evict and resolves to the new descriptor. Once a worker has
/// evicted it, the isolate built under the old settings serves no request:
/// the next request to the hostname gets an isolate that the worker's cache
/// never held, to be built from the new descriptor's options, or none at
/// all where the cache has no number left for it.
pub proof fn lemma_update_rebuilds_isolate(
    c: CatalogView,
    d: DeploymentView,
    hostname: Seq<char>,
    cache: CacheView,
    code: Seq<u8>,
    any: Seq<char>,
)
    requires
        c.contains_key(hostname),
        d.hostnames.contains(hostname),
        !conflicts(c, d),
        c[hostname].settings() != d.settings(),
        cache.valid(),
    ensures
        outdated_hostnames(c, d).contains(hostname),
        catalog_after(c, ControlMessageView::Update(d)).contains_key(hostname),
        catalog_after(c, ControlMessageView::Update(d))[hostname] == d,
        !evicted(cache, hostname).live.contains_key(hostname),
        acquired(
            evicted(cache, hostname),
            hostname,
            catalog_after(c, ControlMessageView::Update(d))[hostname],
            Some(code),
        ).1 == if cache.built < u64::MAX {
            Ok::<AcquiredView, IsolateInitError>(
                AcquiredView { instance: cache.built, fresh: Some(options_for(d, code)) },
            )
        } else {
            Err::<AcquiredView, IsolateInitError>(IsolateInitError::InstancesExhausted)
        },
        cache.built < u64::MAX ==> acquired(
            evicted(cache, hostname),
            hostname,
            catalog_after(c, ControlMessageView::Update(d))[hostname],
            Some(code),
        ).0.live[hostname] == (IsolateRecordView { instance: cache.built, settings: d.settings() }),
        cache.live.contains_key(any) ==> cache.live[any].instance != cache.built,
{
    let i = d.hostnames.index_of(hostname);
    assert(d.hostnames[i] == hostname);
    assert(is_outdated(c, d)(d.hostnames[i]));
    d.hostnames.lemma_filter_contains(is_outdated(c, d), i);
}

/// Installs the descriptor of a message, unbinds the hostnames that left
/// the catalog, and lists the hostnames to evict.
fn apply_installation(catalog: &mut Catalog, affinity: &mut AffinityMap, d: &Deployment) -> (outcome:
    Result<Vec<String>, CatalogError>)
    ensures
        final(affinity).threads() == old(affinity).threads(),
        match outcome {
            Ok(evict) => {
                &&& !conflicts(old(catalog)@, d@)
                &&& final(catalog)@ == installed(old(catalog)@, d@)
                &&& final(affinity)@ == old(affinity)@.remove_keys(dropped(old(catalog)@, d@))
                &&& evicts_installed(old(catalog)@, d@, evict.deep_view())
            },
            Err(error) => {
                &&& conflicts(old(catalog)@, d@)
                &&& final(catalog)@ == old(catalog)@
                &&& final(affinity)@ == old(affinity)@
                &&& error == CatalogError::HostnameConflict
            },
        },
{
    match catalog.install(d) {
        Ok(done) => {
            affinity.unbind_each(&done.dropped);
            let Installed { outdated, dropped: left } = done;
            let ghost first = outdated.deep_view();
            let ghost second = left.deep_view();
            let mut evict = outdated;
            let mut rest = left;
            evict.append(&mut rest);
            proof {
                assert(evict.deep_view() =~= first + second);
                assert((first + second).take(first.len() as int) =~= first);
                assert((first + second).skip(first.len() as int) =~= second);
            }
            Ok(evict)
        },
        Err(error) => Err(error),
    }
}

/// Applies a message of the control channel to the catalog and the affinity
/// map, and returns the hostnames whose isolates are to be evicted on every
/// worker thread.
pub fn apply(catalog: &mut Catalog, affinity: &mut AffinityMap, message: &ControlMessage) -> (outcome:
    Result<Vec<String>, CatalogError>)
    ensures
        final(catalog)@ == catalog_after(old(catalog)@, message@),
        final(affinity)@ == affinity_after(old(catalog)@, old(affinity)@, message@),
        final(affinity).threads() == old(affinity).threads(),
        match outcome {
            Ok(evict) => !refused(old(catalog)@, message@) && evicts(
                old(catalog)@,
                message@,
                evict.deep_view(),
            ),
            Err(error) => refused(old(catalog)@, message@) && error
                == CatalogError::HostnameConflict,
        },
{
    let ghost bindings = affinity@;
    assert(bindings.remove_keys(Set::<Seq<char>>::empty()) =~= bindings);
    match message {
        ControlMessage::Create(d) => apply_installation(catalog, affinity, d),
        ControlMessage::Update(d) => apply_installation(catalog, affinity, d),
        ControlMessage::Delete(id) => {
            let removed = catalog.remove_deployment(id.as_str());
            affinity.unbind_each(&removed);
            Ok(removed)
        },
    }
}

/// The delay before the first attempt to reconnect to the control channel,
/// in milliseconds.
pub const RECONNECT_BASE_MS: u64 = 250;

/// The longest delay between two attempts to reconnect, in milliseconds.
pub const RECONNECT_CAP_MS: u64 = 30_000;

/// The delay before attempt number `attempt` to reconnect, counted from 0:
/// `base` doubled once for each earlier attempt, and no more than `cap`.
pub open spec fn backoff(base: u64, cap: u64, attempt: nat) -> int {
    if base * pow2(attempt) <= cap {
        base * pow2(attempt)
    } else {
        cap as int
    }
}

/// The delay before attempt number `attempt` to reconnect.
pub fn reconnect_delay(base: u64, cap: u64, attempt: u32) -> (delay: u64)
    ensures
        delay == backoff(base, cap, attempt as nat),
{
    if base == 0 {
        assert(base * pow2(attempt as nat) == 0) by (nonlinear_arith)
            requires
                base == 0,
        ;
        return 0;
    }
    proof {
        lemma2_to64();
    }
    let mut delay: u64 = if base <= cap {
        base
    } else {
        cap
    };
    let mut i: u32 = 0;
    while i < attempt && delay < cap
        invariant
            i <= attempt,
            delay <= cap,
            delay == backoff(base, cap, i as nat),
        decreases attempt - i,
    {
        proof {
            lemma_pow2_unfold((i + 1) as nat);
            assert(base * pow2((i + 1) as nat) == 2 * (base * pow2(i as nat))) by (nonlinear_arith)
                requires
                    pow2((i + 1) as nat) == 2 * pow2(i as nat),
            ;
        }
        delay = if delay > cap - delay {
            cap
        } else {
            delay + delay
        };
        i += 1;
    }
    proof {
        if i < attempt {
            lemma_pow2_strictly_increases(i as nat, attempt as nat);
            assert(base * pow2(i as nat) <= base * pow2(attempt as nat)) by (nonlinear_arith)
                requires
                    pow2(i as nat) < pow2(attempt as nat),
            ;
        }
    }
    delay
}

} // verus!
