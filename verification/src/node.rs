//! The node as a whole.
//!
//! The catalog, the affinity map and the workers' isolate caches change
//! under two kinds of events: a request, and a message of the control
//! channel together with the evictions it names. This module composes the
//! steps of the other modules into the step of a node and proves what holds
//! in every state that a node reaches.

use crate::affinity::{bound, AffinityView};
use crate::catalog::{
    conflicts, dropped, held_by, is_outdated, outdated_hostnames, CatalogView,
};
use crate::deployment::DeploymentView;
use crate::dispatch::{planned, PlanView};
use crate::isolate::{
    acquired, lemma_without_names_stays_valid, options_for, without_names, AcquiredView,
    CacheView, IsolateInitError,
};
use crate::subscriber::{affinity_after, catalog_after, evicts, refused, ControlMessageView};
use vstd::prelude::*;

verus! {

/// The state of a node: the catalog, the affinity map, and the isolate
/// cache of each worker thread.
#[verifier::ext_equal]
pub struct NodeView {
    pub catalog: CatalogView,
    pub affinity: AffinityView,
    pub caches: Seq<CacheView>,
}

/// What happens to a node.
pub enum Event {
    /// A request for `hostname` arrives. `drawn` is the index drawn for the
    /// hostname should it be unbound, `code` the deployment's code should an
    /// isolate have to be built, `None` where it cannot be loaded. A request
    /// that is turned away before it reaches a worker changes nothing and
    /// is no event.
    Request { hostname: Seq<char>, path: Seq<char>, bytes_in: u64, drawn: usize, code: Option<Seq<u8>> },
    /// A message of the control channel arrives, and every worker evicts
    /// the hostnames it names.
    Control { message: ControlMessageView },
}

/// The hostnames that the workers evict after a message: those of an
/// installed descriptor that it outdates and those that it drops, and those
/// of a deleted deployment.
pub open spec fn evicted_by(c: CatalogView, m: ControlMessageView) -> Set<Seq<char>> {
    match m {
        ControlMessageView::Create(d) => if conflicts(c, d) {
            Set::empty()
        } else {
            outdated_hostnames(c, d).to_set().union(dropped(c, d))
        },
        ControlMessageView::Update(d) => if conflicts(c, d) {
            Set::empty()
        } else {
            outdated_hostnames(c, d).to_set().union(dropped(c, d))
        },
        ControlMessageView::Delete(id) => held_by(c, id),
    }
}

/// The node at its start: the loaded catalog, no binding, and `pool_size`
/// empty caches.
pub open spec fn started(catalog: CatalogView, pool_size: nat) -> NodeView {
    NodeView {
        catalog,
        affinity: Map::empty(),
        caches: Seq::new(pool_size, |t: int| CacheView { live: Map::empty(), built: 0 }),
    }
}

/// Whether the event can happen to the node: an index is drawn from the
/// node's pool.
pub open spec fn admissible(s: NodeView, e: Event) -> bool {
    match e {
        Event::Request { drawn, .. } => drawn < s.caches.len(),
        Event::Control { .. } => true,
    }
}

/// The node after an event.
///
/// A request binds its hostname to a worker thread; where it is to be run
/// by an isolate, that worker's cache answers for it. A control message
/// changes the catalog and the affinity map, and every cache loses the
/// isolates of the hostnames to evict.
pub open spec fn step(s: NodeView, e: Event) -> NodeView {
    match e {
        Event::Request { hostname, path, bytes_in, drawn, code } => {
            let (affinity, thread) = bound(s.affinity, hostname, drawn);
            match planned(s.catalog, hostname, path, bytes_in) {
                PlanView::Isolate { deployment, labels, samples } => NodeView {
                    catalog: s.catalog,
                    affinity,
                    caches: s.caches.update(
                        thread as int,
                        acquired(s.caches[thread as int], hostname, deployment, code).0,
                    ),
                },
                _ => NodeView { catalog: s.catalog, affinity, caches: s.caches },
            }
        },
        Event::Control { message } => NodeView {
            catalog: catalog_after(s.catalog, message),
            affinity: affinity_after(s.catalog, s.affinity, message),
            caches: Seq::new(
                s.caches.len(),
                |t: int| without_names(s.caches[t], evicted_by(s.catalog, message)),
            ),
        },
    }
}

/// The node after a history of events.
pub open spec fn run(s: NodeView, history: Seq<Event>) -> NodeView
    decreases history.len(),
{
    if history.len() == 0 {
        s
    } else {
        step(run(s, history.drop_last()), history.last())
    }
}

/// Whether each event of the history can happen when its turn comes.
pub open spec fn feasible(s: NodeView, history: Seq<Event>) -> bool
    decreases history.len(),
{
    if history.len() == 0 {
        true
    } else {
        feasible(s, history.drop_last()) && admissible(
            run(s, history.drop_last()),
            history.last(),
        )
    }
}

/// Worker `thread` holds an isolate for `hostname`.
pub open spec fn cached(s: NodeView, thread: int, hostname: Seq<char>) -> bool {
    0 <= thread < s.caches.len() && s.caches[thread].live.contains_key(hostname)
}

/// What holds of a node at all times:
/// - it has a worker, and every bound hostname is bound to one of its
///   workers;
/// - every cache numbers its isolates apart;
/// - an isolate of a hostname lives on the worker that the hostname is
///   bound to, and nowhere else;
/// - an isolate of a hostname was built under the settings of the
///   deployment that the hostname resolves to.
pub open spec fn sound(s: NodeView) -> bool {
    &&& s.caches.len() > 0
    &&& forall|h: Seq<char>| s.affinity.contains_key(h) ==> 0 <= #[trigger] s.affinity[h] < s.caches.len()
    &&& forall|t: int| 0 <= t < s.caches.len() ==> (#[trigger] s.caches[t]).valid()
    &&& forall|t: int, h: Seq<char>| #[trigger]
        cached(s, t, h) ==> {
            &&& s.affinity.contains_key(h)
            &&& s.affinity[h] == t
            &&& s.catalog.contains_key(h)
            &&& s.caches[t].live[h].settings == s.catalog[h].settings()
        }
}

/// The elements of a sequence are those of its beginning and those of the
/// rest.
proof fn lemma_split_to_set<A>(s: Seq<A>, n: int)
    requires
        0 <= n <= s.len(),
    ensures
        s.to_set() == s.take(n).to_set().union(s.skip(n).to_set()),
{
    assert forall|x: A| #[trigger]
        s.to_set().contains(x) <==> s.take(n).to_set().union(s.skip(n).to_set()).contains(x) by {
        if s.contains(x) {
            let i = s.index_of(x);
            if i < n {
                assert(s.take(n)[i] == x);
            } else {
                assert(s.skip(n)[i - n] == x);
            }
        }
        if s.take(n).contains(x) {
            let i = s.take(n).index_of(x);
            assert(s[i] == x);
        }
        if s.skip(n).contains(x) {
            let i = s.skip(n).index_of(x);
            assert(s[i + n] == x);
        }
    }
    assert(s.to_set() =~= s.take(n).to_set().union(s.skip(n).to_set()));
}

/// The hostnames that applying a message returns are those that the
/// workers evict.
pub proof fn lemma_evicts_names_evicted_by(
    c: CatalogView,
    m: ControlMessageView,
    evict: Seq<Seq<char>>,
)
    requires
        !refused(c, m),
        evicts(c, m, evict),
    ensures
        evict.to_set() == evicted_by(c, m),
{
    match m {
        ControlMessageView::Create(d) => {
            lemma_split_to_set(evict, outdated_hostnames(c, d).len() as int);
        },
        ControlMessageView::Update(d) => {
            lemma_split_to_set(evict, outdated_hostnames(c, d).len() as int);
        },
        ControlMessageView::Delete(id) => {},
    }
}

/// A node is sound at its start.
pub proof fn lemma_started_is_sound(catalog: CatalogView, pool_size: nat)
    requires
        pool_size > 0,
    ensures
        sound(started(catalog, pool_size)),
{
}

/// An event leaves a sound node sound.
pub proof fn lemma_step_keeps_sound(s: NodeView, e: Event)
    requires
        sound(s),
        admissible(s, e),
    ensures
        sound(step(s, e)),
{
    let after = step(s, e);
    match e {
        Event::Request { hostname, path, bytes_in, drawn, code } => {
            let (affinity, thread) = bound(s.affinity, hostname, drawn);
            assert(0 <= thread < s.caches.len());
            match planned(s.catalog, hostname, path, bytes_in) {
                PlanView::Isolate { deployment, labels, samples } => {
                    let cache = acquired(s.caches[thread as int], hostname, deployment, code).0;
                    assert(s.caches[thread as int].valid());
                    assert(cache.valid());
                    assert forall|t: int| 0 <= t < after.caches.len() implies (
                    #[trigger] after.caches[t]).valid() by {
                        if t != thread {
                            assert(after.caches[t] == s.caches[t]);
                        }
                    }
                    assert forall|t: int, h: Seq<char>| #[trigger] cached(after, t, h) implies {
                        &&& after.affinity.contains_key(h)
                        &&& after.affinity[h] == t
                        &&& after.catalog.contains_key(h)
                        &&& after.caches[t].live[h].settings == after.catalog[h].settings()
                    } by {
                        if t == thread && h == hostname {
                            if s.caches[t].live.contains_key(h) {
                                assert(cached(s, t, h));
                            }
                        } else if t == thread {
                            assert(s.caches[t].live.contains_key(h));
                            assert(cached(s, t, h));
                        } else {
                            assert(after.caches[t] == s.caches[t]);
                            assert(cached(s, t, h));
                        }
                    }
                },
                _ => {
                    assert forall|t: int, h: Seq<char>| #[trigger] cached(after, t, h) implies {
                        &&& after.affinity.contains_key(h)
                        &&& after.affinity[h] == t
                        &&& after.catalog.contains_key(h)
                        &&& after.caches[t].live[h].settings == after.catalog[h].settings()
                    } by {
                        assert(cached(s, t, h));
                    }
                },
            }
        },
        Event::Control { message } => {
            let names = evicted_by(s.catalog, message);
            assert forall|t: int| 0 <= t < after.caches.len() implies (
            #[trigger] after.caches[t]).valid() by {
                lemma_without_names_stays_valid(s.caches[t], names);
            }
            assert forall|t: int, h: Seq<char>| #[trigger] cached(after, t, h) implies {
                &&& after.affinity.contains_key(h)
                &&& after.affinity[h] == t
                &&& after.catalog.contains_key(h)
                &&& after.caches[t].live[h].settings == after.catalog[h].settings()
            } by {
                assert(cached(s, t, h));
                assert(!names.contains(h));
                assert(after.caches[t].live[h] == s.caches[t].live[h]);
                match message {
                    ControlMessageView::Create(d) => {
                        lemma_kept_isolate_matches(s.catalog, d, h);
                    },
                    ControlMessageView::Update(d) => {
                        lemma_kept_isolate_matches(s.catalog, d, h);
                    },
                    ControlMessageView::Delete(id) => {},
                }
            }
        },
    }
}

/// A hostname of the catalog that the installation of `d` does not evict
/// resolves afterwards to a descriptor with the settings it had before.
pub proof fn lemma_kept_isolate_matches(c: CatalogView, d: DeploymentView, hostname: Seq<char>)
    requires
        c.contains_key(hostname),
        !evicted_by(c, ControlMessageView::Update(d)).contains(hostname),
    ensures
        catalog_after(c, ControlMessageView::Update(d)).contains_key(hostname),
        catalog_after(c, ControlMessageView::Update(d))[hostname].settings()
            == c[hostname].settings(),
{
    if !conflicts(c, d) && d.hostnames.contains(hostname) {
        let i = d.hostnames.index_of(hostname);
        assert(d.hostnames[i] == hostname);
        if c[hostname].settings() != d.settings() {
            assert(is_outdated(c, d)(d.hostnames[i]));
            d.hostnames.lemma_filter_contains(is_outdated(c, d), i);
        }
    }
}

/// Every state that a node reaches is sound.
pub proof fn lemma_every_state_is_sound(catalog: CatalogView, pool_size: nat, history: Seq<Event>)
    requires
        pool_size > 0,
        feasible(started(catalog, pool_size), history),
    ensures
        sound(run(started(catalog, pool_size), history)),
    decreases history.len(),
{
    if history.len() == 0 {
        lemma_started_is_sound(catalog, pool_size);
    } else {
        lemma_every_state_is_sound(catalog, pool_size, history.drop_last());
        lemma_step_keeps_sound(run(started(catalog, pool_size), history.drop_last()), history.last());
    }
}

/// A hostname has one worker thread, and keeps it for as long as it is in
/// the catalog: an event changes the binding of no hostname that the
/// catalog holds after it.
pub proof fn lemma_binding_outlives_events(s: NodeView, e: Event, hostname: Seq<char>)
    requires
        s.affinity.contains_key(hostname),
        step(s, e).catalog.contains_key(hostname),
    ensures
        step(s, e).affinity.contains_key(hostname),
        step(s, e).affinity[hostname] == s.affinity[hostname],
{
}

/// A request that an isolate is to serve finds, on the thread of its
/// hostname, an isolate built under the settings of the deployment that the
/// hostname resolves to, unless none could be built; and no other worker
/// holds an isolate for the hostname.
pub proof fn lemma_request_is_served_by_current_isolate(
    s: NodeView,
    hostname: Seq<char>,
    path: Seq<char>,
    bytes_in: u64,
    drawn: usize,
    code: Option<Seq<u8>>,
    other: int,
)
    requires
        sound(s),
        drawn < s.caches.len(),
        planned(s.catalog, hostname, path, bytes_in) is Isolate,
    ensures
        ({
            let thread = bound(s.affinity, hostname, drawn).1 as int;
            let after = step(s, Event::Request { hostname, path, bytes_in, drawn, code });
            let answer = acquired(s.caches[thread], hostname, s.catalog[hostname], code).1;
            &&& 0 <= thread < s.caches.len()
            &&& after.affinity[hostname] == thread
            &&& answer is Ok ==> cached(after, thread, hostname)
                && after.caches[thread].live[hostname].instance == answer->Ok_0.instance
                && after.caches[thread].live[hostname].settings == s.catalog[hostname].settings()
            &&& other != thread ==> !cached(after, other, hostname)
        }),
{
    let e = Event::Request { hostname, path, bytes_in, drawn, code };
    lemma_step_keeps_sound(s, e);
    let after = step(s, e);
    let thread = bound(s.affinity, hostname, drawn).1 as int;
    if s.caches[thread].live.contains_key(hostname) {
        assert(cached(s, thread, hostname));
    }
    if cached(after, other, hostname) {
        assert(after.affinity[hostname] == other);
    }
}

/// After an update that changes the settings of a hostname's deployment,
/// no worker holds an isolate for the hostname any more, so that the
/// isolate built under the old settings serves no request. The next request
/// to the hostname that an isolate is to serve has a new one built, from
/// the options of the new descriptor: an instance that its worker never
/// held. Where the worker's cache has no number left for it, the request
/// gets no isolate.
pub proof fn lemma_update_then_request_builds_anew(
    s: NodeView,
    d: DeploymentView,
    hostname: Seq<char>,
    drawn: usize,
    code: Seq<u8>,
    worker: int,
    any: Seq<char>,
)
    requires
        sound(s),
        drawn < s.caches.len(),
        !conflicts(s.catalog, d),
        d.hostnames.contains(hostname),
        s.catalog.contains_key(hostname),
        s.catalog[hostname].settings() != d.settings(),
    ensures
        ({
            let updated = step(s, Event::Control { message: ControlMessageView::Update(d) });
            let thread = bound(updated.affinity, hostname, drawn).1 as int;
            let answer = acquired(
                updated.caches[thread],
                hostname,
                updated.catalog[hostname],
                Some(code),
            ).1;
            &&& !cached(updated, worker, hostname)
            &&& updated.catalog.contains_key(hostname)
            &&& updated.catalog[hostname] == d
            &&& 0 <= thread < s.caches.len()
            &&& answer == if s.caches[thread].built < u64::MAX {
                Ok::<AcquiredView, IsolateInitError>(
                    AcquiredView {
                        instance: s.caches[thread].built,
                        fresh: Some(options_for(d, code)),
                    },
                )
            } else {
                Err::<AcquiredView, IsolateInitError>(IsolateInitError::InstancesExhausted)
            }
            &&& s.caches[thread].live.contains_key(any) ==> s.caches[thread].live[any].instance
                != s.caches[thread].built
        }),
{
    let e = Event::Control { message: ControlMessageView::Update(d) };
    lemma_step_keeps_sound(s, e);
    let updated = step(s, e);
    let i = d.hostnames.index_of(hostname);
    assert(d.hostnames[i] == hostname);
    assert(is_outdated(s.catalog, d)(d.hostnames[i]));
    d.hostnames.lemma_filter_contains(is_outdated(s.catalog, d), i);
    assert(evicted_by(s.catalog, ControlMessageView::Update(d)).contains(hostname));
    let thread = bound(updated.affinity, hostname, drawn).1 as int;
    assert(0 <= thread < s.caches.len());
    assert(s.caches[thread].valid());
}

} // verus!
