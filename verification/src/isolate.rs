//! The isolate cache of one worker thread.
//!
//! A worker keeps at most one isolate per hostname and reuses it from
//! request to request. The cache holds what the dispatcher reads of an
//! isolate: the instance it is, counted from the cache's first construction,
//! and the settings it was built under. The script engine's own object lives
//! with the caller, under the same instance number.

use crate::deployment::{Deployment, DeploymentView, Settings, SettingsView};
use crate::table::{lemma_push_to_set, texts, StrTable};
use vstd::prelude::*;

verus! {

/// What the script engine builds an isolate from.
#[derive(Debug)]
pub struct IsolateOptions {
    pub code: Vec<u8>,
    pub environment_variables: StrTable<String>,
    pub memory_limit: u64,
    pub timeout: u64,
}

#[verifier::ext_equal]
pub struct IsolateOptionsView {
    pub code: Seq<u8>,
    pub environment_variables: Map<Seq<char>, Seq<char>>,
    pub memory_limit: u64,
    pub timeout: u64,
}

impl View for IsolateOptions {
    type V = IsolateOptionsView;

    open spec fn view(&self) -> IsolateOptionsView {
        IsolateOptionsView {
            code: self.code@,
            environment_variables: texts(self.environment_variables@),
            memory_limit: self.memory_limit,
            timeout: self.timeout,
        }
    }
}

/// The options of an isolate of deployment `d` that runs `code`.
pub open spec fn options_for(d: DeploymentView, code: Seq<u8>) -> IsolateOptionsView {
    IsolateOptionsView {
        code,
        environment_variables: d.environment_variables,
        memory_limit: d.memory_limit,
        timeout: d.timeout,
    }
}

/// A cached isolate.
#[derive(Debug)]
pub struct IsolateRecord {
    /// Which construction of this cache the isolate is.
    pub instance: u64,
    /// The settings of the deployment at the moment the isolate was built.
    pub settings: Settings,
}

#[verifier::ext_equal]
pub struct IsolateRecordView {
    pub instance: u64,
    pub settings: SettingsView,
}

impl View for IsolateRecord {
    type V = IsolateRecordView;

    open spec fn view(&self) -> IsolateRecordView {
        IsolateRecordView { instance: self.instance, settings: self.settings@ }
    }
}

/// Why no isolate could be had.
#[derive(Debug, Clone, Copy, PartialEq, Eq)]
pub enum IsolateInitError {
    /// The deployment's code could not be loaded.
    CodeUnavailable,
    /// The cache has numbered as many instances as it can count.
    InstancesExhausted,
}

/// The isolate that serves a request.
#[derive(Debug)]
pub struct Acquired {
    /// The instance that serves the request.
    pub instance: u64,
    /// The options to build that instance from, where it does not exist yet.
    pub fresh: Option<IsolateOptions>,
}

#[verifier::ext_equal]
pub struct AcquiredView {
    pub instance: u64,
    pub fresh: Option<IsolateOptionsView>,
}

impl View for Acquired {
    type V = AcquiredView;

    open spec fn view(&self) -> AcquiredView {
        AcquiredView {
            instance: self.instance,
            fresh: match self.fresh {
                Some(options) => Some(options@),
                None => None,
            },
        }
    }
}

/// The cache as contracts see it.
#[verifier::ext_equal]
pub struct CacheView {
    /// The isolate of each hostname that has one.
    pub live: Map<Seq<char>, IsolateRecordView>,
    /// How many isolates the cache has had built.
    pub built: u64,
}

impl CacheView {
    /// Every cached instance was built by this cache, and no instance serves
    /// two hostnames.
    pub open spec fn valid(self) -> bool {
        &&& forall|h: Seq<char>| self.live.contains_key(h) ==> #[trigger] self.live[h].instance
            < self.built
        &&& forall|h1: Seq<char>, h2: Seq<char>|
            self.live.contains_key(h1) && self.live.contains_key(h2) && h1 != h2
                ==> #[trigger] self.live[h1].instance != #[trigger] self.live[h2].instance
    }
}

/// The views of a map of records.
pub open spec fn records(m: Map<Seq<char>, IsolateRecord>) -> Map<Seq<char>, IsolateRecordView> {
    m.map_values(|r: IsolateRecord| r@)
}

/// What `get_or_create` does: the cache afterwards, and its answer.
///
/// A hostname that has an isolate keeps it. For one that has none, an
/// isolate is numbered and recorded with the deployment's settings, provided
/// that the code was loaded (`code` is `Some`) and the count of
/// constructions has not reached its limit; else the cache stays as it was.
pub open spec fn acquired(
    c: CacheView,
    hostname: Seq<char>,
    d: DeploymentView,
    code: Option<Seq<u8>>,
) -> (CacheView, Result<AcquiredView, IsolateInitError>) {
    if c.live.contains_key(hostname) {
        (c, Ok(AcquiredView { instance: c.live[hostname].instance, fresh: None }))
    } else {
        match code {
            None => (c, Err(IsolateInitError::CodeUnavailable)),
            Some(bytes) => if c.built == u64::MAX {
                (c, Err(IsolateInitError::InstancesExhausted))
            } else {
                (
                    CacheView {
                        live: c.live.insert(
                            hostname,
                            IsolateRecordView { instance: c.built, settings: d.settings() },
                        ),
                        built: (c.built + 1) as u64,
                    },
                    Ok(AcquiredView { instance: c.built, fresh: Some(options_for(d, bytes)) }),
                )
            },
        }
    }
}

/// The cache after the isolate of `hostname` is evicted.
pub open spec fn evicted(c: CacheView, hostname: Seq<char>) -> CacheView {
    CacheView { live: c.live.remove(hostname), built: c.built }
}

/// The cache without the isolates of `names`.
pub open spec fn without_names(c: CacheView, names: Set<Seq<char>>) -> CacheView {
    CacheView { live: c.live.remove_keys(names), built: c.built }
}

/// The cache after the hostnames of `names` are evicted one after the
/// other.
pub open spec fn evicted_each(c: CacheView, names: Seq<Seq<char>>) -> CacheView
    decreases names.len(),
{
    if names.len() == 0 {
        c
    } else {
        evicted(evicted_each(c, names.drop_last()), names.last())
    }
}

/// The instances that evicting the hostnames of `names` one after the other
/// takes out of the cache, in that order.
pub open spec fn dropped_each(c: CacheView, names: Seq<Seq<char>>) -> Seq<u64>
    decreases names.len(),
{
    if names.len() == 0 {
        Seq::empty()
    } else {
        let cache = evicted_each(c, names.drop_last());
        let dropped = dropped_each(c, names.drop_last());
        if cache.live.contains_key(names.last()) {
            dropped.push(cache.live[names.last()].instance)
        } else {
            dropped
        }
    }
}

/// A valid cache stays valid under `get_or_create`.
pub proof fn lemma_acquired_stays_valid(
    c: CacheView,
    hostname: Seq<char>,
    d: DeploymentView,
    code: Option<Seq<u8>>,
)
    requires
        c.valid(),
    ensures
        acquired(c, hostname, d, code).0.valid(),
{
}

/// A cache that loses isolates stays valid.
pub proof fn lemma_without_names_stays_valid(c: CacheView, names: Set<Seq<char>>)
    requires
        c.valid(),
    ensures
        without_names(c, names).valid(),
{
    let w = without_names(c, names);
    assert forall|h: Seq<char>| w.live.contains_key(h) implies #[trigger] w.live[h].instance
        < w.built by {
        assert(c.live.contains_key(h));
        assert(w.live[h] == c.live[h]);
    }
    assert forall|h1: Seq<char>, h2: Seq<char>|
        w.live.contains_key(h1) && w.live.contains_key(h2) && h1 != h2 implies #[trigger] w.live[h1].instance
        != #[trigger] w.live[h2].instance by {
        assert(w.live[h1] == c.live[h1]);
        assert(w.live[h2] == c.live[h2]);
    }
}

/// A valid cache stays valid under eviction.
pub proof fn lemma_evicted_stays_valid(c: CacheView, hostname: Seq<char>)
    requires
        c.valid(),
    ensures
        evicted(c, hostname).valid(),
{
    assert(evicted(c, hostname) =~= without_names(c, set![hostname]));
    lemma_without_names_stays_valid(c, set![hostname]);
}

/// Evicting hostnames one after the other takes out the isolates of all of
/// them and no other.
pub proof fn lemma_evicted_each(c: CacheView, names: Seq<Seq<char>>)
    ensures
        evicted_each(c, names) == without_names(c, names.to_set()),
    decreases names.len(),
{
    if names.len() == 0 {
        assert(names.to_set() =~= Set::<Seq<char>>::empty());
        assert(c.live.remove_keys(names.to_set()) =~= c.live);
    } else {
        let rest = names.drop_last();
        lemma_evicted_each(c, rest);
        assert(names =~= rest.push(names.last()));
        lemma_push_to_set(rest, names.last());
        assert(c.live.remove_keys(rest.to_set()).remove(names.last()) =~= c.live.remove_keys(
            names.to_set(),
        ));
    }
}

/// A hostname has at most one isolate: `get_or_create` for a hostname that
/// has one builds nothing and leaves the cache as it is, and for one that
/// has none it adds at most the isolate of that hostname.
pub proof fn lemma_one_isolate_per_hostname(
    c: CacheView,
    hostname: Seq<char>,
    d: DeploymentView,
    code: Option<Seq<u8>>,
    other: Seq<char>,
)
    ensures
        c.live.contains_key(hostname) ==> acquired(c, hostname, d, code).0 == c && acquired(
            c,
            hostname,
            d,
            code,
        ).1 == Ok::<AcquiredView, IsolateInitError>(
            AcquiredView { instance: c.live[hostname].instance, fresh: None },
        ),
        other != hostname ==> (acquired(c, hostname, d, code).0.live.contains_key(other)
            <==> c.live.contains_key(other)),
        c.live.contains_key(other) ==> acquired(c, hostname, d, code).0.live.contains_key(other)
            && acquired(c, hostname, d, code).0.live[other] == c.live[other],
{
}

/// Asking again gives the same isolate: once `get_or_create` has succeeded
/// for a hostname, a second call for it answers with the same instance,
/// builds nothing and leaves the cache as the first call left it, whether
/// or not code is at hand.
pub proof fn lemma_get_or_create_is_idempotent(
    c: CacheView,
    hostname: Seq<char>,
    d: DeploymentView,
    first_code: Option<Seq<u8>>,
    second_code: Option<Seq<u8>>,
)
    requires
        acquired(c, hostname, d, first_code).1 is Ok,
    ensures
        ({
            let (c1, r1) = acquired(c, hostname, d, first_code);
            let (c2, r2) = acquired(c1, hostname, d, second_code);
            &&& c2 == c1
            &&& r2 == Ok::<AcquiredView, IsolateInitError>(
                AcquiredView { instance: r1->Ok_0.instance, fresh: None },
            )
        }),
{
}

/// After an eviction the evicted isolate serves no more: the hostname has
/// no isolate, and the next `get_or_create` for it with code at hand
/// answers with an isolate that is none of the instances that the cache
/// held before, to be built from the options of the deployment and
/// recorded under the deployment's settings; or, where the cache has no
/// number left for it, with `InstancesExhausted` and no isolate.
pub proof fn lemma_evict_then_create_is_new(
    c: CacheView,
    hostname: Seq<char>,
    d: DeploymentView,
    code: Seq<u8>,
    any: Seq<char>,
)
    requires
        c.valid(),
    ensures
        ({
            let (c1, r1) = acquired(evicted(c, hostname), hostname, d, Some(code));
            &&& !evicted(c, hostname).live.contains_key(hostname)
            &&& c.built < u64::MAX ==> {
                &&& r1 == Ok::<AcquiredView, IsolateInitError>(
                    AcquiredView { instance: c.built, fresh: Some(options_for(d, code)) },
                )
                &&& c1.live.contains_key(hostname)
                &&& c1.live[hostname] == IsolateRecordView {
                    instance: c.built,
                    settings: d.settings(),
                }
            }
            &&& c.built == u64::MAX ==> {
                &&& r1 == Err::<AcquiredView, IsolateInitError>(
                    IsolateInitError::InstancesExhausted,
                )
                &&& c1 == evicted(c, hostname)
            }
            &&& c.live.contains_key(any) ==> c.live[any].instance != c.built
        }),
{
}

/// The isolates of one worker thread, by hostname.
#[derive(Debug)]
pub struct IsolateCache {
    live: StrTable<IsolateRecord>,
    built: u64,
}

impl View for IsolateCache {
    type V = CacheView;

    closed spec fn view(&self) -> CacheView {
        CacheView { live: records(self.live@), built: self.built }
    }
}

impl IsolateCache {
    #[verifier::type_invariant]
    spec fn inv(&self) -> bool {
        self@.valid()
    }

    /// The empty cache.
    pub fn new() -> (cache: Self)
        ensures
            cache@ == (CacheView { live: Map::empty(), built: 0 }),
            cache@.valid(),
    {
        let cache = IsolateCache { live: StrTable::new(), built: 0 };
        assert(cache@.live =~= Map::<Seq<char>, IsolateRecordView>::empty());
        cache
    }

    /// The empty cache of a worker that has had `built` isolates built
    /// before.
    pub fn numbered_from(built: u64) -> (cache: Self)
        ensures
            cache@ == (CacheView { live: Map::empty(), built }),
            cache@.valid(),
    {
        let cache = IsolateCache { live: StrTable::new(), built };
        assert(cache@.live =~= Map::<Seq<char>, IsolateRecordView>::empty());
        cache
    }

    /// The number of cached isolates.
    pub fn len(&self) -> (n: usize)
        ensures
            n == self@.live.len(),
            self@.live.dom().finite(),
            self@.valid(),
    {
        proof {
            use_type_invariant(self);
        }
        assert(self@.live.dom() =~= self.live@.dom());
        self.live.len()
    }

    /// How many isolates the cache has had built.
    pub fn constructed(&self) -> (n: u64)
        ensures
            n == self@.built,
    {
        self.built
    }

    /// The cached isolate of `hostname`.
    pub fn lookup(&self, hostname: &str) -> (found: Option<&IsolateRecord>)
        ensures
            match found {
                Some(record) => self@.live.contains_key(hostname@) && record@
                    == self@.live[hostname@],
                None => !self@.live.contains_key(hostname@),
            },
    {
        self.live.get(hostname)
    }

    /// Whether `hostname` has a cached isolate.
    pub fn contains(&self, hostname: &str) -> (found: bool)
        ensures
            found == self@.live.contains_key(hostname@),
    {
        self.live.contains_key(hostname)
    }

    /// The isolate that serves `hostname`: the cached one, or a new one to
    /// be built for `deployment` from `code`. `code` is the deployment's
    /// loaded code, `None` where loading failed; it is not looked at while
    /// the hostname has an isolate.
    pub fn get_or_create(
        &mut self,
        hostname: &str,
        deployment: &Deployment,
        code: Option<Vec<u8>>,
    ) -> (outcome: Result<Acquired, IsolateInitError>)
        ensures
            final(self)@ == acquired(old(self)@, hostname@, deployment@, view_of_code(code)).0,
            views_of_outcome(outcome) == acquired(
                old(self)@,
                hostname@,
                deployment@,
                view_of_code(code),
            ).1,
            final(self)@.valid(),
    {
        proof {
            use_type_invariant(&*self);
        }
        match self.live.get(hostname) {
            Some(record) => { return Ok(Acquired { instance: record.instance, fresh: None }); },
            None => {},
        }
        let bytes = match code {
            Some(bytes) => bytes,
            None => { return Err(IsolateInitError::CodeUnavailable); },
        };
        if self.built == u64::MAX {
            return Err(IsolateInitError::InstancesExhausted);
        }
        let instance = self.built;
        let settings = deployment.settings();
        let options = IsolateOptions {
            code: bytes,
            environment_variables: deployment.environment_variables.duplicate(),
            memory_limit: deployment.memory_limit,
            timeout: deployment.timeout,
        };
        let record = IsolateRecord { instance, settings };
        let mut live: StrTable<IsolateRecord> = StrTable::new();
        assert(records(live@) =~= Map::<Seq<char>, IsolateRecordView>::empty());
        core::mem::swap(&mut self.live, &mut live);
        self.built = instance + 1;
        let ghost before = live@;
        live.insert(hostname.to_owned(), record);
        assert(records(live@) =~= records(before).insert(hostname@, record@));
        self.live = live;
        Ok(Acquired { instance, fresh: Some(options) })
    }

    /// Takes the isolate of `hostname` out of the cache and returns its
    /// instance, for the caller to drop.
    pub fn evict(&mut self, hostname: &str) -> (dropped: Option<u64>)
        ensures
            final(self)@ == evicted(old(self)@, hostname@),
            dropped == if old(self)@.live.contains_key(hostname@) {
                Some(old(self)@.live[hostname@].instance)
            } else {
                None::<u64>
            },
            final(self)@.valid(),
    {
        proof {
            use_type_invariant(&*self);
        }
        let mut live: StrTable<IsolateRecord> = StrTable::new();
        assert(records(live@) =~= Map::<Seq<char>, IsolateRecordView>::empty());
        core::mem::swap(&mut self.live, &mut live);
        let ghost before = live@;
        let removed = live.remove(hostname);
        proof {
            assert(records(live@) =~= records(before).remove(hostname@));
            lemma_evicted_stays_valid(old(self)@, hostname@);
            assert((CacheView { live: records(live@), built: self.built }) =~= evicted(
                old(self)@,
                hostname@,
            ));
        }
        self.live = live;
        match removed {
            Some(record) => Some(record.instance),
            None => None,
        }
    }

    /// Evicts each hostname of the list, and returns the instances that
    /// this took out of the cache, for the caller to drop.
    pub fn evict_each(&mut self, hostnames: &Vec<String>) -> (dropped: Vec<u64>)
        ensures
            final(self)@ == evicted_each(old(self)@, hostnames.deep_view()),
            dropped@ == dropped_each(old(self)@, hostnames.deep_view()),
            final(self)@.valid(),
    {
        let ghost names = hostnames.deep_view();
        let mut dropped: Vec<u64> = Vec::new();
        let mut i: usize = 0;
        proof {
            use_type_invariant(&*self);
            assert(names.take(0) =~= Seq::<Seq<char>>::empty());
        }
        while i < hostnames.len()
            invariant
                i <= hostnames@.len(),
                names == hostnames.deep_view(),
                self@ == evicted_each(old(self)@, names.take(i as int)),
                dropped@ == dropped_each(old(self)@, names.take(i as int)),
                self@.valid(),
            decreases hostnames@.len() - i,
        {
            proof {
                assert(names.take(i + 1).drop_last() =~= names.take(i as int));
                assert(names.take(i + 1).last() == hostnames@[i as int]@);
            }
            match self.evict(hostnames[i].as_str()) {
                Some(instance) => {
                    dropped.push(instance);
                },
                None => {},
            }
            i += 1;
        }
        assert(names.take(i as int) =~= names);
        dropped
    }

    /// Takes every isolate out of the cache. The count of constructions
    /// goes on, so that no later instance is taken for an earlier one.
    pub fn clear_all(&mut self)
        ensures
            final(self)@ == (CacheView { live: Map::empty(), built: old(self)@.built }),
            final(self)@.valid(),
    {
        let mut live: StrTable<IsolateRecord> = StrTable::new();
        assert(records(live@) =~= Map::<Seq<char>, IsolateRecordView>::empty());
        core::mem::swap(&mut self.live, &mut live);
    }
}

/// The bytes of loaded code, if there are any.
pub open spec fn view_of_code(code: Option<Vec<u8>>) -> Option<Seq<u8>> {
    match code {
        Some(bytes) => Some(bytes@),
        None => None,
    }
}

/// The view of what `get_or_create` answers.
pub open spec fn views_of_outcome(outcome: Result<Acquired, IsolateInitError>) -> Result<
    AcquiredView,
    IsolateInitError,
> {
    match outcome {
        Ok(acquired) => Ok(acquired@),
        Err(error) => Err(error),
    }
}

} // verus!
