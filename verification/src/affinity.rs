//! The host-to-thread affinity map.
//!
//! An isolate cannot leave the worker thread it was built on, so every
//! request for a hostname has to reach the same worker. The first request
//! for a hostname draws a worker at random; the binding then stays until the
//! hostname is unbound. Where the operating system gives no randomness to
//! draw with, no worker is drawn and the hostname stays unbound.

use crate::table::{lemma_push_to_set, StrTable};
use rand::rngs::{OsRng, StdRng};
use rand::{Rng, SeedableRng};
use vstd::prelude::*;

verus! {

/// The number of worker threads of a node, unless it is configured otherwise.
pub const POOL_SIZE: usize = 8;

/// The affinity map as contracts see it.
pub type AffinityView = Map<Seq<char>, usize>;

/// The standard generator of `rand`. Nothing of its state is visible to
/// contracts.
#[verifier::external_type_specification]
#[verifier::external_body]
pub struct ExStdRng(StdRng);

/// Calls `SeedableRng::from_rng` of `rand` for `StdRng` on `OsRng`, which
/// seeds a new generator from the operating system and gives an error
/// where the system provides no randomness; the error becomes `None`.
/// Nothing is claimed of the generator, nor of when there is one.
#[verifier::external_body]
fn entropy_rng() -> (rng: Option<StdRng>) {
    StdRng::from_rng(OsRng).ok()
}

/// Calls `Rng::gen_range` of `rand` on the range `0..bound`. The claim is
/// that the value lies in the range; which value it is depends on the
/// generator. `gen_range` panics on an empty range, which `requires` leaves
/// out.
#[verifier::external_body]
fn index_below(rng: &mut StdRng, bound: usize) -> (index: usize)
    requires
        bound > 0,
    ensures
        index < bound,
{
    rng.gen_range(0..bound)
}

/// Draws the index of a worker thread of a pool of `pool_size` threads from
/// a generator seeded by the operating system. There is no index where the
/// system gives no seed.
pub fn draw_index(pool_size: usize) -> (index: Option<usize>)
    requires
        pool_size > 0,
    ensures
        index matches Some(i) ==> i < pool_size,
{
    match entropy_rng() {
        Some(mut rng) => Some(index_below(&mut rng, pool_size)),
        None => None,
    }
}

/// What binding `hostname` does when `drawn` is the index drawn for it: a
/// hostname that is bound keeps its index and the draw is discarded; an
/// unbound one is bound to `drawn`. Gives the map afterwards and the
/// hostname's index.
pub open spec fn bound(m: AffinityView, hostname: Seq<char>, drawn: usize) -> (AffinityView, usize) {
    if m.contains_key(hostname) {
        (m, m[hostname])
    } else {
        (m.insert(hostname, drawn), drawn)
    }
}

/// Every index of the map names a thread of a pool of `pool_size` threads.
pub open spec fn within(m: AffinityView, pool_size: usize) -> bool {
    forall|h: Seq<char>| m.contains_key(h) ==> #[trigger] m[h] < pool_size
}

/// Of two requests that bind the same hostname the second observes the
/// binding of the first: it gets the same index, and the map holds one
/// binding for the hostname, whatever either of them drew.
pub proof fn lemma_second_bind_observes_first(
    m: AffinityView,
    hostname: Seq<char>,
    first: usize,
    second: usize,
)
    ensures
        bound(bound(m, hostname, first).0, hostname, second) == bound(m, hostname, first),
        bound(m, hostname, first).0.contains_key(hostname),
{
}

/// Binding a hostname changes the index of no hostname that was bound
/// before, and binds no other hostname.
pub proof fn lemma_bind_keeps_bindings(
    m: AffinityView,
    hostname: Seq<char>,
    drawn: usize,
    other: Seq<char>,
)
    ensures
        m.contains_key(other) ==> bound(m, hostname, drawn).0.contains_key(other) && bound(
            m,
            hostname,
            drawn,
        ).0[other] == m[other],
        other != hostname ==> (bound(m, hostname, drawn).0.contains_key(other) <==> m.contains_key(
            other,
        )),
{
}

/// Binding with an index of the pool keeps every index within the pool.
pub proof fn lemma_bind_stays_within(
    m: AffinityView,
    hostname: Seq<char>,
    drawn: usize,
    pool_size: usize,
)
    requires
        within(m, pool_size),
        drawn < pool_size,
    ensures
        within(bound(m, hostname, drawn).0, pool_size),
        bound(m, hostname, drawn).1 < pool_size,
{
}

/// The map from hostname to worker-thread index.
#[derive(Debug)]
pub struct AffinityMap {
    pool_size: usize,
    indices: StrTable<usize>,
}

impl View for AffinityMap {
    type V = AffinityView;

    closed spec fn view(&self) -> AffinityView {
        self.indices@
    }
}

impl AffinityMap {
    #[verifier::type_invariant]
    spec fn inv(&self) -> bool {
        self.pool_size > 0 && within(self.indices@, self.pool_size)
    }

    /// The number of worker threads that the map shards over.
    pub closed spec fn threads(&self) -> usize {
        self.pool_size
    }

    /// The empty map over a pool of `pool_size` threads.
    pub fn new(pool_size: usize) -> (map: Self)
        requires
            pool_size > 0,
        ensures
            map@ == Map::<Seq<char>, usize>::empty(),
            map.threads() == pool_size,
    {
        AffinityMap { pool_size, indices: StrTable::new() }
    }

    /// The number of worker threads that the map shards over.
    pub fn pool_size(&self) -> (n: usize)
        ensures
            n == self.threads(),
            n > 0,
            within(self@, n),
    {
        proof {
            use_type_invariant(self);
        }
        self.pool_size
    }

    /// The number of bound hostnames.
    pub fn len(&self) -> (n: usize)
        ensures
            n == self@.len(),
            self@.dom().finite(),
    {
        self.indices.len()
    }

    /// The worker thread that `hostname` is bound to.
    pub fn lookup(&self, hostname: &str) -> (index: Option<usize>)
        ensures
            index == if self@.contains_key(hostname@) {
                Some(self@[hostname@])
            } else {
                None::<usize>
            },
            index matches Some(i) ==> i < self.threads(),
    {
        proof {
            use_type_invariant(self);
        }
        match self.indices.get(hostname) {
            Some(index) => Some(*index),
            None => None,
        }
    }

    /// Binds `hostname` to `drawn` unless it is bound already, and returns
    /// the index it is bound to.
    pub fn bind(&mut self, hostname: &str, drawn: usize) -> (index: usize)
        requires
            drawn < old(self).threads(),
        ensures
            (final(self)@, index) == bound(old(self)@, hostname@, drawn),
            final(self).threads() == old(self).threads(),
            index < final(self).threads(),
    {
        proof {
            use_type_invariant(&*self);
        }
        match self.indices.get(hostname) {
            Some(index) => *index,
            None => {
                let mut indices: StrTable<usize> = StrTable::new();
                core::mem::swap(&mut self.indices, &mut indices);
                indices.insert(hostname.to_owned(), drawn);
                self.indices = indices;
                drawn
            },
        }
    }

    /// The worker thread of `hostname`: the one it is bound to, or one drawn
    /// at random, to which it is bound from now on. A bound hostname always
    /// has its thread; an unbound one has none where no index could be
    /// drawn, and then stays unbound.
    pub fn resolve(&mut self, hostname: &str) -> (index: Option<usize>)
        ensures
            final(self).threads() == old(self).threads(),
            match index {
                Some(i) => {
                    &&& (final(self)@, i) == bound(old(self)@, hostname@, i)
                    &&& i < old(self).threads()
                },
                None => final(self)@ == old(self)@ && !old(self)@.contains_key(hostname@),
            },
    {
        match self.lookup(hostname) {
            Some(index) => Some(index),
            None => {
                match draw_index(self.pool_size()) {
                    Some(drawn) => Some(self.bind(hostname, drawn)),
                    None => None,
                }
            },
        }
    }

    /// Takes the binding of `hostname` out of the map.
    pub fn unbind(&mut self, hostname: &str)
        ensures
            final(self)@ == old(self)@.remove(hostname@),
            final(self).threads() == old(self).threads(),
    {
        proof {
            use_type_invariant(&*self);
        }
        let mut indices: StrTable<usize> = StrTable::new();
        core::mem::swap(&mut self.indices, &mut indices);
        indices.remove(hostname);
        self.indices = indices;
    }
}

impl AffinityMap {
    /// Takes the binding of each hostname of the list out of the map.
    pub fn unbind_each(&mut self, hostnames: &Vec<String>)
        ensures
            final(self)@ == old(self)@.remove_keys(hostnames.deep_view().to_set()),
            final(self).threads() == old(self).threads(),
    {
        let ghost names = hostnames.deep_view();
        let ghost before = self@;
        let mut k: usize = 0;
        assert(names.take(0) =~= Seq::<Seq<char>>::empty());
        assert(self@ =~= before.remove_keys(names.take(0).to_set()));
        while k < hostnames.len()
            invariant
                k <= hostnames@.len(),
                names == hostnames.deep_view(),
                self@ == before.remove_keys(names.take(k as int).to_set()),
                self.threads() == old(self).threads(),
            decreases hostnames@.len() - k,
        {
            let ghost done = names.take(k as int);
            let ghost next = hostnames@[k as int]@;
            proof {
                assert(names.take(k + 1) =~= done.push(next));
                lemma_push_to_set(done, next);
            }
            self.unbind(hostnames[k].as_str());
            assert(self@ =~= before.remove_keys(done.to_set().insert(next)));
            k += 1;
        }
        assert(names.take(k as int) =~= names);
    }
}

impl Default for AffinityMap {
    fn default() -> (map: Self)
        ensures
            map@ == Map::<Seq<char>, usize>::empty(),
            map.threads() == POOL_SIZE,
    {
        AffinityMap::new(POOL_SIZE)
    }
}

} // verus!
