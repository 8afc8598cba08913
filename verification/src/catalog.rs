//! The deployment catalog: which deployment each hostname resolves to.
//!
//! A hostname resolves to at most one deployment at a time. Installing a
//! descriptor is refused while one of its hostnames belongs to another
//! deployment. Else the descriptor takes the place of its deployment: each
//! of its hostnames resolves to it, and the hostnames that the deployment
//! held and the descriptor no longer lists leave the catalog. The answer
//! names the hostnames whose cached isolates no longer match and those that
//! left; the isolates of both must be evicted.

use crate::deployment::{Deployment, DeploymentView};
use crate::table::{keys_of, lemma_map_of, lemma_push_to_set, StrTable};
use crate::text::{contains_str, str_eq};
use vstd::prelude::*;

verus! {

/// The catalog as contracts see it.
pub type CatalogView = Map<Seq<char>, DeploymentView>;

/// Why the catalog refused a descriptor.
#[derive(Debug, Clone, Copy, PartialEq, Eq)]
pub enum CatalogError {
    /// One of the descriptor's hostnames resolves to another deployment.
    HostnameConflict,
}

/// The descriptors of a map of deployments.
pub open spec fn views(m: Map<Seq<char>, Deployment>) -> CatalogView {
    m.map_values(|d: Deployment| d@)
}

/// The descriptors of a list of deployments.
pub open spec fn descriptors(list: Seq<Deployment>) -> Seq<DeploymentView> {
    Seq::new(list.len(), |i: int| list[i]@)
}

/// `hostname` resolves to a deployment other than `id`.
pub open spec fn claimed_by_other(c: CatalogView, id: Seq<char>, hostname: Seq<char>) -> bool {
    c.contains_key(hostname) && c[hostname].id != id
}

/// One of the hostnames of `d` resolves to another deployment.
pub open spec fn conflicts(c: CatalogView, d: DeploymentView) -> bool {
    exists|i: int|
        0 <= i < d.hostnames.len() && claimed_by_other(c, d.id, #[trigger] d.hostnames[i])
}

/// The catalog with every hostname of `names` bound to `d`.
pub open spec fn bound_to(c: CatalogView, names: Seq<Seq<char>>, d: DeploymentView) -> CatalogView {
    Map::new(
        |h: Seq<char>| c.contains_key(h) || names.contains(h),
        |h: Seq<char>|
            if names.contains(h) {
                d
            } else {
                c[h]
            },
    )
}

/// `hostname` resolves to deployment `id` and is none of `keep`.
pub open spec fn leaves(c: CatalogView, id: Seq<char>, keep: Seq<Seq<char>>, hostname: Seq<char>) -> bool {
    c.contains_key(hostname) && c[hostname].id == id && !keep.contains(hostname)
}

/// The hostnames that resolve to deployment `id`, but for those of `keep`.
pub open spec fn held_except(c: CatalogView, id: Seq<char>, keep: Seq<Seq<char>>) -> Set<Seq<char>> {
    Set::new(|h: Seq<char>| leaves(c, id, keep, h))
}

/// The hostnames that the deployment of `d` holds and `d` no longer lists.
pub open spec fn dropped(c: CatalogView, d: DeploymentView) -> Set<Seq<char>> {
    held_except(c, d.id, d.hostnames)
}

/// The catalog after `d` is installed: the hostnames that its deployment
/// held and `d` does not list are gone, and each hostname of `d` resolves
/// to `d`.
pub open spec fn installed(c: CatalogView, d: DeploymentView) -> CatalogView {
    bound_to(c.remove_keys(dropped(c, d)), d.hostnames, d)
}

/// An isolate cached for `hostname` was built under other settings than
/// those of `d`.
pub open spec fn outdated(c: CatalogView, d: DeploymentView, hostname: Seq<char>) -> bool {
    c.contains_key(hostname) && c[hostname].settings() != d.settings()
}

/// [`outdated`] as a predicate on hostnames.
pub open spec fn is_outdated(c: CatalogView, d: DeploymentView) -> spec_fn(Seq<char>) -> bool {
    |h: Seq<char>| outdated(c, d, h)
}

/// The hostnames of `d`, in its order, that resolved to a descriptor with
/// other settings. They stay in the catalog; their isolates are to be
/// evicted.
pub open spec fn outdated_hostnames(c: CatalogView, d: DeploymentView) -> Seq<Seq<char>> {
    d.hostnames.filter(is_outdated(c, d))
}

/// The hostnames that resolve to deployment `id`.
pub open spec fn held_by(c: CatalogView, id: Seq<char>) -> Set<Seq<char>> {
    Set::new(|h: Seq<char>| c.contains_key(h) && c[h].id == id)
}

/// The catalog without the hostnames of deployment `id`.
pub open spec fn without(c: CatalogView, id: Seq<char>) -> CatalogView {
    c.remove_keys(held_by(c, id))
}

/// The catalog that a list of descriptors loads into, installed one after
/// the other from the empty catalog; `None` where one of them conflicts with
/// those before it.
pub open spec fn loaded(list: Seq<DeploymentView>) -> Option<CatalogView>
    decreases list.len(),
{
    if list.len() == 0 {
        Some(Map::empty())
    } else {
        match loaded(list.drop_last()) {
            Some(c) => if conflicts(c, list.last()) {
                None
            } else {
                Some(installed(c, list.last()))
            },
            None => None,
        }
    }
}

/// A list whose beginning does not load does not load.
proof fn lemma_loaded_prefix(list: Seq<DeploymentView>, n: int)
    requires
        0 <= n <= list.len(),
        loaded(list.take(n)) is None,
    ensures
        loaded(list) is None,
    decreases list.len() - n,
{
    if n == list.len() {
        assert(list.take(n) =~= list);
    } else {
        assert(list.take(n + 1).drop_last() =~= list.take(n));
        lemma_loaded_prefix(list, n + 1);
    }
}

/// Filtering a sequence with one more element.
proof fn lemma_filter_push<A>(s: Seq<A>, x: A, pred: spec_fn(A) -> bool)
    ensures
        s.push(x).filter(pred) == if pred(x) {
            s.filter(pred).push(x)
        } else {
            s.filter(pred)
        },
{
    reveal(Seq::filter);
    assert(s.push(x).drop_last() =~= s);
}

/// After an installation every hostname of the descriptor resolves to it,
/// no other hostname resolves to its deployment, and every hostname of
/// another deployment resolves to what it resolved to before.
pub proof fn lemma_installed_resolves(c: CatalogView, d: DeploymentView, hostname: Seq<char>)
    ensures
        d.hostnames.contains(hostname) ==> installed(c, d).contains_key(hostname) && installed(
            c,
            d,
        )[hostname] == d,
        !d.hostnames.contains(hostname) ==> (installed(c, d).contains_key(hostname)
            <==> c.contains_key(hostname) && c[hostname].id != d.id),
        !d.hostnames.contains(hostname) && installed(c, d).contains_key(hostname) ==> installed(
            c,
            d,
        )[hostname] == c[hostname],
        installed(c, d).contains_key(hostname) && installed(c, d)[hostname].id == d.id
            ==> d.hostnames.contains(hostname),
{
}

/// Installing a descriptor is deleting its deployment and binding the
/// descriptor's hostnames.
pub proof fn lemma_installed_replaces(c: CatalogView, d: DeploymentView)
    ensures
        installed(c, d) == bound_to(without(c, d.id), d.hostnames, d),
{
    assert(installed(c, d) =~= bound_to(without(c, d.id), d.hostnames, d));
}

/// A descriptor that is installed leaves no hostname of its own with another
/// deployment: where the catalog accepts it, each of its hostnames was
/// unbound or belonged to the same deployment.
pub proof fn lemma_accepted_takes_no_hostname(c: CatalogView, d: DeploymentView, hostname: Seq<char>)
    requires
        !conflicts(c, d),
        d.hostnames.contains(hostname),
        c.contains_key(hostname),
    ensures
        c[hostname].id == d.id,
{
    let i = d.hostnames.index_of(hostname);
    assert(!claimed_by_other(c, d.id, d.hostnames[i]));
}

/// After a deletion no hostname resolves to the deployment, and every
/// hostname of another deployment resolves to what it resolved to before.
pub proof fn lemma_without_removes_all(c: CatalogView, id: Seq<char>, hostname: Seq<char>)
    ensures
        without(c, id).contains_key(hostname) ==> without(c, id)[hostname].id != id,
        without(c, id).contains_key(hostname) <==> c.contains_key(hostname) && c[hostname].id != id,
        without(c, id).contains_key(hostname) ==> without(c, id)[hostname] == c[hostname],
{
}

/// The outdated hostnames of an installation are those of the descriptor
/// that resolved to a descriptor with other settings.
pub proof fn lemma_outdated_hostnames(c: CatalogView, d: DeploymentView, hostname: Seq<char>)
    ensures
        outdated_hostnames(c, d).contains(hostname) <==> d.hostnames.contains(hostname)
            && outdated(c, d, hostname),
{
    let pred = is_outdated(c, d);
    if outdated_hostnames(c, d).contains(hostname) {
        let i = outdated_hostnames(c, d).index_of(hostname);
        d.hostnames.lemma_filter_pred(pred, i);
        d.hostnames.lemma_filter_contains_rev(pred, hostname);
    }
    if d.hostnames.contains(hostname) && outdated(c, d, hostname) {
        let i = d.hostnames.index_of(hostname);
        assert(pred(d.hostnames[i]));
        d.hostnames.lemma_filter_contains(pred, i);
    }
}

/// What an installation leaves to do.
#[derive(Debug)]
pub struct Installed {
    /// The hostnames of the descriptor whose cached isolates were built
    /// under other settings, in the descriptor's order.
    pub outdated: Vec<String>,
    /// The hostnames that left the catalog, each once.
    pub dropped: Vec<String>,
}

/// The map from hostname to deployment.
#[derive(Debug)]
pub struct Catalog {
    table: StrTable<Deployment>,
}

impl View for Catalog {
    type V = CatalogView;

    closed spec fn view(&self) -> CatalogView {
        views(self.table@)
    }
}

impl Catalog {
    /// The empty catalog.
    pub fn new() -> (catalog: Self)
        ensures
            catalog@ == Map::<Seq<char>, DeploymentView>::empty(),
    {
        let catalog = Catalog { table: StrTable::new() };
        assert(catalog@ =~= Map::<Seq<char>, DeploymentView>::empty());
        catalog
    }

    /// The number of hostnames in the catalog.
    pub fn len(&self) -> (n: usize)
        ensures
            n == self@.len(),
            self@.dom().finite(),
    {
        assert(self@.dom() =~= self.table@.dom());
        self.table.len()
    }

    /// The deployment that `hostname` resolves to.
    pub fn lookup(&self, hostname: &str) -> (found: Option<&Deployment>)
        ensures
            match found {
                Some(d) => self@.contains_key(hostname@) && d@ == self@[hostname@],
                None => !self@.contains_key(hostname@),
            },
    {
        self.table.get(hostname)
    }

    /// Whether `hostname` resolves to a deployment.
    pub fn contains(&self, hostname: &str) -> (found: bool)
        ensures
            found == self@.contains_key(hostname@),
    {
        self.table.contains_key(hostname)
    }

    /// Whether one of the hostnames of `d` resolves to another deployment.
    pub fn conflicts_with(&self, d: &Deployment) -> (conflict: bool)
        ensures
            conflict == conflicts(self@, d@),
    {
        let mut i: usize = 0;
        while i < d.hostnames.len()
            invariant
                i <= d.hostnames@.len(),
                forall|j: int| 0 <= j < i ==> !claimed_by_other(self@, d@.id, d@.hostnames[j]),
            decreases d.hostnames@.len() - i,
        {
            match self.table.get(d.hostnames[i].as_str()) {
                Some(current) => {
                    if !str_eq(current.id.as_str(), d.id.as_str()) {
                        assert(claimed_by_other(self@, d@.id, d@.hostnames[i as int]));
                        return true;
                    }
                },
                None => {},
            }
            i += 1;
        }
        false
    }

    /// The hostnames of `d` whose cached isolates its installation outdates.
    pub fn outdated_by(&self, d: &Deployment) -> (evict: Vec<String>)
        ensures
            evict.deep_view() == outdated_hostnames(self@, d@),
    {
        let mut evict: Vec<String> = Vec::new();
        let mut i: usize = 0;
        assert(d@.hostnames.take(0) =~= Seq::<Seq<char>>::empty());
        assert(evict.deep_view() =~= Seq::<Seq<char>>::empty());
        proof {
            reveal(Seq::filter);
        }
        while i < d.hostnames.len()
            invariant
                i <= d.hostnames@.len(),
                evict.deep_view() == d@.hostnames.take(i as int).filter(is_outdated(self@, d@)),
            decreases d.hostnames@.len() - i,
        {
            let hostname = &d.hostnames[i];
            let stale = match self.table.get(hostname.as_str()) {
                Some(current) => !current.same_settings(d),
                None => false,
            };
            proof {
                assert(stale == outdated(self@, d@, hostname@));
                assert(d@.hostnames.take(i + 1) =~= d@.hostnames.take(i as int).push(hostname@));
                lemma_filter_push(d@.hostnames.take(i as int), hostname@, is_outdated(self@, d@));
            }
            if stale {
                let ghost before = evict.deep_view();
                evict.push(hostname.clone());
                assert(evict.deep_view() =~= before.push(hostname@));
            }
            i += 1;
        }
        assert(d@.hostnames.take(i as int) =~= d@.hostnames);
        evict
    }

    /// Installs `d` in the place of its deployment, unless one of its
    /// hostnames resolves to another deployment: the hostnames that the
    /// deployment held and `d` does not list leave the catalog, and each
    /// hostname of `d` resolves to `d`.
    pub fn install(&mut self, d: &Deployment) -> (outcome: Result<Installed, CatalogError>)
        ensures
            match outcome {
                Ok(done) => {
                    &&& !conflicts(old(self)@, d@)
                    &&& final(self)@ == installed(old(self)@, d@)
                    &&& done.outdated.deep_view() == outdated_hostnames(old(self)@, d@)
                    &&& done.dropped.deep_view().to_set() == dropped(old(self)@, d@)
                    &&& done.dropped.deep_view().no_duplicates()
                },
                Err(error) => {
                    &&& conflicts(old(self)@, d@)
                    &&& final(self)@ == old(self)@
                    &&& error == CatalogError::HostnameConflict
                },
            },
    {
        if self.conflicts_with(d) {
            return Err(CatalogError::HostnameConflict);
        }
        let outdated = self.outdated_by(d);
        let dropped = self.take_out(d.id.as_str(), &d.hostnames);
        let ghost before = self@;
        let mut i: usize = 0;
        assert(self@ =~= bound_to(before, d@.hostnames.take(0), d@));
        while i < d.hostnames.len()
            invariant
                i <= d.hostnames@.len(),
                self@ == bound_to(before, d@.hostnames.take(i as int), d@),
            decreases d.hostnames@.len() - i,
        {
            let hostname = d.hostnames[i].clone();
            let copy = d.clone();
            let ghost table_before = self.table@;
            self.table.insert(hostname, copy);
            proof {
                let names = d@.hostnames.take(i as int);
                assert(d@.hostnames.take(i + 1) =~= names.push(hostname@));
                assert forall|h: Seq<char>| #[trigger]
                    names.push(hostname@).contains(h) <==> (h == hostname@ || names.contains(
                        h,
                    )) by {
                    vstd::seq_lib::lemma_seq_contains_after_push(names, hostname@, h);
                }
                assert(views(table_before.insert(hostname@, copy)) =~= views(table_before).insert(
                    hostname@,
                    d@,
                ));
                assert(self@ =~= bound_to(before, names.push(hostname@), d@));
            }
            i += 1;
        }
        assert(d@.hostnames.take(i as int) =~= d@.hostnames);
        Ok(Installed { outdated, dropped })
    }

    /// Takes every hostname of deployment `id` out of the catalog and returns
    /// those hostnames, each once.
    pub fn remove_deployment(&mut self, id: &str) -> (removed: Vec<String>)
        ensures
            final(self)@ == without(old(self)@, id@),
            removed.deep_view().to_set() == held_by(old(self)@, id@),
            removed.deep_view().no_duplicates(),
    {
        let keep: Vec<String> = Vec::new();
        assert(keep.deep_view() =~= Seq::<Seq<char>>::empty());
        assert(held_except(self@, id@, keep.deep_view()) =~= held_by(self@, id@));
        self.take_out(id, &keep)
    }

    /// Takes the hostnames of deployment `id` out of the catalog, but for
    /// those of `keep`, and returns the hostnames taken out, each once.
    fn take_out(&mut self, id: &str, keep: &Vec<String>) -> (removed: Vec<String>)
        ensures
            final(self)@ == old(self)@.remove_keys(held_except(old(self)@, id@, keep.deep_view())),
            removed.deep_view().to_set() == held_except(old(self)@, id@, keep.deep_view()),
            removed.deep_view().no_duplicates(),
    {
        let ghost before = self@;
        let ghost table_before = self.table@;
        let ghost kept = keep.deep_view();
        let n = self.table.len();
        let ghost bindings = self.table.bindings();
        proof {
            lemma_map_of(bindings);
        }
        let mut removed: Vec<String> = Vec::new();
        let mut i: usize = 0;
        while i < n
            invariant
                i <= n,
                n == bindings.len(),
                bindings == self.table.bindings(),
                kept == keep.deep_view(),
                keys_of(bindings).no_duplicates(),
                removed.deep_view().no_duplicates(),
                forall|x: Seq<char>|
                    removed.deep_view().contains(x) <==> exists|j: int|
                        0 <= j < i && #[trigger] bindings[j].key@ == x && bindings[j].value@.id
                            == id@ && !kept.contains(x),
            decreases n - i,
        {
            match self.table.binding_at(i) {
                Some(entry) => {
                    if str_eq(entry.value.id.as_str(), id) && !contains_str(
                        keep,
                        entry.key.as_str(),
                    ) {
                        let ghost listed = removed.deep_view();
                        proof {
                            if listed.contains(entry.key@) {
                                let j = choose|j: int|
                                    0 <= j < i && #[trigger] bindings[j].key@ == entry.key@
                                        && bindings[j].value@.id == id@ && !kept.contains(
                                        entry.key@,
                                    );
                                assert(keys_of(bindings)[j] == keys_of(bindings)[i as int]);
                            }
                        }
                        removed.push(entry.key.clone());
                        proof {
                            assert(removed.deep_view() =~= listed.push(entry.key@));
                            assert forall|x: Seq<char>|
                                removed.deep_view().contains(x) <==> exists|j: int|
                                    0 <= j < i + 1 && #[trigger] bindings[j].key@ == x
                                        && bindings[j].value@.id == id@ && !kept.contains(x) by {
                                vstd::seq_lib::lemma_seq_contains_after_push(listed, entry.key@, x);
                                if x == entry.key@ {
                                    assert(bindings[i as int].key@ == x);
                                }
                            }
                        }
                    }
                },
                None => {},
            }
            i += 1;
        }
        proof {
            assert forall|x: Seq<char>|
                removed.deep_view().to_set().contains(x) <==> held_except(
                    before,
                    id@,
                    kept,
                ).contains(x) by {
                if removed.deep_view().contains(x) {
                    let j = choose|j: int|
                        0 <= j < n && #[trigger] bindings[j].key@ == x && bindings[j].value@.id
                            == id@ && !kept.contains(x);
                    assert(table_before[bindings[j].key@] == bindings[j].value);
                }
                if held_except(before, id@, kept).contains(x) {
                    assert(keys_of(bindings).contains(x));
                    let j = keys_of(bindings).index_of(x);
                    assert(bindings[j].key@ == x);
                }
            }
            assert(removed.deep_view().to_set() =~= held_except(before, id@, kept));
        }
        let mut k: usize = 0;
        assert(removed.deep_view().take(0) =~= Seq::<Seq<char>>::empty());
        assert(self.table@ =~= table_before.remove_keys(removed.deep_view().take(0).to_set()));
        while k < removed.len()
            invariant
                k <= removed@.len(),
                self.table@ == table_before.remove_keys(
                    removed.deep_view().take(k as int).to_set(),
                ),
            decreases removed@.len() - k,
        {
            let ghost done = removed.deep_view().take(k as int);
            proof {
                assert(removed.deep_view().take(k + 1) =~= done.push(removed@[k as int]@));
                lemma_push_to_set(done, removed@[k as int]@);
            }
            self.table.remove(removed[k].as_str());
            assert(self.table@ =~= table_before.remove_keys(
                done.to_set().insert(removed@[k as int]@),
            ));
            k += 1;
        }
        assert(removed.deep_view().take(k as int) =~= removed.deep_view());
        assert(self@ =~= before.remove_keys(held_except(before, id@, kept)));
        removed
    }

    /// Loads a snapshot: installs the descriptors one after the other into
    /// an empty catalog.
    pub fn from_deployments(list: &Vec<Deployment>) -> (outcome: Result<Catalog, CatalogError>)
        ensures
            match outcome {
                Ok(catalog) => loaded(descriptors(list@)) == Some(catalog@),
                Err(error) => loaded(descriptors(list@)) is None && error
                    == CatalogError::HostnameConflict,
            },
    {
        let mut catalog = Catalog::new();
        let mut i: usize = 0;
        assert(descriptors(list@).take(0) =~= Seq::<DeploymentView>::empty());
        while i < list.len()
            invariant
                i <= list@.len(),
                loaded(descriptors(list@).take(i as int)) == Some(catalog@),
            decreases list@.len() - i,
        {
            proof {
                let upto = descriptors(list@).take(i + 1);
                assert(upto.drop_last() =~= descriptors(list@).take(i as int));
                assert(upto.last() == list@[i as int]@);
            }
            match catalog.install(&list[i]) {
                Ok(_) => {},
                Err(error) => {
                    proof {
                        lemma_loaded_prefix(descriptors(list@), i + 1);
                    }
                    return Err(error);
                },
            }
            i += 1;
        }
        assert(descriptors(list@).take(i as int) =~= descriptors(list@));
        Ok(catalog)
    }
}

} // verus!
