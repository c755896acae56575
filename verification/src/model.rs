//! The mathematical model of the registry.
//!
//! A registry is modelled as three maps: the badge catalog keyed by badge
//! name, the owner index mapping an account to the names it created (in
//! creation order), and the collector index mapping an account to the names
//! it was awarded (in award order, without duplicates). All contracts of the
//! executable registry are stated over this model.

use vstd::prelude::*;

verus! {

/// The model of a single badge: its unique name, a descriptive link, and the
/// account that created it.
pub struct BadgeView {
    pub name: Seq<char>,
    pub url: Seq<char>,
    pub owner: Seq<char>,
}

/// The model of the whole registry: the badge catalog and the two indexes.
#[verifier::ext_equal]
pub struct RegistryView {
    /// Badge name -> badge record; the canonical store.
    pub badges: Map<Seq<char>, BadgeView>,
    /// Account -> names of the badges it created, in creation order.
    pub owners: Map<Seq<char>, Seq<Seq<char>>>,
    /// Account -> names of the badges awarded to it, in award order,
    /// each name at most once.
    pub collectors: Map<Seq<char>, Seq<Seq<char>>>,
}

/// The registry every instance starts from: all three maps empty.
pub open spec fn empty_registry() -> RegistryView {
    RegistryView {
        badges: Map::empty(),
        owners: Map::empty(),
        collectors: Map::empty(),
    }
}

/// The names an account created so far, in creation order.
pub open spec fn created_names(v: RegistryView, owner: Seq<char>) -> Seq<Seq<char>> {
    if v.owners.dom().contains(owner) {
        v.owners[owner]
    } else {
        Seq::empty()
    }
}

/// The names awarded to an account so far, in award order.
pub open spec fn collected_names(v: RegistryView, collector: Seq<char>) -> Seq<Seq<char>> {
    if v.collectors.dom().contains(collector) {
        v.collectors[collector]
    } else {
        Seq::empty()
    }
}

/// Creation succeeds exactly when the name is not yet taken.
pub open spec fn create_allowed(v: RegistryView, name: Seq<char>) -> bool {
    !v.badges.dom().contains(name)
}

/// The registry after a successful creation: the badge enters the catalog
/// and its name is appended to the creator's entry of the owner index.
pub open spec fn create_effect(
    v: RegistryView,
    name: Seq<char>,
    url: Seq<char>,
    caller: Seq<char>,
) -> RegistryView {
    RegistryView {
        badges: v.badges.insert(name, BadgeView { name, url, owner: caller }),
        owners: v.owners.insert(caller, created_names(v, caller).push(name)),
        collectors: v.collectors,
    }
}

/// An award succeeds exactly when the badge exists and the caller is the
/// account that created it.
pub open spec fn reward_allowed(v: RegistryView, name: Seq<char>, caller: Seq<char>) -> bool {
    v.badges.dom().contains(name) && v.badges[name].owner == caller
}

/// The registry after a successful award: the name is appended to the
/// collector's entry of the collector index unless it is already there, in
/// which case nothing changes.
pub open spec fn reward_effect(
    v: RegistryView,
    name: Seq<char>,
    collector: Seq<char>,
) -> RegistryView {
    let had = collected_names(v, collector);
    let now = if had.contains(name) {
        had
    } else {
        had.push(name)
    };
    RegistryView { badges: v.badges, owners: v.owners, collectors: v.collectors.insert(collector, now) }
}

/// What a query for the badges an account created returns: the full badge
/// records behind the account's entry of the owner index, in creation order;
/// an empty sequence for an account that created nothing.
pub open spec fn created_badges(v: RegistryView, owner: Seq<char>) -> Seq<BadgeView> {
    created_names(v, owner).map_values(|n: Seq<char>| v.badges[n])
}

/// What a query for the badges an account collected returns: the full badge
/// records behind the account's entry of the collector index, in award
/// order; an empty sequence for an account that collected nothing.
pub open spec fn collected_badges(v: RegistryView, collector: Seq<char>) -> Seq<BadgeView> {
    collected_names(v, collector).map_values(|n: Seq<char>| v.badges[n])
}

/// Consistency of the three maps.
///
/// Every catalog entry is keyed by its badge's name and is recorded in its
/// owner's entry of the owner index; every name in either index is backed by
/// a catalog entry; the owner index lists exactly the badges the account
/// owns; and no index entry lists a name twice.
pub open spec fn registry_inv(v: RegistryView) -> bool {
    &&& forall|n: Seq<char>| #[trigger] v.badges.dom().contains(n) ==> {
        &&& v.badges[n].name == n
        &&& v.owners.dom().contains(v.badges[n].owner)
        &&& v.owners[v.badges[n].owner].contains(n)
    }
    &&& forall|a: Seq<char>| #[trigger] v.owners.dom().contains(a) ==> {
        &&& forall|i: int| 0 <= i < v.owners[a].len() ==> {
            &&& v.badges.dom().contains(#[trigger] v.owners[a][i])
            &&& v.badges[v.owners[a][i]].owner == a
        }
        &&& v.owners[a].no_duplicates()
    }
    &&& forall|a: Seq<char>| #[trigger] v.collectors.dom().contains(a) ==> {
        &&& forall|i: int| 0 <= i < v.collectors[a].len() ==> v.badges.dom().contains(
            #[trigger] v.collectors[a][i],
        )
        &&& v.collectors[a].no_duplicates()
    }
}

} // verus!
