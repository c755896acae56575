//! Laws of the registry model.
//!
//! Public proof functions stating how the registry operations behave over
//! the map model: the consistency invariant is preserved by every
//! successful operation, creation appends to the creator's query result,
//! awards appear in the collector's query result, and a repeated award
//! changes nothing.

use vstd::prelude::*;

use crate::model::BadgeView;
use crate::model::RegistryView;
use crate::model::collected_badges;
use crate::model::collected_names;
use crate::model::create_allowed;
use crate::model::create_effect;
use crate::model::created_badges;
use crate::model::created_names;
use crate::model::registry_inv;
use crate::model::reward_allowed;
use crate::model::reward_effect;

verus! {

/// A successful creation preserves the consistency of the three maps.
pub proof fn lemma_create_preserves_inv(
    v: RegistryView,
    name: Seq<char>,
    url: Seq<char>,
    caller: Seq<char>,
)
    requires
        registry_inv(v),
        create_allowed(v, name),
    ensures
        registry_inv(create_effect(v, name, url, caller)),
{
    let w = create_effect(v, name, url, caller);
    let created = created_names(v, caller);
    let b = (BadgeView { name, url, owner: caller });

    assert forall|a: Seq<char>| #[trigger] v.owners.dom().contains(a)
        implies !v.owners[a].contains(name) by {
        if v.owners[a].contains(name) {
            let i = choose|i: int| 0 <= i < v.owners[a].len() && v.owners[a][i] == name;
            assert(v.badges.dom().contains(v.owners[a][i]));
        }
    }
    assert(!created.contains(name));
    if v.owners.dom().contains(caller) {
        assert(created.no_duplicates());
    }

    assert forall|n: Seq<char>| #[trigger] w.badges.dom().contains(n) implies {
        &&& w.badges[n].name == n
        &&& w.owners.dom().contains(w.badges[n].owner)
        &&& w.owners[w.badges[n].owner].contains(n)
    } by {
        if n == name {
            assert(w.badges[n] == b);
            assert(w.owners[caller] == created.push(name));
            assert(created.push(name)[created.len() as int] == name);
            assert(w.owners[caller].contains(name));
        } else {
            assert(v.badges.dom().contains(n));
            let o = v.badges[n].owner;
            assert(v.owners.dom().contains(o));
            assert(v.owners[o].contains(n));
            if o == caller {
                assert(created == v.owners[caller]);
                let i = choose|i: int| 0 <= i < created.len() && created[i] == n;
                assert(created.push(name)[i] == n);
                assert(w.owners[caller].contains(n));
            } else {
                assert(w.owners[o] == v.owners[o]);
            }
        }
    }

    assert forall|a: Seq<char>| #[trigger] w.owners.dom().contains(a) implies {
        &&& forall|i: int| 0 <= i < w.owners[a].len() ==> {
            &&& w.badges.dom().contains(#[trigger] w.owners[a][i])
            &&& w.badges[w.owners[a][i]].owner == a
        }
        &&& w.owners[a].no_duplicates()
    } by {
        if a == caller {
            assert(w.owners[a] == created.push(name));
            assert forall|i: int| 0 <= i < w.owners[a].len() implies {
                &&& w.badges.dom().contains(#[trigger] w.owners[a][i])
                &&& w.badges[w.owners[a][i]].owner == a
            } by {
                if i < created.len() {
                    assert(v.owners.dom().contains(caller));
                    assert(w.owners[a][i] == created[i]);
                    assert(v.badges.dom().contains(created[i]));
                    assert(v.badges[created[i]].owner == caller);
                    assert(created[i] != name);
                    assert(w.badges[created[i]] == v.badges[created[i]]);
                } else {
                    assert(w.owners[a][i] == name);
                    assert(w.badges[name] == b);
                }
            }
            assert forall|p: int, q: int|
                0 <= p < w.owners[a].len() && 0 <= q < w.owners[a].len() && p != q
                implies w.owners[a][p] != w.owners[a][q] by {
                if p < created.len() && q < created.len() {
                    assert(created[p] != created[q]);
                } else if p == created.len() && q < created.len() {
                    if created[q] == name {
                        assert(created.contains(name));
                    }
                } else if q == created.len() && p < created.len() {
                    if created[p] == name {
                        assert(created.contains(name));
                    }
                }
            }
            assert(w.owners[a].no_duplicates());
        } else {
            assert(w.owners[a] == v.owners[a]);
            assert(v.owners.dom().contains(a));
            assert forall|i: int| 0 <= i < w.owners[a].len() implies {
                &&& w.badges.dom().contains(#[trigger] w.owners[a][i])
                &&& w.badges[w.owners[a][i]].owner == a
            } by {
                assert(v.badges.dom().contains(v.owners[a][i]));
                assert(v.badges[v.owners[a][i]].owner == a);
                assert(v.owners[a][i] != name);
                assert(w.badges[v.owners[a][i]] == v.badges[v.owners[a][i]]);
            }
            assert(w.owners[a].no_duplicates());
        }
    }

    assert forall|a: Seq<char>| #[trigger] w.collectors.dom().contains(a) implies {
        &&& forall|i: int| 0 <= i < w.collectors[a].len() ==> w.badges.dom().contains(
            #[trigger] w.collectors[a][i],
        )
        &&& w.collectors[a].no_duplicates()
    } by {
        assert(v.collectors.dom().contains(a));
        assert forall|i: int| 0 <= i < w.collectors[a].len() implies w.badges.dom().contains(
            #[trigger] w.collectors[a][i],
        ) by {
            assert(v.badges.dom().contains(v.collectors[a][i]));
        }
        assert(v.collectors[a].no_duplicates());
    }

    assert(registry_inv(w));
}

/// A successful award preserves the consistency of the three maps.
pub proof fn lemma_reward_preserves_inv(
    v: RegistryView,
    name: Seq<char>,
    collector: Seq<char>,
    caller: Seq<char>,
)
    requires
        registry_inv(v),
        reward_allowed(v, name, caller),
    ensures
        registry_inv(reward_effect(v, name, collector)),
{
    let w = reward_effect(v, name, collector);
    let had = collected_names(v, collector);

    if v.collectors.dom().contains(collector) {
        assert(had.no_duplicates());
    }

    assert forall|n: Seq<char>| #[trigger] w.badges.dom().contains(n) implies {
        &&& w.badges[n].name == n
        &&& w.owners.dom().contains(w.badges[n].owner)
        &&& w.owners[w.badges[n].owner].contains(n)
    } by {
        assert(v.badges.dom().contains(n));
    }

    assert forall|a: Seq<char>| #[trigger] w.owners.dom().contains(a) implies {
        &&& forall|i: int| 0 <= i < w.owners[a].len() ==> {
            &&& w.badges.dom().contains(#[trigger] w.owners[a][i])
            &&& w.badges[w.owners[a][i]].owner == a
        }
        &&& w.owners[a].no_duplicates()
    } by {
        assert(v.owners.dom().contains(a));
        assert forall|i: int| 0 <= i < w.owners[a].len() implies {
            &&& w.badges.dom().contains(#[trigger] w.owners[a][i])
            &&& w.badges[w.owners[a][i]].owner == a
        } by {
            assert(v.badges.dom().contains(v.owners[a][i]));
            assert(v.badges[v.owners[a][i]].owner == a);
        }
        assert(v.owners[a].no_duplicates());
    }

    assert forall|a: Seq<char>| #[trigger] w.collectors.dom().contains(a) implies {
        &&& forall|i: int| 0 <= i < w.collectors[a].len() ==> w.badges.dom().contains(
            #[trigger] w.collectors[a][i],
        )
        &&& w.collectors[a].no_duplicates()
    } by {
        if a == collector {
            assert forall|i: int| 0 <= i < w.collectors[a].len() implies w.badges.dom().contains(
                #[trigger] w.collectors[a][i],
            ) by {
                if i < had.len() {
                    assert(v.collectors.dom().contains(collector));
                    assert(w.collectors[a][i] == had[i]);
                    assert(v.badges.dom().contains(had[i]));
                } else {
                    assert(w.collectors[a][i] == name);
                }
            }
            if had.contains(name) {
                assert(w.collectors[a] == had);
            } else {
                assert(w.collectors[a] == had.push(name));
                assert forall|p: int, q: int|
                    0 <= p < w.collectors[a].len() && 0 <= q < w.collectors[a].len() && p != q
                    implies w.collectors[a][p] != w.collectors[a][q] by {
                    if p < had.len() && q < had.len() {
                        assert(had[p] != had[q]);
                    } else if p == had.len() && q < had.len() {
                        if had[q] == name {
                            assert(had.contains(name));
                        }
                    } else if q == had.len() && p < had.len() {
                        if had[p] == name {
                            assert(had.contains(name));
                        }
                    }
                }
            }
            assert(w.collectors[a].no_duplicates());
        } else {
            assert(w.collectors[a] == v.collectors[a]);
            assert(v.collectors.dom().contains(a));
            assert forall|i: int| 0 <= i < w.collectors[a].len() implies w.badges.dom().contains(
                #[trigger] w.collectors[a][i],
            ) by {
                assert(v.badges.dom().contains(v.collectors[a][i]));
            }
            assert(v.collectors[a].no_duplicates());
        }
    }

    assert(registry_inv(w));
}

/// A successful creation appends the new badge to the creator's query
/// result and leaves every other account's query result unchanged.
pub proof fn lemma_create_appends(
    v: RegistryView,
    name: Seq<char>,
    url: Seq<char>,
    caller: Seq<char>,
)
    requires
        registry_inv(v),
        create_allowed(v, name),
    ensures
        created_badges(create_effect(v, name, url, caller), caller) == created_badges(
            v,
            caller,
        ).push((BadgeView { name, url, owner: caller })),
        forall|a: Seq<char>|
            a != caller ==> created_badges(create_effect(v, name, url, caller), a)
                == created_badges(v, a),
{
    let w = create_effect(v, name, url, caller);
    let created = created_names(v, caller);
    let b = (BadgeView { name, url, owner: caller });

    assert(created_names(w, caller) == created.push(name));
    assert forall|i: int| 0 <= i < created.len() implies created[i] != name
        && w.badges[created[i]] == v.badges[created[i]] by {
        assert(v.owners.dom().contains(caller));
        assert(v.badges.dom().contains(created[i]));
    }
    assert forall|i: int| 0 <= i < created.push(name).len() implies created_badges(w, caller)[i]
        == created_badges(v, caller).push(b)[i] by {
        if i < created.len() {
            assert(created_badges(w, caller)[i] == w.badges[created[i]]);
            assert(created_badges(v, caller)[i] == v.badges[created[i]]);
        } else {
            assert(created_badges(w, caller)[i] == w.badges[name]);
        }
    }
    assert(created_badges(w, caller) =~= created_badges(v, caller).push(b));

    assert forall|a: Seq<char>| a != caller implies created_badges(w, a) == created_badges(
        v,
        a,
    ) by {
        assert(created_names(w, a) == created_names(v, a));
        assert forall|i: int| 0 <= i < created_names(v, a).len() implies created_badges(w, a)[i]
            == created_badges(v, a)[i] by {
            let n = created_names(v, a)[i];
            assert(v.owners.dom().contains(a));
            assert(v.badges.dom().contains(n));
            assert(n != name);
            assert(w.badges[n] == v.badges[n]);
        }
        assert(created_badges(w, a) =~= created_badges(v, a));
    }
}

/// A creation changes no collector's query result: only the owner index
/// grows.
pub proof fn lemma_create_keeps_collections(
    v: RegistryView,
    name: Seq<char>,
    url: Seq<char>,
    caller: Seq<char>,
)
    requires
        registry_inv(v),
        create_allowed(v, name),
    ensures
        forall|c: Seq<char>| #[trigger] collected_badges(create_effect(v, name, url, caller), c)
            == collected_badges(v, c),
{
    let w = create_effect(v, name, url, caller);
    assert forall|c: Seq<char>| #[trigger] collected_badges(w, c) == collected_badges(v, c) by {
        assert(collected_names(w, c) == collected_names(v, c));
        assert forall|i: int| 0 <= i < collected_names(v, c).len() implies collected_badges(
            w,
            c,
        )[i] == collected_badges(v, c)[i] by {
            let n = collected_names(v, c)[i];
            assert(v.collectors.dom().contains(c));
            assert(v.badges.dom().contains(n));
            assert(n != name);
            assert(w.badges[n] == v.badges[n]);
        }
        assert(collected_badges(w, c) =~= collected_badges(v, c));
    }
}

/// An award changes no account's creation query result, and no collector's
/// query result but the awarded one: only that collector's entry grows.
pub proof fn lemma_reward_keeps_others(
    v: RegistryView,
    name: Seq<char>,
    collector: Seq<char>,
    caller: Seq<char>,
)
    requires
        registry_inv(v),
        reward_allowed(v, name, caller),
    ensures
        forall|a: Seq<char>| #[trigger] created_badges(reward_effect(v, name, collector), a)
            == created_badges(v, a),
        forall|c: Seq<char>|
            c != collector ==> #[trigger] collected_badges(reward_effect(v, name, collector), c)
                == collected_badges(v, c),
{
    let w = reward_effect(v, name, collector);
    assert forall|a: Seq<char>| #[trigger] created_badges(w, a) == created_badges(v, a) by {
        assert(created_names(w, a) == created_names(v, a));
        assert forall|i: int| 0 <= i < created_names(v, a).len() implies created_badges(w, a)[i]
            == created_badges(v, a)[i] by {
            assert(w.badges == v.badges);
        }
        assert(created_badges(w, a) =~= created_badges(v, a));
    }
    assert forall|c: Seq<char>| c != collector implies #[trigger] collected_badges(w, c)
        == collected_badges(v, c) by {
        assert(collected_names(w, c) == collected_names(v, c));
        assert forall|i: int| 0 <= i < collected_names(v, c).len() implies collected_badges(
            w,
            c,
        )[i] == collected_badges(v, c)[i] by {
            assert(w.badges == v.badges);
        }
        assert(collected_badges(w, c) =~= collected_badges(v, c));
    }
}

/// A successful award appends the badge to the collector's query result,
/// unless the collector already holds it, in which case the result is
/// unchanged; either way the badge is in the result afterwards.
pub proof fn lemma_reward_collects(
    v: RegistryView,
    name: Seq<char>,
    collector: Seq<char>,
    caller: Seq<char>,
)
    requires
        registry_inv(v),
        reward_allowed(v, name, caller),
    ensures
        !collected_names(v, collector).contains(name) ==> collected_badges(
            reward_effect(v, name, collector),
            collector,
        ) == collected_badges(v, collector).push(v.badges[name]),
        collected_names(v, collector).contains(name) ==> collected_badges(
            reward_effect(v, name, collector),
            collector,
        ) == collected_badges(v, collector),
        collected_badges(reward_effect(v, name, collector), collector).contains(v.badges[name]),
{
    let w = reward_effect(v, name, collector);
    let had = collected_names(v, collector);

    if !had.contains(name) {
        assert(collected_names(w, collector) == had.push(name));
        assert forall|i: int| 0 <= i < had.push(name).len() implies collected_badges(
            w,
            collector,
        )[i] == collected_badges(v, collector).push(v.badges[name])[i] by {
            if i < had.len() {
                assert(collected_badges(w, collector)[i] == w.badges[had[i]]);
                assert(collected_badges(v, collector)[i] == v.badges[had[i]]);
            }
        }
        assert(collected_badges(w, collector) =~= collected_badges(v, collector).push(
            v.badges[name],
        ));
        assert(collected_badges(w, collector)[had.len() as int] == v.badges[name]);
        assert(collected_badges(w, collector).contains(v.badges[name]));
    } else {
        assert(collected_names(w, collector) == had);
        assert(collected_badges(w, collector) =~= collected_badges(v, collector));
        let i = choose|i: int| 0 <= i < had.len() && had[i] == name;
        assert(collected_badges(w, collector)[i] == w.badges[name]);
        assert(collected_badges(w, collector).contains(v.badges[name]));
    }
}

/// Awarding a badge a second time to the same collector changes nothing,
/// and the collector's query result lists the badge exactly once.
pub proof fn lemma_reward_idempotent(
    v: RegistryView,
    name: Seq<char>,
    collector: Seq<char>,
    caller: Seq<char>,
)
    requires
        registry_inv(v),
        reward_allowed(v, name, caller),
    ensures
        reward_allowed(reward_effect(v, name, collector), name, caller),
        reward_effect(reward_effect(v, name, collector), name, collector) == reward_effect(
            v,
            name,
            collector,
        ),
        collected_badges(reward_effect(v, name, collector), collector).contains(v.badges[name]),
        forall|i: int, j: int|
            #![trigger collected_badges(reward_effect(v, name, collector), collector)[i],
                collected_badges(reward_effect(v, name, collector), collector)[j]]
            {
                let c = collected_badges(reward_effect(v, name, collector), collector);
                0 <= i < c.len() && 0 <= j < c.len() && c[i] == v.badges[name] && c[j]
                    == v.badges[name] ==> i == j
            },
{
    let w = reward_effect(v, name, collector);
    let had = collected_names(v, collector);
    let now = collected_names(w, collector);
    lemma_reward_preserves_inv(v, name, collector, caller);
    lemma_reward_collects(v, name, collector, caller);

    if had.contains(name) {
        assert(now == had);
        assert(now.contains(name));
    } else {
        assert(now == had.push(name));
        assert(now[had.len() as int] == name);
        assert(now.contains(name));
    }
    assert(w.collectors.dom().contains(collector));
    assert(now.no_duplicates());

    assert(reward_effect(w, name, collector).collectors == w.collectors.insert(collector, now));
    assert(w.collectors.insert(collector, now) =~= w.collectors);

    let c = collected_badges(w, collector);
    assert forall|i: int, j: int|
        0 <= i < c.len() && 0 <= j < c.len() && c[i] == v.badges[name] && c[j] == v.badges[name]
        implies i == j by {
        assert(c[i] == w.badges[now[i]]);
        assert(c[j] == w.badges[now[j]]);
        assert(w.badges.dom().contains(now[i]));
        assert(w.badges[now[i]].name == now[i]);
        assert(w.badges[now[j]].name == now[j]);
        assert(v.badges[name].name == name);
        assert(now[i] == name && now[j] == name);
    }
}

/// Creation order is kept: three successive creations by the same owner
/// append their badges to the owner's query result in exactly that order.
pub proof fn lemma_creation_order(
    v: RegistryView,
    owner: Seq<char>,
    n1: Seq<char>,
    u1: Seq<char>,
    n2: Seq<char>,
    u2: Seq<char>,
    n3: Seq<char>,
    u3: Seq<char>,
)
    requires
        registry_inv(v),
        create_allowed(v, n1),
        create_allowed(create_effect(v, n1, u1, owner), n2),
        create_allowed(create_effect(create_effect(v, n1, u1, owner), n2, u2, owner), n3),
    ensures
        created_badges(
            create_effect(
                create_effect(create_effect(v, n1, u1, owner), n2, u2, owner),
                n3,
                u3,
                owner,
            ),
            owner,
        ) == created_badges(v, owner) + seq![
            (BadgeView { name: n1, url: u1, owner }),
            (BadgeView { name: n2, url: u2, owner }),
            (BadgeView { name: n3, url: u3, owner }),
        ],
{
    let v1 = create_effect(v, n1, u1, owner);
    let v2 = create_effect(v1, n2, u2, owner);
    let v3 = create_effect(v2, n3, u3, owner);
    lemma_create_appends(v, n1, u1, owner);
    lemma_create_preserves_inv(v, n1, u1, owner);
    lemma_create_appends(v1, n2, u2, owner);
    lemma_create_preserves_inv(v1, n2, u2, owner);
    lemma_create_appends(v2, n3, u3, owner);
    assert(created_badges(v3, owner) =~= created_badges(v, owner) + seq![
        (BadgeView { name: n1, url: u1, owner }),
        (BadgeView { name: n2, url: u2, owner }),
        (BadgeView { name: n3, url: u3, owner }),
    ]);
}

} // verus!
