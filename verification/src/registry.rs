//! The executable badge registry.
//!
//! The registry keeps the badge catalog and the two indexes as vectors of
//! records, looked up by linear search; the uniqueness of badge names and of
//! index accounts is part of the representation invariant. All public
//! operations are specified against the map model of `crate::model`.

use vstd::prelude::*;

use crate::model::BadgeView;
use crate::model::RegistryView;
use crate::model::collected_badges;
use crate::model::create_allowed;
use crate::model::create_effect;
use crate::model::created_badges;
use crate::model::empty_registry;
use crate::model::registry_inv;
use crate::model::reward_allowed;
use crate::model::reward_effect;
use crate::laws::lemma_create_preserves_inv;
use crate::laws::lemma_reward_preserves_inv;

verus! {

/// An immutable badge record: a globally unique name, a descriptive link,
/// and the account that created the badge.
pub struct Badge {
    pub name: String,
    pub url: String,
    pub owner: String,
}

impl View for Badge {
    type V = BadgeView;

    open spec fn view(&self) -> BadgeView {
        BadgeView { name: self.name@, url: self.url@, owner: self.owner@ }
    }
}

impl DeepView for Badge {
    type V = BadgeView;

    open spec fn deep_view(&self) -> BadgeView {
        self.view()
    }
}

impl Clone for Badge {
    /// Cloning keeps every field.
    fn clone(&self) -> (r: Badge)
        ensures
            r == *self,
    {
        Badge { name: self.name.clone(), url: self.url.clone(), owner: self.owner.clone() }
    }
}

impl Default for Badge {
    /// The default badge has every field empty.
    fn default() -> (r: Badge)
        ensures
            r@.name == Seq::<char>::empty(),
            r@.url == Seq::<char>::empty(),
            r@.owner == Seq::<char>::empty(),
    {
        Badge { name: String::new(), url: String::new(), owner: String::new() }
    }
}

/// One entry of an index: an account and the badge names recorded for it,
/// in insertion order.
struct AccountBadges {
    account: String,
    names: Vec<String>,
}

/// Whether some badge in `s` is named `n`.
spec fn has_name(s: Seq<Badge>, n: Seq<char>) -> bool {
    exists|i: int| 0 <= i < s.len() && s[i].name@ == n
}

/// The position of the badge named `n` in `s`.
spec fn name_at(s: Seq<Badge>, n: Seq<char>) -> int {
    choose|i: int| 0 <= i < s.len() && s[i].name@ == n
}

/// No two badges in `s` share a name.
spec fn names_unique(s: Seq<Badge>) -> bool {
    forall|i: int, j: int|
        0 <= i < s.len() && 0 <= j < s.len() && i != j ==> s[i].name@ != s[j].name@
}

/// The catalog map a badge vector represents.
spec fn catalog_of(s: Seq<Badge>) -> Map<Seq<char>, BadgeView> {
    Map::new(|n: Seq<char>| has_name(s, n), |n: Seq<char>| s[name_at(s, n)]@)
}

/// Whether some entry in `s` is for the account `a`.
spec fn has_account(s: Seq<AccountBadges>, a: Seq<char>) -> bool {
    exists|i: int| 0 <= i < s.len() && s[i].account@ == a
}

/// The position of the entry for the account `a` in `s`.
spec fn account_at(s: Seq<AccountBadges>, a: Seq<char>) -> int {
    choose|i: int| 0 <= i < s.len() && s[i].account@ == a
}

/// No two entries in `s` are for the same account.
spec fn accounts_unique(s: Seq<AccountBadges>) -> bool {
    forall|i: int, j: int|
        0 <= i < s.len() && 0 <= j < s.len() && i != j ==> s[i].account@ != s[j].account@
}

/// The index map an entry vector represents.
spec fn index_of(s: Seq<AccountBadges>) -> Map<Seq<char>, Seq<Seq<char>>> {
    Map::new(
        |a: Seq<char>| has_account(s, a),
        |a: Seq<char>| s[account_at(s, a)].names.deep_view(),
    )
}

/// The badge at a position of a duplicate-free vector is the catalog entry
/// for its name.
proof fn lemma_catalog_at(s: Seq<Badge>, i: int)
    requires
        names_unique(s),
        0 <= i < s.len(),
    ensures
        has_name(s, s[i].name@),
        catalog_of(s).dom().contains(s[i].name@),
        catalog_of(s)[s[i].name@] == s[i]@,
{
    assert(has_name(s, s[i].name@));
    let k = name_at(s, s[i].name@);
    assert(0 <= k < s.len() && s[k].name@ == s[i].name@);
    if k != i {
        assert(s[k].name@ != s[i].name@);
    }
}

/// Appending a badge with a fresh name inserts it into the catalog and
/// keeps names unique.
proof fn lemma_catalog_push(s: Seq<Badge>, b: Badge)
    requires
        names_unique(s),
        !has_name(s, b.name@),
    ensures
        names_unique(s.push(b)),
        catalog_of(s.push(b)) =~= catalog_of(s).insert(b.name@, b@),
{
    let t = s.push(b);
    assert forall|i: int| 0 <= i < s.len() implies s[i].name@ != b.name@ by {
        if s[i].name@ == b.name@ {
            assert(has_name(s, b.name@));
        }
    }
    assert forall|i: int, j: int|
        0 <= i < t.len() && 0 <= j < t.len() && i != j implies t[i].name@ != t[j].name@ by {
        if i < s.len() && j < s.len() {
            assert(s[i].name@ != s[j].name@);
        } else if i == s.len() {
            assert(t[i] == b);
            assert(t[j] == s[j]);
        } else {
            assert(t[j] == b);
            assert(t[i] == s[i]);
        }
    }
    assert(names_unique(t));
    let m1 = catalog_of(t);
    let m2 = catalog_of(s).insert(b.name@, b@);
    assert forall|n: Seq<char>| #[trigger] m1.dom().contains(n) implies m2.dom().contains(n)
        && m1[n] == m2[n] by {
        let k = name_at(t, n);
        assert(0 <= k < t.len() && t[k].name@ == n);
        if n == b.name@ {
            if k < s.len() {
                assert(s[k].name@ != b.name@);
            }
            assert(t[k] == b);
            assert(m1[n] == b@);
        } else {
            assert(k < s.len());
            assert(t[k] == s[k]);
            assert(has_name(s, n));
            let k2 = name_at(s, n);
            assert(0 <= k2 < s.len() && s[k2].name@ == n);
            if k2 != k {
                assert(s[k2].name@ != s[k].name@);
            }
            assert(m1[n] == s[k]@);
            assert(m2[n] == s[k2]@);
        }
    }
    assert forall|n: Seq<char>| #[trigger] m2.dom().contains(n) implies m1.dom().contains(n) by {
        if n == b.name@ {
            assert(t[s.len() as int].name@ == n);
            assert(has_name(t, n));
        } else {
            let k = name_at(s, n);
            assert(0 <= k < s.len() && s[k].name@ == n);
            assert(t[k].name@ == n);
            assert(has_name(t, n));
        }
    }
    assert(m1 =~= m2);
}

/// The entry at a position of a duplicate-free vector is the index entry
/// for its account.
proof fn lemma_index_at(s: Seq<AccountBadges>, i: int)
    requires
        accounts_unique(s),
        0 <= i < s.len(),
    ensures
        has_account(s, s[i].account@),
        index_of(s).dom().contains(s[i].account@),
        index_of(s)[s[i].account@] == s[i].names.deep_view(),
{
    assert(has_account(s, s[i].account@));
    let k = account_at(s, s[i].account@);
    assert(0 <= k < s.len() && s[k].account@ == s[i].account@);
    if k != i {
        assert(s[k].account@ != s[i].account@);
    }
}

/// Appending an entry for a fresh account inserts it into the index and
/// keeps accounts unique.
proof fn lemma_index_push(s: Seq<AccountBadges>, e: AccountBadges)
    requires
        accounts_unique(s),
        !has_account(s, e.account@),
    ensures
        accounts_unique(s.push(e)),
        index_of(s.push(e)) =~= index_of(s).insert(e.account@, e.names.deep_view()),
{
    let t = s.push(e);
    assert forall|i: int| 0 <= i < s.len() implies s[i].account@ != e.account@ by {
        if s[i].account@ == e.account@ {
            assert(has_account(s, e.account@));
        }
    }
    assert forall|i: int, j: int|
        0 <= i < t.len() && 0 <= j < t.len() && i != j implies t[i].account@ != t[j].account@ by {
        if i < s.len() && j < s.len() {
            assert(s[i].account@ != s[j].account@);
        } else if i == s.len() {
            assert(t[i] == e);
            assert(t[j] == s[j]);
        } else {
            assert(t[j] == e);
            assert(t[i] == s[i]);
        }
    }
    assert(accounts_unique(t));
    let m1 = index_of(t);
    let m2 = index_of(s).insert(e.account@, e.names.deep_view());
    assert forall|a: Seq<char>| #[trigger] m1.dom().contains(a) implies m2.dom().contains(a)
        && m1[a] == m2[a] by {
        let k = account_at(t, a);
        assert(0 <= k < t.len() && t[k].account@ == a);
        if a == e.account@ {
            if k < s.len() {
                assert(s[k].account@ != e.account@);
            }
            assert(t[k] == e);
        } else {
            assert(k < s.len());
            assert(t[k] == s[k]);
            assert(has_account(s, a));
            let k2 = account_at(s, a);
            assert(0 <= k2 < s.len() && s[k2].account@ == a);
            if k2 != k {
                assert(s[k2].account@ != s[k].account@);
            }
        }
    }
    assert forall|a: Seq<char>| #[trigger] m2.dom().contains(a) implies m1.dom().contains(a) by {
        if a == e.account@ {
            assert(t[s.len() as int].account@ == a);
            assert(has_account(t, a));
        } else {
            let k = account_at(s, a);
            assert(0 <= k < s.len() && s[k].account@ == a);
            assert(t[k].account@ == a);
            assert(has_account(t, a));
        }
    }
    assert(m1 =~= m2);
}

/// Replacing the entry at a position with one for the same account updates
/// that account's index entry and keeps accounts unique.
proof fn lemma_index_update(s: Seq<AccountBadges>, i: int, e: AccountBadges)
    requires
        accounts_unique(s),
        0 <= i < s.len(),
        e.account@ == s[i].account@,
    ensures
        accounts_unique(s.update(i, e)),
        index_of(s.update(i, e)) =~= index_of(s).insert(e.account@, e.names.deep_view()),
{
    let t = s.update(i, e);
    assert forall|p: int, q: int|
        0 <= p < t.len() && 0 <= q < t.len() && p != q implies t[p].account@ != t[q].account@ by {
        assert(s[p].account@ != s[q].account@);
        if p == i {
            assert(t[p] == e && t[q] == s[q]);
        } else if q == i {
            assert(t[q] == e && t[p] == s[p]);
        } else {
            assert(t[p] == s[p] && t[q] == s[q]);
        }
    }
    assert(accounts_unique(t));
    let m1 = index_of(t);
    let m2 = index_of(s).insert(e.account@, e.names.deep_view());
    assert forall|a: Seq<char>| #[trigger] m1.dom().contains(a) implies m2.dom().contains(a)
        && m1[a] == m2[a] by {
        let k = account_at(t, a);
        assert(0 <= k < t.len() && t[k].account@ == a);
        if k == i {
            assert(t[k] == e);
            assert(s[k].account@ == a);
            assert(has_account(s, a));
        } else {
            assert(t[k] == s[k]);
            assert(has_account(s, a));
            if a == e.account@ {
                assert(s[k].account@ != s[i].account@);
                assert(false);
            }
            let k2 = account_at(s, a);
            assert(0 <= k2 < s.len() && s[k2].account@ == a);
            if k2 != k {
                assert(s[k2].account@ != s[k].account@);
            }
        }
    }
    assert forall|a: Seq<char>| #[trigger] m2.dom().contains(a) implies m1.dom().contains(a) by {
        if a == e.account@ {
            assert(t[i].account@ == a);
            assert(has_account(t, a));
        } else {
            let k = account_at(s, a);
            assert(0 <= k < s.len() && s[k].account@ == a);
            assert(k != i);
            assert(t[k].account@ == a);
            assert(has_account(t, a));
        }
    }
    assert(m1 =~= m2);
}

/// The position of the badge named `name`, if any.
fn find_badge(badges: &Vec<Badge>, name: &String) -> (r: Option<usize>)
    ensures
        match r {
            Some(i) => i < badges@.len() && badges@[i as int].name@ == name@,
            None => !has_name(badges@, name@),
        },
{
    let mut i: usize = 0;
    while i < badges.len()
        invariant
            i <= badges@.len(),
            forall|j: int| 0 <= j < i ==> badges@[j].name@ != name@,
        decreases badges@.len() - i,
    {
        if badges[i].name == *name {
            return Some(i);
        }
        i = i + 1;
    }
    None
}

/// The position of the entry for `account`, if any.
fn find_account(entries: &Vec<AccountBadges>, account: &String) -> (r: Option<usize>)
    ensures
        match r {
            Some(i) => i < entries@.len() && entries@[i as int].account@ == account@,
            None => !has_account(entries@, account@),
        },
{
    let mut i: usize = 0;
    while i < entries.len()
        invariant
            i <= entries@.len(),
            forall|j: int| 0 <= j < i ==> entries@[j].account@ != account@,
        decreases entries@.len() - i,
    {
        if entries[i].account == *account {
            return Some(i);
        }
        i = i + 1;
    }
    None
}

/// Whether `names` lists `name`.
fn contains_name(names: &Vec<String>, name: &String) -> (r: bool)
    ensures
        r == names.deep_view().contains(name@),
{
    let mut i: usize = 0;
    while i < names.len()
        invariant
            i <= names@.len(),
            forall|j: int| 0 <= j < i ==> names@[j]@ != name@,
        decreases names@.len() - i,
    {
        if names[i] == *name {
            proof {
                assert(names.deep_view()[i as int] == name@);
            }
            return true;
        }
        i = i + 1;
    }
    proof {
        assert forall|j: int| 0 <= j < names.deep_view().len()
            implies names.deep_view()[j] != name@ by {
            assert(names.deep_view()[j] == names@[j]@);
        }
    }
    false
}

/// The full records behind a list of names, each looked up in the catalog.
fn collect_records(badges: &Vec<Badge>, names: &Vec<String>) -> (r: Vec<Badge>)
    requires
        names_unique(badges@),
        forall|j: int| 0 <= j < names@.len() ==> has_name(badges@, #[trigger] names@[j]@),
    ensures
        r.deep_view() == names.deep_view().map_values(|n: Seq<char>| catalog_of(badges@)[n]),
{
    let mut out: Vec<Badge> = Vec::new();
    let mut k: usize = 0;
    while k < names.len()
        invariant
            names_unique(badges@),
            forall|j: int| 0 <= j < names@.len() ==> has_name(badges@, #[trigger] names@[j]@),
            k <= names@.len(),
            out.deep_view().len() == k,
            forall|j: int| 0 <= j < k ==> out.deep_view()[j] == catalog_of(badges@)[
                #[trigger] names@[j]@
            ],
        decreases names@.len() - k,
    {
        match find_badge(badges, &names[k]) {
            Some(bi) => {
                proof {
                    lemma_catalog_at(badges@, bi as int);
                }
                out.push(badges[bi].clone());
            },
            None => {
                proof {
                    assert(has_name(badges@, names@[k as int]@));
                    assert(false);
                }
            },
        }
        k = k + 1;
    }
    proof {
        assert(out.deep_view() =~= names.deep_view().map_values(
            |n: Seq<char>| catalog_of(badges@)[n],
        ));
    }
    out
}

/// The badge registry: the badge catalog together with the owner and
/// collector indexes.
pub struct BadgeCollection {
    badges: Vec<Badge>,
    owners: Vec<AccountBadges>,
    collectors: Vec<AccountBadges>,
}

impl View for BadgeCollection {
    type V = RegistryView;

    closed spec fn view(&self) -> RegistryView {
        RegistryView {
            badges: catalog_of(self.badges@),
            owners: index_of(self.owners@),
            collectors: index_of(self.collectors@),
        }
    }
}

impl BadgeCollection {
    /// The representation is well formed: badge names and index accounts
    /// are unique, and the represented maps satisfy the registry
    /// consistency invariant.
    pub closed spec fn wf(self) -> bool {
        &&& names_unique(self.badges@)
        &&& accounts_unique(self.owners@)
        &&& accounts_unique(self.collectors@)
        &&& registry_inv(self@)
    }

    /// A well-formed registry satisfies the consistency invariant of its
    /// map model.
    pub proof fn lemma_wf_inv(self)
        requires
            self.wf(),
        ensures
            registry_inv(self@),
    {
    }

    /// A fresh registry with no badges and empty indexes.
    pub fn new() -> (r: BadgeCollection)
        ensures
            r.wf(),
            r@ == empty_registry(),
    {
        let r = BadgeCollection { badges: Vec::new(), owners: Vec::new(), collectors: Vec::new() };
        proof {
            assert(r@.badges =~= empty_registry().badges);
            assert(r@.owners =~= empty_registry().owners);
            assert(r@.collectors =~= empty_registry().collectors);
        }
        r
    }

    /// Creates the badge `name` owned by `caller`, unless the name is
    /// already taken.
    ///
    /// On success the badge enters the catalog and the creator's entry of
    /// the owner index; on conflict nothing changes.
    pub fn create_badge(&mut self, name: String, url: String, caller: String) -> (r: bool)
        requires
            old(self).wf(),
        ensures
            final(self).wf(),
            r == create_allowed(old(self)@, name@),
            r ==> final(self)@ == create_effect(old(self)@, name@, url@, caller@),
            !r ==> *final(self) == *old(self),
    {
        match find_badge(&self.badges, &name) {
            Some(i) => {
                proof {
                    assert(self.badges@[i as int].name@ == name@);
                    assert(has_name(self.badges@, name@));
                }
                return false;
            },
            None => {},
        }
        let ghost v0 = self@;
        let ghost badges0 = self.badges@;
        let ghost owners0 = self.owners@;
        let badge = Badge { name: name.clone(), url, owner: caller.clone() };
        proof {
            lemma_catalog_push(badges0, badge);
        }
        self.badges.push(badge);
        match find_account(&self.owners, &caller) {
            Some(i) => {
                proof {
                    lemma_index_at(owners0, i as int);
                }
                self.owners[i].names.push(name);
                proof {
                    lemma_index_update(owners0, i as int, self.owners@[i as int]);
                    assert(self.owners@[i as int].names.deep_view() =~= owners0[i as int]
                        .names.deep_view().push(name@));
                }
            },
            None => {
                let mut first: Vec<String> = Vec::new();
                first.push(name);
                let entry = AccountBadges { account: caller, names: first };
                proof {
                    lemma_index_push(owners0, entry);
                    assert(entry.names.deep_view() =~= Seq::<Seq<char>>::empty().push(
                        entry.names.deep_view()[0],
                    ));
                }
                self.owners.push(entry);
            },
        }
        proof {
            assert(self@.badges == create_effect(v0, name@, url@, caller@).badges);
            assert(self@.owners == create_effect(v0, name@, url@, caller@).owners);
            assert(self@.collectors == create_effect(v0, name@, url@, caller@).collectors);
            assert(self@ == create_effect(v0, name@, url@, caller@));
            lemma_create_preserves_inv(v0, name@, url@, caller@);
        }
        true
    }

    /// Awards the badge `name` to `collector`, provided the badge exists
    /// and `caller` is the account that created it.
    ///
    /// On success the name enters the collector's entry of the collector
    /// index unless it is already there; on failure nothing changes.
    pub fn reward_badge(&mut self, name: String, collector: String, caller: String) -> (r: bool)
        requires
            old(self).wf(),
        ensures
            final(self).wf(),
            r == reward_allowed(old(self)@, name@, caller@),
            r ==> final(self)@ == reward_effect(old(self)@, name@, collector@),
            !r ==> *final(self) == *old(self),
    {
        let i = match find_badge(&self.badges, &name) {
            Some(i) => i,
            None => {
                return false;
            },
        };
        proof {
            lemma_catalog_at(self.badges@, i as int);
        }
        if !(self.badges[i].owner == caller) {
            return false;
        }
        let ghost v0 = self@;
        let ghost collectors0 = self.collectors@;
        match find_account(&self.collectors, &collector) {
            Some(j) => {
                proof {
                    lemma_index_at(collectors0, j as int);
                }
                if contains_name(&self.collectors[j].names, &name) {
                    proof {
                        assert(v0.collectors.insert(
                            collector@,
                            crate::model::collected_names(v0, collector@),
                        ) =~= v0.collectors);
                        lemma_reward_preserves_inv(v0, name@, collector@, caller@);
                    }
                    return true;
                }
                self.collectors[j].names.push(name);
                proof {
                    lemma_index_update(collectors0, j as int, self.collectors@[j as int]);
                    assert(self.collectors@[j as int].names.deep_view() =~= collectors0[
                        j as int
                    ].names.deep_view().push(name@));
                }
            },
            None => {
                let mut first: Vec<String> = Vec::new();
                first.push(name);
                let entry = AccountBadges { account: collector, names: first };
                proof {
                    lemma_index_push(collectors0, entry);
                    assert(entry.names.deep_view() =~= Seq::<Seq<char>>::empty().push(
                        entry.names.deep_view()[0],
                    ));
                }
                self.collectors.push(entry);
            },
        }
        proof {
            assert(self@.badges == reward_effect(v0, name@, collector@).badges);
            assert(self@.owners == reward_effect(v0, name@, collector@).owners);
            assert(self@.collectors == reward_effect(v0, name@, collector@).collectors);
            assert(self@ == reward_effect(v0, name@, collector@));
            lemma_reward_preserves_inv(v0, name@, collector@, caller@);
        }
        true
    }

    /// The badges awarded to `collector`, in award order; empty if the
    /// account was never awarded a badge.
    pub fn get_collected_badges(&self, collector: String) -> (r: Vec<Badge>)
        requires
            self.wf(),
        ensures
            r.deep_view() == collected_badges(self@, collector@),
    {
        match find_account(&self.collectors, &collector) {
            None => {
                let r: Vec<Badge> = Vec::new();
                proof {
                    assert(r.deep_view() =~= collected_badges(self@, collector@));
                }
                r
            },
            Some(i) => {
                proof {
                    lemma_index_at(self.collectors@, i as int);
                    assert forall|j: int| 0 <= j < self.collectors@[i as int].names@.len()
                        implies has_name(
                        self.badges@,
                        #[trigger] self.collectors@[i as int].names@[j]@,
                    ) by {
                        let names = self.collectors@[i as int].names;
                        assert(self@.collectors[collector@][j] == names@[j]@);
                        assert(self@.badges.dom().contains(names@[j]@));
                    }
                }
                let out = collect_records(&self.badges, &self.collectors[i].names);
                proof {
                    assert(out.deep_view() =~= collected_badges(self@, collector@));
                }
                out
            },
        }
    }

    /// The badges created by `owner`, in creation order; empty if the
    /// account never created a badge.
    pub fn get_created_badges(&self, owner: String) -> (r: Vec<Badge>)
        requires
            self.wf(),
        ensures
            r.deep_view() == created_badges(self@, owner@),
    {
        match find_account(&self.owners, &owner) {
            None => {
                let r: Vec<Badge> = Vec::new();
                proof {
                    assert(r.deep_view() =~= created_badges(self@, owner@));
                }
                r
            },
            Some(i) => {
                proof {
                    lemma_index_at(self.owners@, i as int);
                    assert forall|j: int| 0 <= j < self.owners@[i as int].names@.len()
                        implies has_name(
                        self.badges@,
                        #[trigger] self.owners@[i as int].names@[j]@,
                    ) by {
                        let names = self.owners@[i as int].names;
                        assert(self@.owners[owner@][j] == names@[j]@);
                        assert(self@.badges.dom().contains(names@[j]@));
                    }
                }
                let out = collect_records(&self.badges, &self.owners[i].names);
                proof {
                    assert(out.deep_view() =~= created_badges(self@, owner@));
                }
                out
            },
        }
    }
}

impl Default for BadgeCollection {
    /// The default registry is the fresh, empty one.
    fn default() -> (r: BadgeCollection)
        ensures
            r.wf(),
            r@ == empty_registry(),
    {
        BadgeCollection::new()
    }
}

} // verus!
