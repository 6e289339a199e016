//! The soul store as a mathematical object, and what each of its operations
//! does to it.
//!
//! A *soul* is a mutable `key → value` store bound to an agent's full id.
//! Subscribers watch either a single key of a target soul (value changes and
//! deletion) or the target's whole key set (additions and deletions). Each
//! subscription carries one `unread` flag: at most one pending notification
//! per subscription, cleared when the subscriber reads the watched data.

use vstd::prelude::*;

use crate::table::keys_lt;
use crate::text::str_lt;

verus! {

/// What a subscription / notification is scoped to.
#[derive(Clone, Debug)]
pub enum Scope {
    /// A single soul key: value changes and deletion of that key.
    Key(String),
    /// The target's whole key set: key additions and deletions.
    Soul,
}

/// A pending change notification for a subscriber.
#[derive(Clone, Debug)]
pub struct Notification {
    /// The agent whose soul changed.
    pub target: String,
    /// What changed.
    pub scope: Scope,
}

/// A subscription owned by an entity: whom it watches and which part.
#[derive(Clone, Debug)]
pub struct Subscription {
    /// The agent whose soul is watched.
    pub target: String,
    /// Which part of the soul is watched.
    pub scope: Scope,
}

pub enum ScopeView {
    Key(Seq<char>),
    Soul,
}

/// A notification or subscription as text: target and scope.
pub struct EntryView {
    pub target: Seq<char>,
    pub scope: ScopeView,
}

impl View for Scope {
    type V = ScopeView;

    open spec fn view(&self) -> ScopeView {
        match self {
            Scope::Key(k) => ScopeView::Key(k@),
            Scope::Soul => ScopeView::Soul,
        }
    }
}

impl View for Notification {
    type V = EntryView;

    open spec fn view(&self) -> EntryView {
        EntryView { target: self.target@, scope: self.scope@ }
    }
}

impl View for Subscription {
    type V = EntryView;

    open spec fn view(&self) -> EntryView {
        EntryView { target: self.target@, scope: self.scope@ }
    }
}

pub open spec fn notifications_view(v: Seq<Notification>) -> Seq<EntryView> {
    v.map_values(|n: Notification| n@)
}

pub open spec fn subscriptions_view(v: Seq<Subscription>) -> Seq<EntryView> {
    v.map_values(|s: Subscription| s@)
}

pub open spec fn strs_view(v: Seq<String>) -> Seq<Seq<char>> {
    v.map_values(|s: String| s@)
}

pub open spec fn opt_string_view(o: Option<String>) -> Option<Seq<char>> {
    match o {
        Some(s) => Some(s@),
        None => None,
    }
}

pub open spec fn opt_str_view(o: Option<&str>) -> Option<Seq<char>> {
    match o {
        Some(s) => Some(s@),
        None => None,
    }
}

// ---- Listings -------------------------------------------------------------

pub open spec fn strs_sorted(q: Seq<Seq<char>>) -> bool {
    forall|i: int, j: int| 0 <= i < j < q.len() ==> str_lt(#[trigger] q[i], #[trigger] q[j])
}

pub open spec fn keys_sorted(q: Seq<Seq<Seq<char>>>) -> bool {
    forall|i: int, j: int| 0 <= i < j < q.len() ==> keys_lt(#[trigger] q[i], #[trigger] q[j])
}

/// The members of a finite set of strings, in increasing code-point order.
pub open spec fn sorted_strs(s: Set<Seq<char>>) -> Seq<Seq<char>> {
    choose|q: Seq<Seq<char>>| strs_sorted(q) && q.to_set() == s
}

/// The members of a finite set of composite keys, in increasing order.
pub open spec fn sorted_keys(s: Set<Seq<Seq<char>>>) -> Seq<Seq<Seq<char>>> {
    choose|q: Seq<Seq<Seq<char>>>| keys_sorted(q) && q.to_set() == s
}

/// Two sequences strictly increasing in an asymmetric order, with the same
/// members, are equal.
pub proof fn lemma_sorted_unique<T>(a: Seq<T>, b: Seq<T>, lt: spec_fn(T, T) -> bool)
    requires
        forall|x: T, y: T| #[trigger] lt(x, y) ==> !lt(y, x),
        forall|i: int, j: int| 0 <= i < j < a.len() ==> lt(#[trigger] a[i], #[trigger] a[j]),
        forall|i: int, j: int| 0 <= i < j < b.len() ==> lt(#[trigger] b[i], #[trigger] b[j]),
        a.to_set() == b.to_set(),
    ensures
        a == b,
    decreases a.len(),
{
    if a.len() == 0 {
        if b.len() > 0 {
            assert(b.to_set().contains(b[0]));
        }
        assert(a =~= b);
    } else {
        assert(a.to_set().contains(a[0]));
        assert(b.to_set().contains(a[0]));
        let j = choose|j: int| 0 <= j < b.len() && b[j] == a[0];
        assert(b.to_set().contains(b[0]));
        let i = choose|i: int| 0 <= i < a.len() && a[i] == b[0];
        if j > 0 {
            assert(lt(b[0], b[j]));
            if i > 0 {
                assert(lt(a[0], a[i]));
            }
        }
        assert(a[0] == b[0]);
        let a1 = a.drop_first();
        let b1 = b.drop_first();
        assert forall|x: T| a1.to_set().contains(x) implies b1.to_set().contains(x) by {
            let p = choose|p: int| 0 <= p < a1.len() && a1[p] == x;
            assert(lt(a[0], a[p + 1]));
            assert(b.to_set().contains(x));
            let q = choose|q: int| 0 <= q < b.len() && b[q] == x;
            assert(q != 0);
            assert(b1[q - 1] == x);
        }
        assert forall|x: T| b1.to_set().contains(x) implies a1.to_set().contains(x) by {
            let p = choose|p: int| 0 <= p < b1.len() && b1[p] == x;
            assert(lt(b[0], b[p + 1]));
            assert(a.to_set().contains(x));
            let q = choose|q: int| 0 <= q < a.len() && a[q] == x;
            assert(q != 0);
            assert(a1[q - 1] == x);
        }
        assert(a1.to_set() =~= b1.to_set());
        lemma_sorted_unique(a1, b1, lt);
        assert(a =~= seq![a[0]] + a1);
        assert(b =~= seq![b[0]] + b1);
    }
}

/// A sorted sequence of strings with the members of `s` is the listing of `s`.
pub proof fn lemma_is_sorted_strs(q: Seq<Seq<char>>, s: Set<Seq<char>>)
    requires
        strs_sorted(q),
        q.to_set() == s,
    ensures
        sorted_strs(s) == q,
{
    let r = sorted_strs(s);
    assert(strs_sorted(r) && r.to_set() == s);
    assert forall|x: Seq<char>, y: Seq<char>| #[trigger] str_lt(x, y) implies !str_lt(y, x) by {
        crate::text::lemma_str_lt_asymmetric(x, y);
    }
    lemma_sorted_unique(r, q, |x: Seq<char>, y: Seq<char>| str_lt(x, y));
}

/// A sorted sequence of keys with the members of `s` is the listing of `s`.
pub proof fn lemma_is_sorted_keys(q: Seq<Seq<Seq<char>>>, s: Set<Seq<Seq<char>>>)
    requires
        keys_sorted(q),
        q.to_set() == s,
    ensures
        sorted_keys(s) == q,
{
    let r = sorted_keys(s);
    assert(keys_sorted(r) && r.to_set() == s);
    assert forall|x: Seq<Seq<char>>, y: Seq<Seq<char>>| #[trigger] keys_lt(x, y) implies !keys_lt(
        y,
        x,
    ) by {
        crate::table::lemma_keys_lt_asymmetric(x, y);
    }
    lemma_sorted_unique(r, q, |x: Seq<Seq<char>>, y: Seq<Seq<char>>| keys_lt(x, y));
}

/// `lt` is a strict total order.
pub open spec fn strict_total<T>(lt: spec_fn(T, T) -> bool) -> bool {
    &&& forall|x: T| !#[trigger] lt(x, x)
    &&& forall|x: T, y: T, z: T| #[trigger] lt(x, y) && #[trigger] lt(y, z) ==> lt(x, z)
    &&& forall|x: T, y: T| #![trigger lt(x, y)] x != y ==> lt(x, y) || lt(y, x)
}

/// A finite non-empty set has a least element.
pub proof fn lemma_has_least<T>(s: Set<T>, lt: spec_fn(T, T) -> bool) -> (m: T)
    requires
        s.finite(),
        s.len() > 0,
        strict_total(lt),
    ensures
        s.contains(m),
        forall|y: T| s.contains(y) && y != m ==> lt(m, y),
    decreases s.len(),
{
    let x = s.choose();
    let rest = s.remove(x);
    if rest.len() == 0 {
        assert forall|y: T| s.contains(y) && y != x implies lt(x, y) by {
            assert(rest.contains(y));
        }
        x
    } else {
        let m1 = lemma_has_least(rest, lt);
        if lt(x, m1) {
            assert forall|y: T| s.contains(y) && y != x implies lt(x, y) by {
                assert(rest.contains(y));
                if y != m1 {
                    assert(lt(m1, y));
                }
            }
            x
        } else {
            assert(lt(x, m1) || lt(m1, x));
            m1
        }
    }
}

/// A finite set can be listed in increasing order.
pub proof fn lemma_listing_exists<T>(s: Set<T>, lt: spec_fn(T, T) -> bool) -> (q: Seq<T>)
    requires
        s.finite(),
        strict_total(lt),
    ensures
        forall|i: int, j: int| 0 <= i < j < q.len() ==> lt(#[trigger] q[i], #[trigger] q[j]),
        q.to_set() == s,
    decreases s.len(),
{
    if s.len() == 0 {
        assert(s =~= Set::<T>::empty());
        let q = Seq::<T>::empty();
        assert(q.to_set() =~= s);
        q
    } else {
        let m = lemma_has_least(s, lt);
        let rest = s.remove(m);
        let q1 = lemma_listing_exists(rest, lt);
        let q = seq![m] + q1;
        assert forall|i: int, j: int| 0 <= i < j < q.len() implies lt(#[trigger] q[i], #[trigger] q[j]) by {
            if i == 0 {
                assert(q1.to_set().contains(q1[j - 1]));
                assert(q[j] == q1[j - 1]);
            } else {
                assert(q[i] == q1[i - 1] && q[j] == q1[j - 1]);
            }
        }
        assert forall|x: T| q.to_set().contains(x) <==> s.contains(x) by {
            if q.to_set().contains(x) {
                let i = choose|i: int| 0 <= i < q.len() && q[i] == x;
                if i > 0 {
                    assert(q1[i - 1] == x);
                    assert(q1.to_set().contains(x));
                }
            }
            if s.contains(x) {
                if x == m {
                    assert(q[0] == x);
                } else {
                    assert(rest.contains(x));
                    let i = choose|i: int| 0 <= i < q1.len() && q1[i] == x;
                    assert(q[i + 1] == x);
                }
            }
        }
        assert(q.to_set() =~= s);
        q
    }
}

/// Every finite set of strings has its listing.
pub proof fn lemma_sorted_strs_exists(s: Set<Seq<char>>)
    requires
        s.finite(),
    ensures
        strs_sorted(sorted_strs(s)),
        sorted_strs(s).to_set() == s,
{
    let lt = |x: Seq<char>, y: Seq<char>| str_lt(x, y);
    assert forall|x: Seq<char>| !#[trigger] lt(x, x) by {
        crate::text::lemma_str_lt_irreflexive(x);
    }
    assert forall|x: Seq<char>, y: Seq<char>, z: Seq<char>| #[trigger] lt(x, y) && #[trigger] lt(y, z) implies lt(x, z) by {
        crate::text::lemma_str_lt_transitive(x, y, z);
    }
    assert forall|x: Seq<char>, y: Seq<char>| #![trigger lt(x, y)] x != y implies lt(x, y) || lt(y, x) by {
        crate::text::lemma_str_lt_total(x, y);
    }
    let q = lemma_listing_exists(s, lt);
    assert(strs_sorted(q));
}

/// Every finite set of composite keys has its listing.
pub proof fn lemma_sorted_keys_exists(s: Set<Seq<Seq<char>>>)
    requires
        s.finite(),
    ensures
        keys_sorted(sorted_keys(s)),
        sorted_keys(s).to_set() == s,
{
    let lt = |x: Seq<Seq<char>>, y: Seq<Seq<char>>| keys_lt(x, y);
    assert forall|x: Seq<Seq<char>>| !#[trigger] lt(x, x) by {
        crate::table::lemma_keys_lt_irreflexive(x);
    }
    assert forall|x: Seq<Seq<char>>, y: Seq<Seq<char>>, z: Seq<Seq<char>>| #[trigger] lt(x, y) && #[trigger] lt(y, z) implies lt(x, z) by {
        crate::table::lemma_keys_lt_transitive(x, y, z);
    }
    assert forall|x: Seq<Seq<char>>, y: Seq<Seq<char>>| #![trigger lt(x, y)] x != y implies lt(x, y) || lt(y, x) by {
        crate::table::lemma_keys_lt_total(x, y);
    }
    let q = lemma_listing_exists(s, lt);
    assert(keys_sorted(q));
}

/// Key subscriptions, as `[target, key]`, then soul subscriptions, as
/// `target`, turned into entries.
pub open spec fn entries(keys: Seq<Seq<Seq<char>>>, souls: Seq<Seq<char>>) -> Seq<EntryView> {
    keys.map_values(|p: Seq<Seq<char>>| key_entry(p)) + souls.map_values(|t: Seq<char>| soul_entry(t))
}

/// The entry of a key subscription on `[target, key]`.
pub open spec fn key_entry(p: Seq<Seq<char>>) -> EntryView {
    EntryView { target: p[0], scope: ScopeView::Key(p[1]) }
}

/// The entry of a soul subscription on `target`.
pub open spec fn soul_entry(t: Seq<char>) -> EntryView {
    EntryView { target: t, scope: ScopeView::Soul }
}

/// `[target, key]` of each key-subscription row `(target, key)`.
pub open spec fn pairs_view(v: Seq<(String, String)>) -> Seq<Seq<Seq<char>>> {
    v.map_values(|p: (String, String)| seq![p.0@, p.1@])
}

/// The notifications behind rows of key subscriptions `(target, key)` and of
/// soul subscriptions `target`: the key ones first, each list in its order.
pub fn notifications_of(keys: &Vec<(String, String)>, souls: &Vec<String>) -> (r: Vec<Notification>)
    ensures
        notifications_view(r@) == entries(pairs_view(keys@), strs_view(souls@)),
{
    let mut r: Vec<Notification> = Vec::new();
    let mut i: usize = 0;
    while i < keys.len()
        invariant
            i <= keys@.len(),
            notifications_view(r@) == pairs_view(keys@).take(i as int).map_values(
                |p: Seq<Seq<char>>| key_entry(p),
            ),
        decreases keys@.len() - i,
    {
        let n = Notification { target: keys[i].0.clone(), scope: Scope::Key(keys[i].1.clone()) };
        let ghost prev = r@;
        r.push(n);
        assert(notifications_view(r@) =~= notifications_view(prev).push(n@));
        assert(pairs_view(keys@).take(i + 1) =~= pairs_view(keys@).take(i as int).push(
            pairs_view(keys@)[i as int],
        ));
        i = i + 1;
    }
    assert(pairs_view(keys@).take(i as int) =~= pairs_view(keys@));
    let ghost kv = notifications_view(r@);
    let mut j: usize = 0;
    while j < souls.len()
        invariant
            j <= souls@.len(),
            notifications_view(r@) == kv + strs_view(souls@).take(j as int).map_values(
                |t: Seq<char>| soul_entry(t),
            ),
        decreases souls@.len() - j,
    {
        let n = Notification { target: souls[j].clone(), scope: Scope::Soul };
        let ghost prev = r@;
        r.push(n);
        assert(notifications_view(r@) =~= notifications_view(prev).push(n@));
        assert(strs_view(souls@).take(j + 1) =~= strs_view(souls@).take(j as int).push(
            strs_view(souls@)[j as int],
        ));
        j = j + 1;
    }
    assert(strs_view(souls@).take(j as int) =~= strs_view(souls@));
    r
}

/// The subscriptions behind rows of key subscriptions `(target, key)` and
/// of soul subscriptions `target`: the key ones first, each list in its
/// order.
pub fn subscriptions_of(keys: &Vec<(String, String)>, souls: &Vec<String>) -> (r: Vec<Subscription>)
    ensures
        subscriptions_view(r@) == entries(pairs_view(keys@), strs_view(souls@)),
{
    let mut r: Vec<Subscription> = Vec::new();
    let mut i: usize = 0;
    while i < keys.len()
        invariant
            i <= keys@.len(),
            subscriptions_view(r@) == pairs_view(keys@).take(i as int).map_values(
                |p: Seq<Seq<char>>| key_entry(p),
            ),
        decreases keys@.len() - i,
    {
        let n = Subscription { target: keys[i].0.clone(), scope: Scope::Key(keys[i].1.clone()) };
        let ghost prev = r@;
        r.push(n);
        assert(subscriptions_view(r@) =~= subscriptions_view(prev).push(n@));
        assert(pairs_view(keys@).take(i + 1) =~= pairs_view(keys@).take(i as int).push(
            pairs_view(keys@)[i as int],
        ));
        i = i + 1;
    }
    assert(pairs_view(keys@).take(i as int) =~= pairs_view(keys@));
    let ghost kv = subscriptions_view(r@);
    let mut j: usize = 0;
    while j < souls.len()
        invariant
            j <= souls@.len(),
            subscriptions_view(r@) == kv + strs_view(souls@).take(j as int).map_values(
                |t: Seq<char>| soul_entry(t),
            ),
        decreases souls@.len() - j,
    {
        let n = Subscription { target: souls[j].clone(), scope: Scope::Soul };
        let ghost prev = r@;
        r.push(n);
        assert(subscriptions_view(r@) =~= subscriptions_view(prev).push(n@));
        assert(strs_view(souls@).take(j + 1) =~= strs_view(souls@).take(j as int).push(
            strs_view(souls@)[j as int],
        ));
        j = j + 1;
    }
    assert(strs_view(souls@).take(j as int) =~= strs_view(souls@));
    r
}

// ---- The store ------------------------------------------------------------

/// The contents of the soul store.
///
/// - `souls` maps `[agent, key]` to the value of that soul key;
/// - `key_subs` maps `[subscriber, target, key]` to its unread flag;
/// - `soul_subs` maps `[subscriber, target]` to its unread flag.
pub struct StoreModel {
    pub souls: Map<Seq<Seq<char>>, Seq<char>>,
    pub key_subs: Map<Seq<Seq<char>>, bool>,
    pub soul_subs: Map<Seq<Seq<char>>, bool>,
}

impl StoreModel {
    /// The store holds finitely many entries.
    pub open spec fn valid(self) -> bool {
        &&& self.souls.dom().finite()
        &&& self.key_subs.dom().finite()
        &&& self.soul_subs.dom().finite()
    }

    /// A valid store's subscriptions of one subscriber are finitely many.
    pub proof fn lemma_watched_finite(self, sub: Seq<char>, unread_only: bool)
        requires
            self.valid(),
        ensures
            self.watched_keys(sub, unread_only).finite(),
            self.watched_souls(sub, unread_only).finite(),
    {
        let tails = self.key_subs.dom().map(|k: Seq<Seq<char>>| k.drop_first());
        self.key_subs.dom().lemma_map_finite(|k: Seq<Seq<char>>| k.drop_first());
        assert forall|p: Seq<Seq<char>>| self.watched_keys(sub, unread_only).contains(p) implies tails.contains(p) by {
            let k = seq![sub, p[0], p[1]];
            assert(k.drop_first() =~= p);
            assert(self.key_subs.dom().contains(k));
        }
        vstd::set_lib::lemma_set_subset_finite(tails, self.watched_keys(sub, unread_only));
        let seconds = self.soul_subs.dom().map(|k: Seq<Seq<char>>| k[1]);
        self.soul_subs.dom().lemma_map_finite(|k: Seq<Seq<char>>| k[1]);
        assert forall|t: Seq<char>| self.watched_souls(sub, unread_only).contains(t) implies seconds.contains(t) by {
            let k = seq![sub, t];
            assert(k[1] == t);
            assert(self.soul_subs.dom().contains(k));
        }
        vstd::set_lib::lemma_set_subset_finite(seconds, self.watched_souls(sub, unread_only));
    }

    /// How many subscriptions, of either kind, the store holds.
    pub open spec fn watch_count(self) -> nat {
        self.key_subs.dom().len() + self.soul_subs.dom().len()
    }

    pub open spec fn empty() -> StoreModel {
        StoreModel { souls: Map::empty(), key_subs: Map::empty(), soul_subs: Map::empty() }
    }

    /// The value of `agent`'s soul `key`, if set.
    pub open spec fn value(self, agent: Seq<char>, key: Seq<char>) -> Option<Seq<char>> {
        if self.souls.contains_key(seq![agent, key]) {
            Some(self.souls[seq![agent, key]])
        } else {
            None
        }
    }

    /// `sub` has a pending notification on `target`'s soul `key`.
    pub open spec fn has_pending_key(self, sub: Seq<char>, target: Seq<char>, key: Seq<char>) -> bool {
        self.key_subs.contains_key(seq![sub, target, key]) && self.key_subs[seq![sub, target, key]]
    }

    /// `sub` has a pending notification on `target`'s key set.
    pub open spec fn has_pending_soul(self, sub: Seq<char>, target: Seq<char>) -> bool {
        self.soul_subs.contains_key(seq![sub, target]) && self.soul_subs[seq![sub, target]]
    }

    /// The keys of `target`'s soul.
    pub open spec fn keys(self, target: Seq<char>) -> Set<Seq<char>> {
        Set::new(|k: Seq<char>| self.souls.contains_key(seq![target, k]))
    }

    /// Marks unread every key subscription on `(target, key)`.
    pub open spec fn fire_key(self, target: Seq<char>, key: Seq<char>) -> StoreModel {
        StoreModel {
            key_subs: Map::new(
                |k: Seq<Seq<char>>| self.key_subs.contains_key(k),
                |k: Seq<Seq<char>>|
                    if k[1] == target && k[2] == key {
                        true
                    } else {
                        self.key_subs[k]
                    },
            ),
            ..self
        }
    }

    /// Marks unread every soul subscription on `target`.
    pub open spec fn fire_soul(self, target: Seq<char>) -> StoreModel {
        StoreModel {
            soul_subs: Map::new(
                |k: Seq<Seq<char>>| self.soul_subs.contains_key(k),
                |k: Seq<Seq<char>>|
                    if k[1] == target {
                        true
                    } else {
                        self.soul_subs[k]
                    },
            ),
            ..self
        }
    }

    /// `owner`'s soul `key` is set to `value`: the key subscriptions on it
    /// fire, and the soul subscriptions on `owner` too when the key is new.
    pub open spec fn set_key(self, owner: Seq<char>, key: Seq<char>, value: Seq<char>) -> StoreModel {
        if self.souls.contains_key(seq![owner, key]) {
            self.written(owner, key, value)
        } else {
            self.written(owner, key, value).fire_soul(owner)
        }
    }

    /// `owner`'s soul `key` holds `value`, and the key subscriptions on it
    /// fire.
    pub open spec fn written(self, owner: Seq<char>, key: Seq<char>, value: Seq<char>) -> StoreModel {
        StoreModel { souls: self.souls.insert(seq![owner, key], value), ..self.fire_key(owner, key) }
    }

    /// `owner`'s soul `key` is removed; when it existed, the key
    /// subscriptions on it and the soul subscriptions on `owner` fire.
    pub open spec fn delete_key(self, owner: Seq<char>, key: Seq<char>) -> StoreModel {
        if self.souls.contains_key(seq![owner, key]) {
            self.removed(owner, key)
        } else {
            self
        }
    }

    /// `owner`'s soul `key` is gone, and the key subscriptions on it and
    /// the soul subscriptions on `owner` fire.
    pub open spec fn removed(self, owner: Seq<char>, key: Seq<char>) -> StoreModel {
        StoreModel { souls: self.souls.remove(seq![owner, key]), ..self.fire_key(owner, key).fire_soul(owner) }
    }

    /// A read of `target`'s soul `key` by `reader` clears the reader's key
    /// subscription on it; an anonymous read clears nothing.
    pub open spec fn read_key(self, reader: Option<Seq<char>>, target: Seq<char>, key: Seq<char>) -> StoreModel {
        match reader {
            Some(r) => if self.key_subs.contains_key(seq![r, target, key]) {
                StoreModel { key_subs: self.key_subs.insert(seq![r, target, key], false), ..self }
            } else {
                self
            },
            None => self,
        }
    }

    /// A listing of `target`'s keys by `reader` clears the reader's soul
    /// subscription on it; an anonymous listing clears nothing.
    pub open spec fn read_keys(self, reader: Option<Seq<char>>, target: Seq<char>) -> StoreModel {
        match reader {
            Some(r) => if self.soul_subs.contains_key(seq![r, target]) {
                StoreModel { soul_subs: self.soul_subs.insert(seq![r, target], false), ..self }
            } else {
                self
            },
            None => self,
        }
    }

    /// Subscribing is idempotent and starts caught-up.
    pub open spec fn subscribe_key(self, sub: Seq<char>, target: Seq<char>, key: Seq<char>) -> StoreModel {
        if self.key_subs.contains_key(seq![sub, target, key]) {
            self
        } else {
            StoreModel { key_subs: self.key_subs.insert(seq![sub, target, key], false), ..self }
        }
    }

    pub open spec fn subscribe_soul(self, sub: Seq<char>, target: Seq<char>) -> StoreModel {
        if self.soul_subs.contains_key(seq![sub, target]) {
            self
        } else {
            StoreModel { soul_subs: self.soul_subs.insert(seq![sub, target], false), ..self }
        }
    }

    pub open spec fn unsubscribe_key(self, sub: Seq<char>, target: Seq<char>, key: Seq<char>) -> StoreModel {
        StoreModel { key_subs: self.key_subs.remove(seq![sub, target, key]), ..self }
    }

    pub open spec fn unsubscribe_soul(self, sub: Seq<char>, target: Seq<char>) -> StoreModel {
        StoreModel { soul_subs: self.soul_subs.remove(seq![sub, target]), ..self }
    }

    /// `[target, key]` of `sub`'s key subscriptions (only the unread ones
    /// when `unread_only`).
    pub open spec fn watched_keys(self, sub: Seq<char>, unread_only: bool) -> Set<Seq<Seq<char>>> {
        Set::new(
            |p: Seq<Seq<char>>|
                p.len() == 2 && self.key_subs.contains_key(seq![sub, p[0], p[1]]) && (!unread_only
                    || self.key_subs[seq![sub, p[0], p[1]]]),
        )
    }

    /// Targets of `sub`'s soul subscriptions (only the unread ones when
    /// `unread_only`).
    pub open spec fn watched_souls(self, sub: Seq<char>, unread_only: bool) -> Set<Seq<char>> {
        Set::new(
            |t: Seq<char>|
                self.soul_subs.contains_key(seq![sub, t]) && (!unread_only
                    || self.soul_subs[seq![sub, t]]),
        )
    }

    /// `sub`'s subscriptions: key ones ordered by (target, key), then soul
    /// ones ordered by target.
    pub open spec fn subscriptions(self, sub: Seq<char>) -> Seq<EntryView> {
        entries(sorted_keys(self.watched_keys(sub, false)), sorted_strs(self.watched_souls(sub, false)))
    }

    /// `sub`'s pending notifications, in the same order.
    pub open spec fn pending(self, sub: Seq<char>) -> Seq<EntryView> {
        entries(sorted_keys(self.watched_keys(sub, true)), sorted_strs(self.watched_souls(sub, true)))
    }

    /// Marks read the subscriptions of `sub` behind the given entries.
    pub open spec fn resolve(self, sub: Seq<char>, taken: Seq<EntryView>) -> StoreModel {
        StoreModel {
            key_subs: Map::new(
                |k: Seq<Seq<char>>| self.key_subs.contains_key(k),
                |k: Seq<Seq<char>>|
                    if k[0] == sub && taken.contains(
                        EntryView { target: k[1], scope: ScopeView::Key(k[2]) },
                    ) {
                        false
                    } else {
                        self.key_subs[k]
                    },
            ),
            soul_subs: Map::new(
                |k: Seq<Seq<char>>| self.soul_subs.contains_key(k),
                |k: Seq<Seq<char>>|
                    if k[0] == sub && taken.contains(EntryView { target: k[1], scope: ScopeView::Soul }) {
                        false
                    } else {
                        self.soul_subs[k]
                    },
            ),
            ..self
        }
    }

    /// How many of `sub`'s pending notifications a read of at most `limit`
    /// claims.
    pub open spec fn claim_count(self, sub: Seq<char>, limit: nat) -> nat {
        if limit < self.pending(sub).len() {
            limit
        } else {
            self.pending(sub).len()
        }
    }

    /// The notifications a read of at most `limit` claims: the first ones in
    /// order.
    pub open spec fn claimed(self, sub: Seq<char>, limit: nat) -> Seq<EntryView> {
        self.pending(sub).take(self.claim_count(sub, limit) as int)
    }

    /// The store after such a read: the claimed notifications are resolved.
    pub open spec fn claim(self, sub: Seq<char>, limit: nat) -> StoreModel {
        self.resolve(sub, self.claimed(sub, limit))
    }
}


// ---- How the operations change the number of subscriptions -----------------

proof fn lemma_fire_key_watch_count(m: StoreModel, target: Seq<char>, key: Seq<char>)
    ensures
        m.fire_key(target, key).key_subs.dom() == m.key_subs.dom(),
        m.fire_key(target, key).soul_subs == m.soul_subs,
{
    assert(m.fire_key(target, key).key_subs.dom() =~= m.key_subs.dom());
}

proof fn lemma_fire_soul_watch_count(m: StoreModel, target: Seq<char>)
    ensures
        m.fire_soul(target).soul_subs.dom() == m.soul_subs.dom(),
        m.fire_soul(target).key_subs == m.key_subs,
{
    assert(m.fire_soul(target).soul_subs.dom() =~= m.soul_subs.dom());
}

/// A write keeps the number of subscriptions.
pub broadcast proof fn lemma_set_key_watch_count(m: StoreModel, owner: Seq<char>, key: Seq<char>, value: Seq<char>)
    ensures
        #[trigger] m.set_key(owner, key, value).watch_count() == m.watch_count(),
{
    lemma_fire_key_watch_count(m, owner, key);
    lemma_fire_soul_watch_count(m.written(owner, key, value), owner);
}

/// A delete keeps the number of subscriptions.
pub broadcast proof fn lemma_delete_key_watch_count(m: StoreModel, owner: Seq<char>, key: Seq<char>)
    ensures
        #[trigger] m.delete_key(owner, key).watch_count() == m.watch_count(),
{
    lemma_fire_key_watch_count(m, owner, key);
    lemma_fire_soul_watch_count(m.fire_key(owner, key), owner);
}

/// A read keeps the number of subscriptions.
pub broadcast proof fn lemma_read_key_watch_count(
    m: StoreModel,
    reader: Option<Seq<char>>,
    target: Seq<char>,
    key: Seq<char>,
)
    ensures
        #[trigger] m.read_key(reader, target, key).watch_count() == m.watch_count(),
{
    if let Some(r) = reader {
        if m.key_subs.contains_key(seq![r, target, key]) {
            assert(m.key_subs.insert(seq![r, target, key], false).dom() =~= m.key_subs.dom());
        }
    }
}

/// A listing keeps the number of subscriptions.
pub broadcast proof fn lemma_read_keys_watch_count(m: StoreModel, reader: Option<Seq<char>>, target: Seq<char>)
    ensures
        #[trigger] m.read_keys(reader, target).watch_count() == m.watch_count(),
{
    if let Some(r) = reader {
        if m.soul_subs.contains_key(seq![r, target]) {
            assert(m.soul_subs.insert(seq![r, target], false).dom() =~= m.soul_subs.dom());
        }
    }
}

/// Claiming notifications keeps the number of subscriptions.
pub broadcast proof fn lemma_claim_watch_count(m: StoreModel, sub: Seq<char>, limit: nat)
    ensures
        #[trigger] m.claim(sub, limit).watch_count() == m.watch_count(),
{
    let c = m.claim(sub, limit);
    assert(c.key_subs.dom() =~= m.key_subs.dom());
    assert(c.soul_subs.dom() =~= m.soul_subs.dom());
}

/// A subscribe adds at most one subscription to a finite store.
pub broadcast proof fn lemma_subscribe_key_watch_count(m: StoreModel, sub: Seq<char>, target: Seq<char>, key: Seq<char>)
    requires
        m.valid(),
    ensures
        #[trigger] m.subscribe_key(sub, target, key).watch_count() <= m.watch_count() + 1,
{
}

/// A subscribe adds at most one subscription to a finite store.
pub broadcast proof fn lemma_subscribe_soul_watch_count(m: StoreModel, sub: Seq<char>, target: Seq<char>)
    requires
        m.valid(),
    ensures
        #[trigger] m.subscribe_soul(sub, target).watch_count() <= m.watch_count() + 1,
{
}

/// An unsubscribe adds no subscription to a finite store.
pub broadcast proof fn lemma_unsubscribe_key_watch_count(m: StoreModel, sub: Seq<char>, target: Seq<char>, key: Seq<char>)
    requires
        m.valid(),
    ensures
        #[trigger] m.unsubscribe_key(sub, target, key).watch_count() <= m.watch_count(),
{
}

/// An unsubscribe adds no subscription to a finite store.
pub broadcast proof fn lemma_unsubscribe_soul_watch_count(m: StoreModel, sub: Seq<char>, target: Seq<char>)
    requires
        m.valid(),
    ensures
        #[trigger] m.unsubscribe_soul(sub, target).watch_count() <= m.watch_count(),
{
}

/// How each operation changes the number of subscriptions.
pub broadcast group group_watch_count {
    lemma_set_key_watch_count,
    lemma_delete_key_watch_count,
    lemma_read_key_watch_count,
    lemma_read_keys_watch_count,
    lemma_claim_watch_count,
    lemma_subscribe_key_watch_count,
    lemma_subscribe_soul_watch_count,
    lemma_unsubscribe_key_watch_count,
    lemma_unsubscribe_soul_watch_count,
}

// ---- Decisions that every store makes alike --------------------------------

/// Whether a write fires the soul subscriptions on the owner, given whether
/// the key existed before: only a write that creates the key does. (The key
/// subscriptions on the key always fire.)
pub fn write_fires_soul(existed: bool) -> (fire: bool)
    ensures
        fire == !existed,
        forall|m: StoreModel, owner: Seq<char>, key: Seq<char>, value: Seq<char>|
            m.souls.contains_key(seq![owner, key]) == existed ==> #[trigger] m.set_key(owner, key, value)
                == if fire {
                m.written(owner, key, value).fire_soul(owner)
            } else {
                m.written(owner, key, value)
            },
{
    !existed
}

/// Whether a delete removes the key and fires the subscriptions on it and
/// on the owner's soul, given whether the key existed: a delete of an absent
/// key changes nothing.
pub fn delete_fires(existed: bool) -> (fire: bool)
    ensures
        fire == existed,
        forall|m: StoreModel, owner: Seq<char>, key: Seq<char>|
            m.souls.contains_key(seq![owner, key]) == existed ==> #[trigger] m.delete_key(owner, key)
                == if fire {
                m.removed(owner, key)
            } else {
                m
            },
{
    existed
}

/// How a read of at most `limit` notifications splits over `key_pending`
/// pending key notifications and `soul_pending` pending soul ones (the key
/// ones come first): how many key ones and how many soul ones it claims,
/// and how many stay pending.
pub fn claim_split(limit: u32, key_pending: usize, soul_pending: usize) -> (r: (usize, usize, usize))
    requires
        key_pending + soul_pending <= usize::MAX,
    ensures
        r.0 + r.1 == if limit < key_pending + soul_pending {
            limit as int
        } else {
            key_pending + soul_pending
        },
        r.0 == if r.0 + r.1 < key_pending {
            r.0 + r.1
        } else {
            key_pending as int
        },
        r.2 == key_pending + soul_pending - (r.0 + r.1),
        forall|m: StoreModel, sub: Seq<char>|
            #[trigger] m.pending(sub).len() == key_pending + soul_pending ==> {
                &&& r.0 + r.1 == m.claim_count(sub, limit as nat)
                &&& r.2 == m.pending(sub).len() - m.claim_count(sub, limit as nat)
            },
{
    let total = key_pending + soul_pending;
    let lim = limit as usize;
    let n = if lim < total {
        lim
    } else {
        total
    };
    let nk = if n < key_pending {
        n
    } else {
        key_pending
    };
    (nk, n - nk, total - n)
}

} // verus!
