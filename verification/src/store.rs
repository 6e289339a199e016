//! Storage backends for agent souls and soul-change subscriptions: the
//! [`Database`] interface, and [`SoulStore`], the in-memory store.

use vstd::prelude::*;

use crate::model::{
    claim_split, delete_fires, write_fires_soul,
    key_entry, keys_sorted, EntryView, ScopeView, lemma_is_sorted_keys, lemma_is_sorted_strs, notifications_view,
    opt_str_view, opt_string_view, soul_entry, sorted_keys, sorted_strs, strs_sorted, strs_view,
    subscriptions_view, Notification, Scope, StoreModel, Subscription,
};
use crate::table::{
    key_view, keys_lt, lemma_keys_lt_irreflexive, lemma_keys_lt_same_head, lemma_keys_lt_single,
    Table,
};
use crate::text::str_lt;
use crate::text::{compare_text, Order};

verus! {

/// Storage backend for agent souls and soul-change subscriptions.
///
/// The interface is identity-agnostic: every operation names the agent(s) it
/// acts on. Each operation is atomic: on success the store moves as stated
/// over [`StoreModel`]; on failure it is left as it was.
pub trait Database {
    type Error;

    /// The backend's own well-formedness.
    spec fn inv(&self) -> bool;

    /// What the store holds.
    spec fn model(&self) -> StoreModel;

    /// The backend is able to carry out requests now: on a serving store
    /// every operation succeeds. What it takes (a reachable database, room
    /// for one more entry) is the backend's own.
    spec fn serves(&self) -> bool;

    /// A well-formed store holds finitely many entries.
    proof fn lemma_model_valid(&self)
        requires
            self.inv(),
        ensures
            self.model().valid(),
    ;

    /// Every key of `target`'s soul, in code-point order. A listing by a
    /// `reader` clears the reader's soul subscription on `target`.
    fn list_keys(&mut self, reader: Option<&str>, target: &str) -> (r: Result<
        Vec<String>,
        Self::Error,
    >)
        requires
            old(self).inv(),
        ensures
            final(self).inv(),
            old(self).serves() ==> r is Ok,
            match r {
                Ok(keys) => {
                    &&& strs_view(keys@) == sorted_strs(old(self).model().keys(target@))
                    &&& final(self).model() == old(self).model().read_keys(
                        opt_str_view(reader),
                        target@,
                    )
                },
                Err(_) => final(self).model() == old(self).model(),
            },
    ;

    /// The value of `target`'s soul `key`, or `None` if unset. A read by a
    /// `reader` clears the reader's key subscription on `(target, key)`,
    /// whether or not the key is set.
    fn get_key(&mut self, reader: Option<&str>, target: &str, key: &str) -> (r: Result<
        Option<String>,
        Self::Error,
    >)
        requires
            old(self).inv(),
        ensures
            final(self).inv(),
            old(self).serves() ==> r is Ok,
            match r {
                Ok(v) => {
                    &&& opt_string_view(v) == old(self).model().value(target@, key@)
                    &&& final(self).model() == old(self).model().read_key(
                        opt_str_view(reader),
                        target@,
                        key@,
                    )
                },
                Err(_) => final(self).model() == old(self).model(),
            },
    ;

    /// Creates or overwrites `owner`'s soul `key` with `value`.
    fn set_key(&mut self, owner: &str, key: &str, value: &str) -> (r: Result<(), Self::Error>)
        requires
            old(self).inv(),
        ensures
            final(self).inv(),
            old(self).serves() ==> r is Ok,
            match r {
                Ok(_) => final(self).model() == old(self).model().set_key(owner@, key@, value@),
                Err(_) => final(self).model() == old(self).model(),
            },
    ;

    /// Deletes `owner`'s soul `key`; tells whether a key was removed.
    fn delete_key(&mut self, owner: &str, key: &str) -> (r: Result<bool, Self::Error>)
        requires
            old(self).inv(),
        ensures
            final(self).inv(),
            old(self).serves() ==> r is Ok,
            match r {
                Ok(existed) => {
                    &&& existed == old(self).model().souls.contains_key(seq![owner@, key@])
                    &&& final(self).model() == old(self).model().delete_key(owner@, key@)
                },
                Err(_) => final(self).model() == old(self).model(),
            },
    ;

    /// Subscribes `subscriber` to `target`'s soul `key`.
    fn subscribe_key(&mut self, subscriber: &str, target: &str, key: &str) -> (r: Result<
        (),
        Self::Error,
    >)
        requires
            old(self).inv(),
        ensures
            final(self).inv(),
            old(self).serves() ==> r is Ok,
            match r {
                Ok(_) => final(self).model() == old(self).model().subscribe_key(
                    subscriber@,
                    target@,
                    key@,
                ),
                Err(_) => final(self).model() == old(self).model(),
            },
    ;

    /// Subscribes `subscriber` to `target`'s key set.
    fn subscribe_soul(&mut self, subscriber: &str, target: &str) -> (r: Result<(), Self::Error>)
        requires
            old(self).inv(),
        ensures
            final(self).inv(),
            old(self).serves() ==> r is Ok,
            match r {
                Ok(_) => final(self).model() == old(self).model().subscribe_soul(
                    subscriber@,
                    target@,
                ),
                Err(_) => final(self).model() == old(self).model(),
            },
    ;

    /// Removes `subscriber`'s key subscription on `(target, key)`, if any.
    fn unsubscribe_key(&mut self, subscriber: &str, target: &str, key: &str) -> (r: Result<
        (),
        Self::Error,
    >)
        requires
            old(self).inv(),
        ensures
            final(self).inv(),
            old(self).serves() ==> r is Ok,
            match r {
                Ok(_) => final(self).model() == old(self).model().unsubscribe_key(
                    subscriber@,
                    target@,
                    key@,
                ),
                Err(_) => final(self).model() == old(self).model(),
            },
    ;

    /// Removes `subscriber`'s soul subscription on `target`, if any.
    fn unsubscribe_soul(&mut self, subscriber: &str, target: &str) -> (r: Result<(), Self::Error>)
        requires
            old(self).inv(),
        ensures
            final(self).inv(),
            old(self).serves() ==> r is Ok,
            match r {
                Ok(_) => final(self).model() == old(self).model().unsubscribe_soul(
                    subscriber@,
                    target@,
                ),
                Err(_) => final(self).model() == old(self).model(),
            },
    ;

    /// The subscriptions `entity` owns: key subscriptions ordered by
    /// (target, key), then soul subscriptions ordered by target.
    fn subscriptions(&mut self, entity: &str) -> (r: Result<Vec<Subscription>, Self::Error>)
        requires
            old(self).inv(),
        ensures
            final(self).inv(),
            old(self).serves() ==> r is Ok,
            final(self).model() == old(self).model(),
            match r {
                Ok(subs) => subscriptions_view(subs@) == old(self).model().subscriptions(entity@),
                Err(_) => true,
            },
    ;

    /// `subscriber`'s pending notifications, in the order of
    /// [`subscriptions`](Database::subscriptions). Marks nothing read.
    fn notifications(&mut self, subscriber: &str) -> (r: Result<Vec<Notification>, Self::Error>)
        requires
            old(self).inv(),
        ensures
            final(self).inv(),
            old(self).serves() ==> r is Ok,
            final(self).model() == old(self).model(),
            match r {
                Ok(ns) => notifications_view(ns@) == old(self).model().pending(subscriber@),
                Err(_) => true,
            },
    ;

    /// Claims the first `limit` of `subscriber`'s pending notifications
    /// (marking them read) and tells how many remain pending.
    fn take_notifications(&mut self, subscriber: &str, limit: u32) -> (r: Result<
        (Vec<Notification>, usize),
        Self::Error,
    >)
        requires
            old(self).inv(),
        ensures
            final(self).inv(),
            old(self).serves() ==> r is Ok,
            match r {
                Ok(page) => {
                    &&& notifications_view(page.0@) == old(self).model().claimed(
                        subscriber@,
                        limit as nat,
                    )
                    &&& page.1 == old(self).model().pending(subscriber@).len() - old(
                        self,
                    ).model().claim_count(subscriber@, limit as nat)
                    &&& final(self).model() == old(self).model().claim(subscriber@, limit as nat)
                },
                Err(_) => final(self).model() == old(self).model(),
            },
    ;
}

/// The error type of [`SoulStore`]; none of its operations produces it.
#[derive(Debug)]
pub struct StoreError;

/// In-memory storage for agent souls and soul-change subscriptions.
pub struct SoulStore {
    souls: Table<String>,
    key_subs: Table<bool>,
    soul_subs: Table<bool>,
}

/// A two-component key.
fn key2(a: &str, b: &str) -> (k: Vec<String>)
    ensures
        key_view(k@) == seq![a@, b@],
{
    let k = vec![a.to_owned(), b.to_owned()];
    assert(key_view(k@) =~= seq![a@, b@]);
    k
}

/// A three-component key.
fn key3(a: &str, b: &str, c: &str) -> (k: Vec<String>)
    ensures
        key_view(k@) == seq![a@, b@, c@],
{
    let k = vec![a.to_owned(), b.to_owned(), c.to_owned()];
    assert(key_view(k@) =~= seq![a@, b@, c@]);
    k
}

fn same_text(a: &str, b: &str) -> (r: bool)
    ensures
        r == (a@ == b@),
{
    match compare_text(a, b) {
        Order::Equal => true,
        _ => false,
    }
}

/// All keys of a table have `n` components.
pub open spec fn keys_have_len<V>(t: Table<V>, n: nat) -> bool {
    forall|k: Seq<Seq<char>>| #[trigger] t@.contains_key(k) ==> k.len() == n
}

proof fn lemma_row_key_len<V>(t: Table<V>, n: nat, i: int)
    requires
        t.wf(),
        keys_have_len(t, n),
        0 <= i < t.rows@.len(),
    ensures
        t.key_at(i).len() == n,
        t.rows@[i].key@.len() == n,
{
    assert(t@.contains_key(t.key_at(i)));
}

/// Two keys of the same table with the same components are at the same row.
proof fn lemma_rows_distinct<V>(t: Table<V>, i: int, j: int)
    requires
        t.wf(),
        0 <= i < t.rows@.len(),
        0 <= j < t.rows@.len(),
        t.key_at(i) == t.key_at(j),
    ensures
        i == j,
{
    if i < j {
        assert(keys_lt(t.key_at(i), t.key_at(j)));
        lemma_keys_lt_irreflexive(t.key_at(i));
    } else if j < i {
        assert(keys_lt(t.key_at(j), t.key_at(i)));
        lemma_keys_lt_irreflexive(t.key_at(i));
    }
}

/// A key is in the table exactly when some row carries it.
proof fn lemma_contains_iff_row<V>(t: Table<V>, k: Seq<Seq<char>>)
    requires
        t.wf(),
    ensures
        t@.contains_key(k) <==> exists|j: int| 0 <= j < t.rows@.len() && t.key_at(j) == k,
{
    if exists|j: int| 0 <= j < t.rows@.len() && t.key_at(j) == k {
        let j = choose|j: int| 0 <= j < t.rows@.len() && t.key_at(j) == k;
        assert(t@.contains_key(t.key_at(j)));
    }
}

/// Positions of the rows whose first key component is `head`, and, when
/// `unread_only`, whose flag is set; in increasing order.
fn rows_of(t: &Table<bool>, head: &str, unread_only: bool) -> (idx: Vec<usize>)
    requires
        t.wf(),
        forall|i: int| 0 <= i < t.rows@.len() ==> t.rows@[i].key@.len() >= 1,
    ensures
        forall|a: int, b: int| 0 <= a < b < idx@.len() ==> idx@[a] < idx@[b],
        forall|a: int|
            0 <= a < idx@.len() ==> {
                &&& idx@[a] < t.rows@.len()
                &&& t.key_at(#[trigger] idx@[a] as int)[0] == head@
                &&& (!unread_only || t.rows@[idx@[a] as int].val)
            },
        forall|j: int|
            0 <= j < t.rows@.len() && t.key_at(j)[0] == head@ && (!unread_only || t.rows@[j].val)
                ==> exists|a: int| 0 <= a < idx@.len() && idx@[a] == j,
{
    let mut idx: Vec<usize> = Vec::new();
    let mut i: usize = 0;
    while i < t.rows.len()
        invariant
            t.wf(),
            forall|i: int| 0 <= i < t.rows@.len() ==> t.rows@[i].key@.len() >= 1,
            i <= t.rows@.len(),
            forall|a: int, b: int| 0 <= a < b < idx@.len() ==> idx@[a] < idx@[b],
            forall|a: int| 0 <= a < idx@.len() ==> idx@[a] < i,
            forall|a: int|
                0 <= a < idx@.len() ==> {
                    &&& t.key_at(#[trigger] idx@[a] as int)[0] == head@
                    &&& (!unread_only || t.rows@[idx@[a] as int].val)
                },
            forall|j: int|
                0 <= j < i && t.key_at(j)[0] == head@ && (!unread_only || t.rows@[j].val)
                    ==> exists|a: int| 0 <= a < idx@.len() && idx@[a] == j,
        decreases t.rows@.len() - i,
    {
        let row = &t.rows[i];
        assert(t.key_at(i as int)[0] == row.key@[0]@);
        if same_text(row.key[0].as_str(), head) && (!unread_only || row.val) {
            let ghost prev = idx@;
            idx.push(i);
            proof {
                assert forall|j: int|
                    0 <= j < i + 1 && t.key_at(j)[0] == head@ && (!unread_only || t.rows@[j].val)
                        implies exists|a: int| 0 <= a < idx@.len() && idx@[a] == j by {
                    if j == i {
                        assert(idx@[idx@.len() - 1] == j);
                    } else {
                        let a = choose|a: int| 0 <= a < prev.len() && prev[a] == j;
                        assert(idx@[a] == j);
                    }
                }
            }
        }
        i = i + 1;
    }
    idx
}

impl SoulStore {
    pub closed spec fn well_formed(&self) -> bool {
        &&& self.souls.wf()
        &&& self.key_subs.wf()
        &&& self.soul_subs.wf()
        &&& keys_have_len(self.souls, 2)
        &&& keys_have_len(self.key_subs, 3)
        &&& keys_have_len(self.soul_subs, 2)
        &&& self.key_subs.rows@.len() + self.soul_subs.rows@.len() <= usize::MAX
    }

    /// How many subscriptions, of either kind, the store holds.
    pub closed spec fn subscription_count(&self) -> nat {
        (self.key_subs.rows@.len() + self.soul_subs.rows@.len()) as nat
    }

    pub closed spec fn contents(&self) -> StoreModel {
        StoreModel {
            souls: Map::new(|k: Seq<Seq<char>>| self.souls@.contains_key(k), |k: Seq<Seq<char>>| self.souls@[k]@),
            key_subs: self.key_subs@,
            soul_subs: self.soul_subs@,
        }
    }

    /// A well-formed store holds finitely many entries.
    pub proof fn lemma_contents_valid(&self)
        requires
            self.well_formed(),
        ensures
            self.contents().valid(),
    {
        assert(self.contents().souls.dom() =~= self.souls@.dom());
    }

    /// The count of subscriptions is that of the model.
    pub proof fn lemma_subscription_count(&self)
        requires
            self.well_formed(),
        ensures
            self.subscription_count() == self.contents().watch_count(),
    {
        self.key_subs.lemma_len();
        self.soul_subs.lemma_len();
    }

    /// An empty store.
    pub fn new() -> (s: Self)
        ensures
            s.well_formed(),
            s.contents() == StoreModel::empty(),
            s.subscription_count() == 0,
    {
        let s = SoulStore { souls: Table::new(), key_subs: Table::new(), soul_subs: Table::new() };
        assert(s.contents().souls =~= Map::<Seq<Seq<char>>, Seq<char>>::empty());
        s
    }

    /// Marks unread every key subscription whose target and key are given.
    fn fire_key_subs(&mut self, target: &str, key: &str)
        requires
            old(self).well_formed(),
        ensures
            final(self).well_formed(),
            final(self).contents() == old(self).contents().fire_key(target@, key@),
    {
        let ghost t0 = self.key_subs;
        let mut i: usize = 0;
        while i < self.key_subs.rows.len()
            invariant
                self.souls == old(self).souls,
                self.soul_subs == old(self).soul_subs,
                t0 == old(self).key_subs,
                old(self).well_formed(),
                self.key_subs.wf(),
                self.key_subs.rows@.len() == t0.rows@.len(),
                i <= t0.rows@.len(),
                forall|j: int|
                    0 <= j < t0.rows@.len() ==> #[trigger] self.key_subs.key_at(j) == t0.key_at(j),
                forall|j: int|
                    0 <= j < t0.rows@.len() ==> #[trigger] self.key_subs.rows@[j].val == if j < i
                        && t0.key_at(j)[1] == target@ && t0.key_at(j)[2] == key@ {
                        true
                    } else {
                        t0.rows@[j].val
                    },
            decreases t0.rows@.len() - i,
        {
            proof {
                lemma_row_key_len(t0, 3, i as int);
                assert(self.key_subs.key_at(i as int) == t0.key_at(i as int));
                assert(self.key_subs.rows@[i as int].key@.len() == 3);
            }
            let hit = {
                let row = &self.key_subs.rows[i];
                assert(self.key_subs.key_at(i as int)[1] == row.key@[1]@);
                assert(self.key_subs.key_at(i as int)[2] == row.key@[2]@);
                same_text(row.key[1].as_str(), target) && same_text(row.key[2].as_str(), key)
            };
            if hit {
                self.key_subs.set_val(i, true);
            }
            i = i + 1;
        }
        proof {
            let m = old(self).contents().fire_key(target@, key@);
            assert forall|k: Seq<Seq<char>>| #[trigger] self.key_subs@.contains_key(k) <==> t0@.contains_key(k) by {
                lemma_contains_iff_row(self.key_subs, k);
                lemma_contains_iff_row(t0, k);
                if self.key_subs@.contains_key(k) {
                    let j = choose|j: int| 0 <= j < self.key_subs.rows@.len() && self.key_subs.key_at(j) == k;
                    assert(t0.key_at(j) == k);
                }
                if t0@.contains_key(k) {
                    let j = choose|j: int| 0 <= j < t0.rows@.len() && t0.key_at(j) == k;
                    assert(self.key_subs.key_at(j) == k);
                }
            }
            assert forall|k: Seq<Seq<char>>| #[trigger] self.key_subs@.contains_key(k) implies self.key_subs@[k] == m.key_subs[k] by {
                let j = choose|j: int| 0 <= j < self.key_subs.rows@.len() && self.key_subs.key_at(j) == k;
                assert(t0@.contains_key(t0.key_at(j)));
            }
            assert(self.key_subs@ =~= m.key_subs);
            assert forall|k: Seq<Seq<char>>| #[trigger] self.key_subs@.contains_key(k) implies k.len() == 3 by {
                assert(t0@.contains_key(k));
            }
        }
    }

    /// Marks unread every soul subscription on `target`.
    fn fire_soul_subs(&mut self, target: &str)
        requires
            old(self).well_formed(),
        ensures
            final(self).well_formed(),
            final(self).contents() == old(self).contents().fire_soul(target@),
    {
        let ghost t0 = self.soul_subs;
        let mut i: usize = 0;
        while i < self.soul_subs.rows.len()
            invariant
                self.souls == old(self).souls,
                self.key_subs == old(self).key_subs,
                t0 == old(self).soul_subs,
                old(self).well_formed(),
                self.soul_subs.wf(),
                self.soul_subs.rows@.len() == t0.rows@.len(),
                i <= t0.rows@.len(),
                forall|j: int|
                    0 <= j < t0.rows@.len() ==> #[trigger] self.soul_subs.key_at(j) == t0.key_at(j),
                forall|j: int|
                    0 <= j < t0.rows@.len() ==> #[trigger] self.soul_subs.rows@[j].val == if j < i
                        && t0.key_at(j)[1] == target@ {
                        true
                    } else {
                        t0.rows@[j].val
                    },
            decreases t0.rows@.len() - i,
        {
            proof {
                lemma_row_key_len(t0, 2, i as int);
                assert(self.soul_subs.key_at(i as int) == t0.key_at(i as int));
                assert(self.soul_subs.rows@[i as int].key@.len() == 2);
            }
            let hit = {
                let row = &self.soul_subs.rows[i];
                assert(self.soul_subs.key_at(i as int)[1] == row.key@[1]@);
                same_text(row.key[1].as_str(), target)
            };
            if hit {
                self.soul_subs.set_val(i, true);
            }
            i = i + 1;
        }
        proof {
            let m = old(self).contents().fire_soul(target@);
            assert forall|k: Seq<Seq<char>>| #[trigger] self.soul_subs@.contains_key(k) <==> t0@.contains_key(k) by {
                lemma_contains_iff_row(self.soul_subs, k);
                lemma_contains_iff_row(t0, k);
                if self.soul_subs@.contains_key(k) {
                    let j = choose|j: int| 0 <= j < self.soul_subs.rows@.len() && self.soul_subs.key_at(j) == k;
                    assert(t0.key_at(j) == k);
                }
                if t0@.contains_key(k) {
                    let j = choose|j: int| 0 <= j < t0.rows@.len() && t0.key_at(j) == k;
                    assert(self.soul_subs.key_at(j) == k);
                }
            }
            assert forall|k: Seq<Seq<char>>| #[trigger] self.soul_subs@.contains_key(k) implies self.soul_subs@[k] == m.soul_subs[k] by {
                let j = choose|j: int| 0 <= j < self.soul_subs.rows@.len() && self.soul_subs.key_at(j) == k;
                assert(t0@.contains_key(t0.key_at(j)));
            }
            assert(self.soul_subs@ =~= m.soul_subs);
            assert forall|k: Seq<Seq<char>>| #[trigger] self.soul_subs@.contains_key(k) implies k.len() == 2 by {
                assert(t0@.contains_key(k));
            }
        }
    }
}


impl SoulStore {
    /// The keys of `target`'s soul, in order.
    fn keys_of(&self, target: &str) -> (out: Vec<String>)
        requires
            self.well_formed(),
        ensures
            strs_view(out@) == sorted_strs(self.contents().keys(target@)),
    {
        let mut out: Vec<String> = Vec::new();
        let mut i: usize = 0;
        while i < self.souls.rows.len()
            invariant
                self.well_formed(),
                i <= self.souls.rows@.len(),
                strs_sorted(strs_view(out@)),
                forall|x: Seq<char>|
                    strs_view(out@).contains(x) <==> exists|j: int|
                        0 <= j < i && #[trigger] self.souls.key_at(j) == seq![target@, x],
            decreases self.souls.rows@.len() - i,
        {
            proof {
                lemma_row_key_len(self.souls, 2, i as int);
            }
            let row = &self.souls.rows[i];
            let ghost ki = self.souls.key_at(i as int);
            assert(ki[0] == row.key@[0]@);
            assert(ki[1] == row.key@[1]@);
            if same_text(row.key[0].as_str(), target) {
                let ghost prev = strs_view(out@);
                let k = row.key[1].clone();
                out.push(k);
                proof {
                    assert(ki =~= seq![target@, k@]);
                    assert(strs_view(out@) =~= prev.push(k@));
                    assert forall|a: int, b: int|
                        0 <= a < b < strs_view(out@).len() implies str_lt(
                        #[trigger] strs_view(out@)[a],
                        #[trigger] strs_view(out@)[b],
                    ) by {
                        if b == prev.len() {
                            assert(prev.contains(prev[a]));
                            let j = choose|j: int|
                                0 <= j < i && #[trigger] self.souls.key_at(j) == seq![target@, prev[a]];
                            assert(keys_lt(self.souls.key_at(j), ki));
                            lemma_keys_lt_same_head(self.souls.key_at(j), ki);
                            assert(self.souls.key_at(j).drop_first() =~= seq![prev[a]]);
                            assert(ki.drop_first() =~= seq![k@]);
                            lemma_keys_lt_single(prev[a], k@);
                        } else {
                            assert(str_lt(prev[a], prev[b]));
                        }
                    }
                    assert forall|x: Seq<char>|
                        strs_view(out@).contains(x) <==> exists|j: int|
                            0 <= j < i + 1 && #[trigger] self.souls.key_at(j) == seq![target@, x] by {
                        if strs_view(out@).contains(x) {
                            if x == k@ {
                                assert(self.souls.key_at(i as int) == seq![target@, x]);
                            } else {
                                let c = choose|c: int| 0 <= c < strs_view(out@).len() && strs_view(out@)[c] == x;
                                assert(prev[c] == x);
                                assert(prev.contains(x));
                            }
                        }
                        if exists|j: int| 0 <= j < i + 1 && #[trigger] self.souls.key_at(j) == seq![target@, x] {
                            let j = choose|j: int| 0 <= j < i + 1 && #[trigger] self.souls.key_at(j) == seq![target@, x];
                            if j == i {
                                assert(seq![target@, x][1] == x);
                                assert(x == k@);
                                assert(strs_view(out@)[prev.len() as int] == x);
                            } else {
                                assert(prev.contains(x));
                                let c = choose|c: int| 0 <= c < prev.len() && prev[c] == x;
                                assert(strs_view(out@)[c] == x);
                            }
                        }
                    }
                }
            } else {
                proof {
                    assert forall|x: Seq<char>|
                        strs_view(out@).contains(x) <==> exists|j: int|
                            0 <= j < i + 1 && #[trigger] self.souls.key_at(j) == seq![target@, x] by {
                        if exists|j: int| 0 <= j < i + 1 && #[trigger] self.souls.key_at(j) == seq![target@, x] {
                            let j = choose|j: int| 0 <= j < i + 1 && #[trigger] self.souls.key_at(j) == seq![target@, x];
                            if j == i {
                                assert(seq![target@, x][0] == target@);
                            }
                            assert(exists|j: int| 0 <= j < i && #[trigger] self.souls.key_at(j) == seq![target@, x]);
                        }
                    }
                }
            }
            i = i + 1;
        }
        proof {
            let keys = self.contents().keys(target@);
            assert forall|x: Seq<char>| strs_view(out@).to_set().contains(x) <==> keys.contains(x) by {
                lemma_contains_iff_row(self.souls, seq![target@, x]);
            }
            assert(strs_view(out@).to_set() =~= keys);
            lemma_is_sorted_strs(strs_view(out@), keys);
        }
        out
    }
}


impl SoulStore {
    /// `sub`'s key subscriptions (only the unread ones when `unread_only`),
    /// in order, with the positions of their rows.
    fn key_part(&self, sub: &str, unread_only: bool) -> (res: (Vec<usize>, Vec<Notification>))
        requires
            self.well_formed(),
        ensures
            ({
                let g = sorted_keys(self.contents().watched_keys(sub@, unread_only));
                &&& keys_sorted(g)
                &&& g.to_set() == self.contents().watched_keys(sub@, unread_only)
                &&& res.0@.len() == g.len()
                &&& notifications_view(res.1@) == g.map_values(|p: Seq<Seq<char>>| key_entry(p))
                &&& forall|a: int, b: int| 0 <= a < b < res.0@.len() ==> res.0@[a] < res.0@[b]
                &&& forall|a: int|
                    0 <= a < res.0@.len() ==> {
                        &&& res.0@[a] < self.key_subs.rows@.len()
                        &&& self.key_subs.key_at(#[trigger] res.0@[a] as int) == seq![sub@] + g[a]
                        &&& (!unread_only || self.key_subs.rows@[res.0@[a] as int].val)
                    }
            }),
    {
        proof {
            assert forall|i: int| 0 <= i < self.key_subs.rows@.len() implies self.key_subs.rows@[i].key@.len() >= 1 by {
                lemma_row_key_len(self.key_subs, 3, i);
            }
        }
        let idx = rows_of(&self.key_subs, sub, unread_only);
        let ghost t = self.key_subs;
        let ghost g0 = idx@.map_values(|j: usize| t.key_at(j as int).drop_first());
        let mut out: Vec<Notification> = Vec::new();
        let mut a: usize = 0;
        while a < idx.len()
            invariant
                self.well_formed(),
                t == self.key_subs,
                g0 == idx@.map_values(|j: usize| t.key_at(j as int).drop_first()),
                a <= idx@.len(),
                forall|c: int| 0 <= c < idx@.len() ==> #[trigger] idx@[c] < t.rows@.len(),
                notifications_view(out@) == g0.take(a as int).map_values(|p: Seq<Seq<char>>| key_entry(p)),
            decreases idx@.len() - a,
        {
            let j = idx[a];
            proof {
                lemma_row_key_len(t, 3, j as int);
            }
            let row = &self.key_subs.rows[j];
            let n = Notification { target: row.key[1].clone(), scope: Scope::Key(row.key[2].clone()) };
            let ghost prev = out@;
            out.push(n);
            proof {
                assert(g0[a as int] =~= seq![t.key_at(j as int)[1], t.key_at(j as int)[2]]);
                assert(n@ == key_entry(g0[a as int]));
                assert(notifications_view(out@) =~= notifications_view(prev).push(n@));
                assert(g0.take(a + 1) =~= g0.take(a as int).push(g0[a as int]));
                assert(notifications_view(out@) =~= g0.take(a + 1).map_values(|p: Seq<Seq<char>>| key_entry(p)));
            }
            a = a + 1;
        }
        proof {
            assert(g0.take(idx@.len() as int) =~= g0);
            let set = self.contents().watched_keys(sub@, unread_only);
            assert forall|c: int, d: int| 0 <= c < d < g0.len() implies keys_lt(#[trigger] g0[c], #[trigger] g0[d]) by {
                assert(keys_lt(t.key_at(idx@[c] as int), t.key_at(idx@[d] as int)));
                lemma_row_key_len(t, 3, idx@[c] as int);
                lemma_row_key_len(t, 3, idx@[d] as int);
                lemma_keys_lt_same_head(t.key_at(idx@[c] as int), t.key_at(idx@[d] as int));
            }
            assert forall|p: Seq<Seq<char>>| g0.to_set().contains(p) <==> set.contains(p) by {
                if g0.to_set().contains(p) {
                    let c = choose|c: int| 0 <= c < g0.len() && g0[c] == p;
                    let j = idx@[c] as int;
                    lemma_row_key_len(t, 3, j);
                    assert(t.key_at(j) =~= seq![sub@, p[0], p[1]]);
                    assert(t@.contains_key(t.key_at(j)));
                }
                if set.contains(p) {
                    let k = seq![sub@, p[0], p[1]];
                    lemma_contains_iff_row(t, k);
                    let j = choose|j: int| 0 <= j < t.rows@.len() && t.key_at(j) == k;
                    assert(t.key_at(j)[0] == sub@);
                    let c = choose|c: int| 0 <= c < idx@.len() && idx@[c] == j;
                    assert(g0[c] =~= p);
                }
            }
            assert(g0.to_set() =~= set);
            lemma_is_sorted_keys(g0, set);
            assert forall|c: int| 0 <= c < idx@.len() implies t.key_at(#[trigger] idx@[c] as int) == seq![sub@] + g0[c] by {
                lemma_row_key_len(t, 3, idx@[c] as int);
                assert(t.key_at(idx@[c] as int) =~= seq![sub@] + g0[c]);
            }
        }
        (idx, out)
    }

    /// `sub`'s soul subscriptions (only the unread ones when `unread_only`),
    /// in order, with the positions of their rows.
    fn soul_part(&self, sub: &str, unread_only: bool) -> (res: (Vec<usize>, Vec<Notification>))
        requires
            self.well_formed(),
        ensures
            ({
                let g = sorted_strs(self.contents().watched_souls(sub@, unread_only));
                &&& strs_sorted(g)
                &&& g.to_set() == self.contents().watched_souls(sub@, unread_only)
                &&& res.0@.len() == g.len()
                &&& notifications_view(res.1@) == g.map_values(|t: Seq<char>| soul_entry(t))
                &&& forall|a: int, b: int| 0 <= a < b < res.0@.len() ==> res.0@[a] < res.0@[b]
                &&& forall|a: int|
                    0 <= a < res.0@.len() ==> {
                        &&& res.0@[a] < self.soul_subs.rows@.len()
                        &&& self.soul_subs.key_at(#[trigger] res.0@[a] as int) == seq![sub@, g[a]]
                        &&& (!unread_only || self.soul_subs.rows@[res.0@[a] as int].val)
                    }
            }),
    {
        proof {
            assert forall|i: int| 0 <= i < self.soul_subs.rows@.len() implies self.soul_subs.rows@[i].key@.len() >= 1 by {
                lemma_row_key_len(self.soul_subs, 2, i);
            }
        }
        let idx = rows_of(&self.soul_subs, sub, unread_only);
        let ghost t = self.soul_subs;
        let ghost g0 = idx@.map_values(|j: usize| t.key_at(j as int)[1]);
        let mut out: Vec<Notification> = Vec::new();
        let mut a: usize = 0;
        while a < idx.len()
            invariant
                self.well_formed(),
                t == self.soul_subs,
                g0 == idx@.map_values(|j: usize| t.key_at(j as int)[1]),
                a <= idx@.len(),
                forall|c: int| 0 <= c < idx@.len() ==> #[trigger] idx@[c] < t.rows@.len(),
                notifications_view(out@) == g0.take(a as int).map_values(|x: Seq<char>| soul_entry(x)),
            decreases idx@.len() - a,
        {
            let j = idx[a];
            proof {
                lemma_row_key_len(t, 2, j as int);
            }
            let row = &self.soul_subs.rows[j];
            let n = Notification { target: row.key[1].clone(), scope: Scope::Soul };
            let ghost prev = out@;
            out.push(n);
            proof {
                assert(n@ == soul_entry(g0[a as int]));
                assert(notifications_view(out@) =~= notifications_view(prev).push(n@));
                assert(g0.take(a + 1) =~= g0.take(a as int).push(g0[a as int]));
                assert(notifications_view(out@) =~= g0.take(a + 1).map_values(|x: Seq<char>| soul_entry(x)));
            }
            a = a + 1;
        }
        proof {
            assert(g0.take(idx@.len() as int) =~= g0);
            let set = self.contents().watched_souls(sub@, unread_only);
            assert forall|c: int, d: int| 0 <= c < d < g0.len() implies str_lt(#[trigger] g0[c], #[trigger] g0[d]) by {
                let kc = t.key_at(idx@[c] as int);
                let kd = t.key_at(idx@[d] as int);
                assert(keys_lt(kc, kd));
                lemma_row_key_len(t, 2, idx@[c] as int);
                lemma_row_key_len(t, 2, idx@[d] as int);
                lemma_keys_lt_same_head(kc, kd);
                assert(kc.drop_first() =~= seq![g0[c]]);
                assert(kd.drop_first() =~= seq![g0[d]]);
                lemma_keys_lt_single(g0[c], g0[d]);
            }
            assert forall|x: Seq<char>| g0.to_set().contains(x) <==> set.contains(x) by {
                if g0.to_set().contains(x) {
                    let c = choose|c: int| 0 <= c < g0.len() && g0[c] == x;
                    let j = idx@[c] as int;
                    lemma_row_key_len(t, 2, j);
                    assert(t.key_at(j) =~= seq![sub@, x]);
                    assert(t@.contains_key(t.key_at(j)));
                }
                if set.contains(x) {
                    let k = seq![sub@, x];
                    lemma_contains_iff_row(t, k);
                    let j = choose|j: int| 0 <= j < t.rows@.len() && t.key_at(j) == k;
                    assert(t.key_at(j)[0] == sub@);
                    let c = choose|c: int| 0 <= c < idx@.len() && idx@[c] == j;
                    assert(g0[c] == x);
                }
            }
            assert(g0.to_set() =~= set);
            lemma_is_sorted_strs(g0, set);
            assert forall|c: int| 0 <= c < idx@.len() implies t.key_at(#[trigger] idx@[c] as int) == seq![sub@, g0[c]] by {
                lemma_row_key_len(t, 2, idx@[c] as int);
                assert(t.key_at(idx@[c] as int) =~= seq![sub@, g0[c]]);
            }
        }
        (idx, out)
    }
}


/// A strictly increasing sequence of positions below `n` has at most `n`
/// members.
proof fn lemma_increasing_len(s: Seq<usize>, n: int)
    requires
        0 <= n,
        forall|a: int, b: int| 0 <= a < b < s.len() ==> s[a] < s[b],
        forall|a: int| 0 <= a < s.len() ==> s[a] < n,
    ensures
        s.len() <= n,
    decreases s.len(),
{
    if s.len() > 0 {
        let t = s.drop_last();
        assert forall|a: int| 0 <= a < t.len() implies t[a] < s[s.len() - 1] by {
            assert(s[a] < s[s.len() - 1]);
        }
        lemma_increasing_len(t, s[s.len() - 1] as int);
        assert(s[s.len() - 1] < n);
        assert(t.len() == s.len() - 1);
    }
}

impl Database for SoulStore {
    type Error = StoreError;

    open spec fn inv(&self) -> bool {
        self.well_formed()
    }

    open spec fn model(&self) -> StoreModel {
        self.contents()
    }

    /// There is room for one more subscription. How each operation changes
    /// the count is in [`crate::model::group_watch_count`].
    open spec fn serves(&self) -> bool {
        self.model().watch_count() < usize::MAX
    }

    proof fn lemma_model_valid(&self) {
        self.lemma_contents_valid();
    }

    fn list_keys(&mut self, reader: Option<&str>, target: &str) -> (r: Result<Vec<String>, StoreError>)
        ensures
            r is Ok,
    {
        let keys = self.keys_of(target);
        if let Some(rd) = reader {
            let k = key2(rd, target);
            let (found, pos) = self.soul_subs.find(&k);
            if found {
                self.soul_subs.set_val(pos, false);
                assert(self.soul_subs@.dom() =~= old(self).soul_subs@.dom());
            }
        }
        Ok(keys)
    }

    fn get_key(&mut self, reader: Option<&str>, target: &str, key: &str) -> (r: Result<
        Option<String>,
        StoreError,
    >)
        ensures
            r is Ok,
    {
        let k = key2(target, key);
        let v = match self.souls.get(&k) {
            Some(s) => Some(s.clone()),
            None => None,
        };
        if let Some(rd) = reader {
            let k3 = key3(rd, target, key);
            let (found, pos) = self.key_subs.find(&k3);
            if found {
                self.key_subs.set_val(pos, false);
                assert(self.key_subs@.dom() =~= old(self).key_subs@.dom());
            }
        }
        Ok(v)
    }

    fn set_key(&mut self, owner: &str, key: &str, value: &str) -> (r: Result<(), StoreError>)
        ensures
            r is Ok,
    {
        let k = key2(owner, key);
        let inserted = self.souls.upsert(k, value.to_owned());
        proof {
            assert(self.contents().souls =~= old(self).contents().souls.insert(
                seq![owner@, key@],
                value@,
            ));
        }
        let ghost mid = self.contents();
        self.fire_key_subs(owner, key);
        if write_fires_soul(!inserted) {
            self.fire_soul_subs(owner);
        }
        proof {
            let m0 = old(self).contents();
            let written = StoreModel { souls: m0.souls.insert(seq![owner@, key@], value@), ..m0.fire_key(owner@, key@) };
            assert(mid.fire_key(owner@, key@) == written);
        }
        Ok(())
    }

    fn delete_key(&mut self, owner: &str, key: &str) -> (r: Result<bool, StoreError>)
        ensures
            r is Ok,
    {
        let k = key2(owner, key);
        let removed = self.souls.remove(&k);
        proof {
            assert(self.contents().souls =~= old(self).contents().souls.remove(seq![owner@, key@]));
        }
        if delete_fires(removed) {
            self.fire_key_subs(owner, key);
            self.fire_soul_subs(owner);
        } else {
            assert(self.contents().souls =~= old(self).contents().souls);
        }
        Ok(removed)
    }

    fn subscribe_key(&mut self, subscriber: &str, target: &str, key: &str) -> (r: Result<
        (),
        StoreError,
    >)
        ensures
            old(self).subscription_count() < usize::MAX ==> r is Ok,
    {
        proof {
            self.lemma_subscription_count();
        }
        let k = key3(subscriber, target, key);
        let (found, _pos) = self.key_subs.find(&k);
        if found {
            return Ok(());
        }
        if self.key_subs.rows.len() >= usize::MAX - self.soul_subs.rows.len() {
            return Err(StoreError);
        }
        let _ = self.key_subs.upsert(k, false);
        Ok(())
    }

    fn subscribe_soul(&mut self, subscriber: &str, target: &str) -> (r: Result<(), StoreError>)
        ensures
            old(self).subscription_count() < usize::MAX ==> r is Ok,
    {
        proof {
            self.lemma_subscription_count();
        }
        let k = key2(subscriber, target);
        let (found, _pos) = self.soul_subs.find(&k);
        if found {
            return Ok(());
        }
        if self.soul_subs.rows.len() >= usize::MAX - self.key_subs.rows.len() {
            return Err(StoreError);
        }
        let _ = self.soul_subs.upsert(k, false);
        Ok(())
    }

    fn unsubscribe_key(&mut self, subscriber: &str, target: &str, key: &str) -> (r: Result<
        (),
        StoreError,
    >)
        ensures
            r is Ok,
    {
        let k = key3(subscriber, target, key);
        let _ = self.key_subs.remove(&k);
        Ok(())
    }

    fn unsubscribe_soul(&mut self, subscriber: &str, target: &str) -> (r: Result<(), StoreError>)
        ensures
            r is Ok,
    {
        let k = key2(subscriber, target);
        let _ = self.soul_subs.remove(&k);
        Ok(())
    }

    fn subscriptions(&mut self, entity: &str) -> (r: Result<Vec<Subscription>, StoreError>)
        ensures
            r is Ok,
    {
        let (_ki, mut kn) = self.key_part(entity, false);
        let (_si, mut sn) = self.soul_part(entity, false);
        let ghost kv = notifications_view(kn@);
        let ghost sv = notifications_view(sn@);
        kn.append(&mut sn);
        let ghost all = notifications_view(kn@);
        assert(all =~= kv + sv);
        let mut out: Vec<Subscription> = Vec::new();
        let mut i: usize = 0;
        while i < kn.len()
            invariant
                i <= kn@.len(),
                all == notifications_view(kn@),
                subscriptions_view(out@) == all.take(i as int),
            decreases kn@.len() - i,
        {
            let n = &kn[i];
            let scope = match &n.scope {
                Scope::Key(k) => Scope::Key(k.clone()),
                Scope::Soul => Scope::Soul,
            };
            let s = Subscription { target: n.target.clone(), scope };
            let ghost prev = out@;
            out.push(s);
            proof {
                assert(s@ == all[i as int]);
                assert(subscriptions_view(out@) =~= subscriptions_view(prev).push(s@));
                assert(all.take(i + 1) =~= all.take(i as int).push(all[i as int]));
            }
            i = i + 1;
        }
        assert(all.take(kn@.len() as int) =~= all);
        Ok(out)
    }

    fn notifications(&mut self, subscriber: &str) -> (r: Result<Vec<Notification>, StoreError>)
        ensures
            r is Ok,
    {
        let (_ki, mut kn) = self.key_part(subscriber, true);
        let (_si, mut sn) = self.soul_part(subscriber, true);
        let ghost kv = notifications_view(kn@);
        let ghost sv = notifications_view(sn@);
        kn.append(&mut sn);
        assert(notifications_view(kn@) =~= kv + sv);
        Ok(kn)
    }

    fn take_notifications(&mut self, subscriber: &str, limit: u32) -> (r: Result<
        (Vec<Notification>, usize),
        StoreError,
    >)
        ensures
            r is Ok,
    {
        let (kidx, mut kn) = self.key_part(subscriber, true);
        let (sidx, mut sn) = self.soul_part(subscriber, true);
        let ghost m0 = self.contents();
        let ghost gk = sorted_keys(m0.watched_keys(subscriber@, true));
        let ghost gs = sorted_strs(m0.watched_souls(subscriber@, true));
        let ghost pend = m0.pending(subscriber@);
        let ghost kv = notifications_view(kn@);
        let ghost sv = notifications_view(sn@);
        proof {
            lemma_increasing_len(kidx@, self.key_subs.rows@.len() as int);
            lemma_increasing_len(sidx@, self.soul_subs.rows@.len() as int);
            assert(pend =~= kv + sv);
        }
        let (nk, ns, remaining) = claim_split(limit, kidx.len(), sidx.len());
        let ghost n = nk + ns;
        let ghost taken = pend.take(n as int);
        let ghost t0 = self.key_subs;
        let ghost u0 = self.soul_subs;
        // Mark the claimed key subscriptions read.
        let mut a: usize = 0;
        while a < nk
            invariant
                self.souls == old(self).souls,
                self.soul_subs == u0,
                t0 == old(self).key_subs,
                old(self).well_formed(),
                self.key_subs.wf(),
                nk <= kidx@.len(),
                a <= nk,
                self.key_subs.rows@.len() == t0.rows@.len(),
                forall|c: int, d: int| 0 <= c < d < kidx@.len() ==> kidx@[c] < kidx@[d],
                forall|c: int| 0 <= c < kidx@.len() ==> #[trigger] kidx@[c] < t0.rows@.len(),
                forall|j: int|
                    0 <= j < t0.rows@.len() ==> #[trigger] self.key_subs.key_at(j) == t0.key_at(j),
                forall|j: int|
                    0 <= j < t0.rows@.len() ==> #[trigger] self.key_subs.rows@[j].val == if exists|c: int|
                        0 <= c < a && kidx@[c] == j {
                        false
                    } else {
                        t0.rows@[j].val
                    },
            decreases nk - a,
        {
            let j = kidx[a];
            let ghost before = self.key_subs;
            self.key_subs.set_val(j, false);
            proof {
                assert forall|jj: int| 0 <= jj < t0.rows@.len() implies #[trigger] self.key_subs.rows@[jj].val == if exists|c: int|
                    0 <= c < a + 1 && kidx@[c] == jj {
                    false
                } else {
                    t0.rows@[jj].val
                } by {
                    if jj == j {
                        assert(kidx@[a as int] == jj);
                    } else {
                        assert(self.key_subs.rows@[jj].val == before.rows@[jj].val);
                        if exists|c: int| 0 <= c < a + 1 && kidx@[c] == jj {
                            let c = choose|c: int| 0 <= c < a + 1 && kidx@[c] == jj;
                            assert(c != a);
                        }
                    }
                }
            }
            a = a + 1;
        }
        // Mark the claimed soul subscriptions read.
        let ghost t1 = self.key_subs;
        let mut b: usize = 0;
        while b < ns
            invariant
                self.souls == old(self).souls,
                self.key_subs == t1,
                u0 == old(self).soul_subs,
                old(self).well_formed(),
                self.soul_subs.wf(),
                ns <= sidx@.len(),
                b <= ns,
                self.soul_subs.rows@.len() == u0.rows@.len(),
                forall|c: int, d: int| 0 <= c < d < sidx@.len() ==> sidx@[c] < sidx@[d],
                forall|c: int| 0 <= c < sidx@.len() ==> #[trigger] sidx@[c] < u0.rows@.len(),
                forall|j: int|
                    0 <= j < u0.rows@.len() ==> #[trigger] self.soul_subs.key_at(j) == u0.key_at(j),
                forall|j: int|
                    0 <= j < u0.rows@.len() ==> #[trigger] self.soul_subs.rows@[j].val == if exists|c: int|
                        0 <= c < b && sidx@[c] == j {
                        false
                    } else {
                        u0.rows@[j].val
                    },
            decreases ns - b,
        {
            let j = sidx[b];
            let ghost before = self.soul_subs;
            self.soul_subs.set_val(j, false);
            proof {
                assert forall|jj: int| 0 <= jj < u0.rows@.len() implies #[trigger] self.soul_subs.rows@[jj].val == if exists|c: int|
                    0 <= c < b + 1 && sidx@[c] == jj {
                    false
                } else {
                    u0.rows@[jj].val
                } by {
                    if jj == j {
                        assert(sidx@[b as int] == jj);
                    } else {
                        assert(self.soul_subs.rows@[jj].val == before.rows@[jj].val);
                        if exists|c: int| 0 <= c < b + 1 && sidx@[c] == jj {
                            let c = choose|c: int| 0 <= c < b + 1 && sidx@[c] == jj;
                            assert(c != b);
                        }
                    }
                }
            }
            b = b + 1;
        }
        proof {
            self.lemma_claim_keys(old(self).contents(), subscriber@, t0, kidx@, gk, gs, n as int, nk as int);
            self.lemma_claim_souls(old(self).contents(), subscriber@, u0, sidx@, gk, gs, n as int, nk as int);
            assert(self.contents().souls =~= old(self).contents().souls);
        }
        kn.truncate(nk);
        sn.truncate(ns);
        kn.append(&mut sn);
        proof {
            assert(notifications_view(kn@) =~= kv.take(nk as int) + sv.take(ns as int));
            assert(taken =~= kv.take(nk as int) + sv.take(ns as int));
        }
        Ok((kn, remaining))
    }
}


impl SoulStore {
    /// After the claimed key subscriptions are marked read, the key
    /// subscriptions are those of the claimed store.
    proof fn lemma_claim_keys(
        &self,
        m0: StoreModel,
        sub: Seq<char>,
        t0: Table<bool>,
        kidx: Seq<usize>,
        gk: Seq<Seq<Seq<char>>>,
        gs: Seq<Seq<char>>,
        n: int,
        nk: int,
    )
        requires
            t0.wf(),
            keys_have_len(t0, 3),
            m0.key_subs == t0@,
            gk == sorted_keys(m0.watched_keys(sub, true)),
            gs == sorted_strs(m0.watched_souls(sub, true)),
            keys_sorted(gk),
            gk.to_set() == m0.watched_keys(sub, true),
            kidx.len() == gk.len(),
            0 <= n <= gk.len() + gs.len(),
            nk == if n < gk.len() { n } else { gk.len() as int },
            forall|c: int, d: int| 0 <= c < d < kidx.len() ==> kidx[c] < kidx[d],
            forall|c: int|
                0 <= c < kidx.len() ==> {
                    &&& kidx[c] < t0.rows@.len()
                    &&& t0.key_at(#[trigger] kidx[c] as int) == seq![sub] + gk[c]
                },
            self.key_subs.wf(),
            self.key_subs.rows@.len() == t0.rows@.len(),
            forall|j: int|
                0 <= j < t0.rows@.len() ==> #[trigger] self.key_subs.key_at(j) == t0.key_at(j),
            forall|j: int|
                0 <= j < t0.rows@.len() ==> #[trigger] self.key_subs.rows@[j].val == if exists|c: int|
                    0 <= c < nk && kidx[c] == j {
                    false
                } else {
                    t0.rows@[j].val
                },
        ensures
            self.key_subs@ == m0.resolve(sub, m0.pending(sub).take(n)).key_subs,
            keys_have_len(self.key_subs, 3),
    {
        let taken = m0.pending(sub).take(n);
        let target = m0.resolve(sub, taken).key_subs;
        assert forall|k: Seq<Seq<char>>| #[trigger] self.key_subs@.contains_key(k) <==> t0@.contains_key(k) by {
            lemma_contains_iff_row(self.key_subs, k);
            lemma_contains_iff_row(t0, k);
            if self.key_subs@.contains_key(k) {
                let j = choose|j: int| 0 <= j < self.key_subs.rows@.len() && self.key_subs.key_at(j) == k;
                assert(t0.key_at(j) == k);
            }
            if t0@.contains_key(k) {
                let j = choose|j: int| 0 <= j < t0.rows@.len() && t0.key_at(j) == k;
                assert(self.key_subs.key_at(j) == k);
            }
        }
        assert forall|k: Seq<Seq<char>>| #[trigger] self.key_subs@.contains_key(k) implies self.key_subs@[k] == target[k] by {
            let j = choose|j: int| 0 <= j < self.key_subs.rows@.len() && self.key_subs.key_at(j) == k;
            assert(t0.key_at(j) == k);
            assert(t0@.contains_key(k));
            lemma_row_key_len(t0, 3, j);
            let e = EntryView { target: k[1], scope: ScopeView::Key(k[2]) };
            let hit = exists|c: int| 0 <= c < nk && kidx[c] == j;
            if hit {
                let c = choose|c: int| 0 <= c < nk && kidx[c] == j;
                assert(t0.key_at(j) == seq![sub] + gk[c]);
                assert(k[0] == sub);
                assert(gk[c] =~= k.drop_first());
                assert(m0.pending(sub)[c] == key_entry(gk[c]));
                assert(taken[c] == e);
                assert(taken.contains(e));
            } else {
                if k[0] == sub && taken.contains(e) {
                    let c = choose|c: int| 0 <= c < taken.len() && taken[c] == e;
                    if c < gk.len() {
                        assert(taken[c] == key_entry(gk[c]));
                        assert(gk.to_set().contains(gk[c]));
                        assert(gk[c].len() == 2);
                        assert(gk[c] =~= k.drop_first());
                        assert(t0.key_at(kidx[c] as int) =~= k);
                        lemma_rows_distinct(t0, kidx[c] as int, j);
                        assert(c < nk);
                        assert(false);
                    } else {
                        assert(taken[c] == soul_entry(gs[c - gk.len()]));
                        assert(false);
                    }
                }
            }
        }
        assert(self.key_subs@ =~= target);
        assert forall|k: Seq<Seq<char>>| #[trigger] self.key_subs@.contains_key(k) implies k.len() == 3 by {
            assert(t0@.contains_key(k));
        }
    }

    /// After the claimed soul subscriptions are marked read, the soul
    /// subscriptions are those of the claimed store.
    proof fn lemma_claim_souls(
        &self,
        m0: StoreModel,
        sub: Seq<char>,
        u0: Table<bool>,
        sidx: Seq<usize>,
        gk: Seq<Seq<Seq<char>>>,
        gs: Seq<Seq<char>>,
        n: int,
        nk: int,
    )
        requires
            u0.wf(),
            keys_have_len(u0, 2),
            m0.soul_subs == u0@,
            gk == sorted_keys(m0.watched_keys(sub, true)),
            gs == sorted_strs(m0.watched_souls(sub, true)),
            sidx.len() == gs.len(),
            0 <= n <= gk.len() + gs.len(),
            nk == if n < gk.len() { n } else { gk.len() as int },
            forall|c: int, d: int| 0 <= c < d < sidx.len() ==> sidx[c] < sidx[d],
            forall|c: int|
                0 <= c < sidx.len() ==> {
                    &&& sidx[c] < u0.rows@.len()
                    &&& u0.key_at(#[trigger] sidx[c] as int) == seq![sub, gs[c]]
                },
            self.soul_subs.wf(),
            self.soul_subs.rows@.len() == u0.rows@.len(),
            forall|j: int|
                0 <= j < u0.rows@.len() ==> #[trigger] self.soul_subs.key_at(j) == u0.key_at(j),
            forall|j: int|
                0 <= j < u0.rows@.len() ==> #[trigger] self.soul_subs.rows@[j].val == if exists|c: int|
                    0 <= c < n - nk && sidx[c] == j {
                    false
                } else {
                    u0.rows@[j].val
                },
        ensures
            self.soul_subs@ == m0.resolve(sub, m0.pending(sub).take(n)).soul_subs,
            keys_have_len(self.soul_subs, 2),
    {
        let taken = m0.pending(sub).take(n);
        let target = m0.resolve(sub, taken).soul_subs;
        assert forall|k: Seq<Seq<char>>| #[trigger] self.soul_subs@.contains_key(k) <==> u0@.contains_key(k) by {
            lemma_contains_iff_row(self.soul_subs, k);
            lemma_contains_iff_row(u0, k);
            if self.soul_subs@.contains_key(k) {
                let j = choose|j: int| 0 <= j < self.soul_subs.rows@.len() && self.soul_subs.key_at(j) == k;
                assert(u0.key_at(j) == k);
            }
            if u0@.contains_key(k) {
                let j = choose|j: int| 0 <= j < u0.rows@.len() && u0.key_at(j) == k;
                assert(self.soul_subs.key_at(j) == k);
            }
        }
        assert forall|k: Seq<Seq<char>>| #[trigger] self.soul_subs@.contains_key(k) implies self.soul_subs@[k] == target[k] by {
            let j = choose|j: int| 0 <= j < self.soul_subs.rows@.len() && self.soul_subs.key_at(j) == k;
            assert(u0.key_at(j) == k);
            assert(u0@.contains_key(k));
            lemma_row_key_len(u0, 2, j);
            let e = EntryView { target: k[1], scope: ScopeView::Soul };
            let hit = exists|c: int| 0 <= c < n - nk && sidx[c] == j;
            if hit {
                let c = choose|c: int| 0 <= c < n - nk && sidx[c] == j;
                assert(u0.key_at(j) == seq![sub, gs[c]]);
                assert(k[0] == sub);
                assert(k[1] == gs[c]);
                assert(nk == gk.len());
                assert(m0.pending(sub)[gk.len() + c] == soul_entry(gs[c]));
                assert(taken[gk.len() + c] == e);
                assert(taken.contains(e));
            } else {
                if k[0] == sub && taken.contains(e) {
                    let c = choose|c: int| 0 <= c < taken.len() && taken[c] == e;
                    if c < gk.len() {
                        assert(taken[c] == key_entry(gk[c]));
                        assert(false);
                    } else {
                        let d = c - gk.len();
                        assert(taken[c] == soul_entry(gs[d]));
                        assert(gs[d] == k[1]);
                        assert(u0.key_at(sidx[d] as int) =~= k);
                        lemma_rows_distinct(u0, sidx[d] as int, j);
                        assert(false);
                    }
                }
            }
        }
        assert(self.soul_subs@ =~= target);
        assert forall|k: Seq<Seq<char>>| #[trigger] self.soul_subs@.contains_key(k) implies k.len() == 2 by {
            assert(u0@.contains_key(k));
        }
    }
}

} // verus!
