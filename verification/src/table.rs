//! A table of rows kept in strictly increasing order of their composite
//! string keys: the storage under every relation of the soul store.

use vstd::prelude::*;

use crate::text::{
    compare_text, lemma_str_lt_asymmetric, lemma_str_lt_irreflexive, lemma_str_lt_total,
    lemma_str_lt_transitive, str_lt, Order,
};

verus! {

/// The abstract value of a composite key: its components as text.
pub open spec fn key_view(k: Seq<String>) -> Seq<Seq<char>> {
    k.map_values(|s: String| s@)
}

/// Strict lexicographic order on composite keys, component by component.
pub open spec fn keys_lt(a: Seq<Seq<char>>, b: Seq<Seq<char>>) -> bool
    decreases a.len(),
{
    if a.len() == 0 {
        b.len() > 0
    } else if b.len() == 0 {
        false
    } else if a[0] != b[0] {
        str_lt(a[0], b[0])
    } else {
        keys_lt(a.drop_first(), b.drop_first())
    }
}

pub proof fn lemma_keys_lt_irreflexive(a: Seq<Seq<char>>)
    ensures
        !keys_lt(a, a),
    decreases a.len(),
{
    if a.len() > 0 {
        lemma_keys_lt_irreflexive(a.drop_first());
    }
}

pub proof fn lemma_keys_lt_asymmetric(a: Seq<Seq<char>>, b: Seq<Seq<char>>)
    requires
        keys_lt(a, b),
    ensures
        !keys_lt(b, a),
    decreases a.len(),
{
    if a.len() > 0 && b.len() > 0 {
        if a[0] == b[0] {
            lemma_keys_lt_asymmetric(a.drop_first(), b.drop_first());
        } else {
            lemma_str_lt_asymmetric(a[0], b[0]);
        }
    }
}

pub proof fn lemma_keys_lt_transitive(a: Seq<Seq<char>>, b: Seq<Seq<char>>, c: Seq<Seq<char>>)
    requires
        keys_lt(a, b),
        keys_lt(b, c),
    ensures
        keys_lt(a, c),
    decreases a.len(),
{
    if a.len() > 0 && b.len() > 0 && c.len() > 0 {
        if a[0] == b[0] && b[0] == c[0] {
            lemma_keys_lt_transitive(a.drop_first(), b.drop_first(), c.drop_first());
        } else if a[0] == b[0] {
        } else if b[0] == c[0] {
        } else {
            lemma_str_lt_transitive(a[0], b[0], c[0]);
            if a[0] == c[0] {
                lemma_str_lt_asymmetric(a[0], b[0]);
            }
        }
    }
}

pub proof fn lemma_keys_lt_total(a: Seq<Seq<char>>, b: Seq<Seq<char>>)
    requires
        a != b,
    ensures
        keys_lt(a, b) || keys_lt(b, a),
    decreases a.len(),
{
    if a.len() > 0 && b.len() > 0 {
        if a[0] == b[0] {
            if a.drop_first() == b.drop_first() {
                assert(a =~= seq![a[0]] + a.drop_first());
                assert(b =~= seq![b[0]] + b.drop_first());
            }
            lemma_keys_lt_total(a.drop_first(), b.drop_first());
        } else {
            lemma_str_lt_total(a[0], b[0]);
        }
    } else if a.len() == 0 && b.len() == 0 {
        assert(a =~= b);
    }
}

/// Two keys with the same first component are ordered by their remainders.
pub proof fn lemma_keys_lt_same_head(a: Seq<Seq<char>>, b: Seq<Seq<char>>)
    requires
        a.len() > 0,
        b.len() > 0,
        a[0] == b[0],
    ensures
        keys_lt(a, b) == keys_lt(a.drop_first(), b.drop_first()),
{
}

/// One-component keys are ordered as their only component.
pub proof fn lemma_keys_lt_single(a: Seq<char>, b: Seq<char>)
    ensures
        keys_lt(seq![a], seq![b]) == str_lt(a, b),
{
    if a == b {
        lemma_str_lt_irreflexive(a);
        lemma_keys_lt_irreflexive(seq![a]);
    } else {
        assert(seq![a].drop_first() =~= Seq::<Seq<char>>::empty());
        assert(seq![b].drop_first() =~= Seq::<Seq<char>>::empty());
    }
}

/// Compares two composite keys.
pub fn compare_keys(a: &Vec<String>, b: &Vec<String>) -> (r: Order)
    ensures
        r == Order::Less <==> keys_lt(key_view(a@), key_view(b@)),
        r == Order::Equal <==> key_view(a@) == key_view(b@),
        r == Order::Greater <==> keys_lt(key_view(b@), key_view(a@)),
{
    let ghost ka = key_view(a@);
    let ghost kb = key_view(b@);
    let mut i: usize = 0;
    while i < a.len() && i < b.len()
        invariant
            ka == key_view(a@),
            kb == key_view(b@),
            i <= a.len(),
            i <= b.len(),
            ka.take(i as int) == kb.take(i as int),
        decreases a.len() - i,
    {
        let o = compare_text(a[i].as_str(), b[i].as_str());
        match o {
            Order::Equal => {
                assert(ka.take(i + 1) =~= ka.take(i as int).push(ka[i as int]));
                assert(kb.take(i + 1) =~= kb.take(i as int).push(kb[i as int]));
                i = i + 1;
            },
            _ => {
                proof {
                    lemma_keys_lt_skip(ka, kb, i as int);
                    lemma_keys_lt_skip(kb, ka, i as int);
                    assert(ka.skip(i as int)[0] == ka[i as int]);
                    assert(kb.skip(i as int)[0] == kb[i as int]);
                    if o == Order::Less {
                        lemma_str_lt_asymmetric(a[i as int]@, b[i as int]@);
                    } else {
                        lemma_str_lt_asymmetric(b[i as int]@, a[i as int]@);
                    }
                    if ka == kb {
                        assert(ka[i as int] == kb[i as int]);
                    }
                }
                return o;
            },
        }
    }
    proof {
        lemma_keys_lt_skip(ka, kb, i as int);
        lemma_keys_lt_skip(kb, ka, i as int);
    }
    if i == a.len() && i == b.len() {
        proof {
            assert(ka =~= ka.take(i as int));
            assert(kb =~= kb.take(i as int));
            lemma_keys_lt_irreflexive(ka);
        }
        Order::Equal
    } else if i == a.len() {
        proof {
            if ka == kb {
                assert(ka.len() == kb.len());
            }
        }
        Order::Less
    } else {
        proof {
            if ka == kb {
                assert(ka.len() == kb.len());
            }
        }
        Order::Greater
    }
}

proof fn lemma_keys_lt_skip(a: Seq<Seq<char>>, b: Seq<Seq<char>>, i: int)
    requires
        0 <= i <= a.len(),
        i <= b.len(),
        a.take(i) == b.take(i),
    ensures
        keys_lt(a, b) == keys_lt(a.skip(i), b.skip(i)),
    decreases i,
{
    if i > 0 {
        assert(a[0] == a.take(i)[0]);
        assert(b[0] == b.take(i)[0]);
        assert(a.drop_first().take(i - 1) =~= a.take(i).drop_first());
        assert(b.drop_first().take(i - 1) =~= b.take(i).drop_first());
        lemma_keys_lt_skip(a.drop_first(), b.drop_first(), i - 1);
        assert(a.drop_first().skip(i - 1) =~= a.skip(i));
        assert(b.drop_first().skip(i - 1) =~= b.skip(i));
    } else {
        assert(a.skip(0) =~= a);
        assert(b.skip(0) =~= b);
    }
}

/// One row: a composite key and the value stored under it.
pub struct Row<V> {
    pub key: Vec<String>,
    pub val: V,
}

/// Rows in strictly increasing key order; `contents` is the map they hold.
pub struct Table<V> {
    pub rows: Vec<Row<V>>,
    pub contents: Ghost<Map<Seq<Seq<char>>, V>>,
}

impl<V> Table<V> {
    pub open spec fn key_at(self, i: int) -> Seq<Seq<char>> {
        key_view(self.rows@[i].key@)
    }

    pub open spec fn view(self) -> Map<Seq<Seq<char>>, V> {
        self.contents@
    }

    pub open spec fn wf(self) -> bool {
        &&& forall|i: int, j: int|
            0 <= i < j < self.rows@.len() ==> keys_lt(#[trigger] self.key_at(i), #[trigger] self.key_at(j))
        &&& forall|i: int|
            0 <= i < self.rows@.len() ==> {
                &&& self.contents@.contains_key(#[trigger] self.key_at(i))
                &&& self.contents@[self.key_at(i)] == self.rows@[i].val
            }
        &&& forall|k: Seq<Seq<char>>|
            #[trigger] self.contents@.contains_key(k) ==> exists|i: int|
                0 <= i < self.rows@.len() && self.key_at(i) == k
        &&& self.contents@.dom().finite()
    }

    /// A well-formed table has one row per key it holds.
    pub proof fn lemma_len(self)
        requires
            self.wf(),
        ensures
            self.rows@.len() == self@.dom().len(),
    {
        let s = Seq::new(self.rows@.len(), |i: int| self.key_at(i));
        assert forall|i: int, j: int| 0 <= i < s.len() && 0 <= j < s.len() && i != j implies s[i] != s[j] by {
            if i < j {
                assert(keys_lt(self.key_at(i), self.key_at(j)));
                lemma_keys_lt_irreflexive(self.key_at(i));
            } else {
                assert(keys_lt(self.key_at(j), self.key_at(i)));
                lemma_keys_lt_irreflexive(self.key_at(j));
            }
        }
        s.unique_seq_to_set();
        assert forall|k: Seq<Seq<char>>| s.to_set().contains(k) <==> self@.dom().contains(k) by {
            if self@.dom().contains(k) {
                let i = choose|i: int| 0 <= i < self.rows@.len() && self.key_at(i) == k;
                assert(s[i] == k);
            }
            if s.to_set().contains(k) {
                let i = choose|i: int| 0 <= i < s.len() && s[i] == k;
                assert(self.contents@.contains_key(self.key_at(i)));
            }
        }
        assert(s.to_set() =~= self@.dom());
    }

    pub fn new() -> (t: Self)
        ensures
            t.wf(),
            t.view() == Map::<Seq<Seq<char>>, V>::empty(),
            t.rows@.len() == 0,
    {
        Table { rows: Vec::new(), contents: Ghost(Map::empty()) }
    }

    /// The position of `key`: every row before it has a smaller key, and
    /// `found` tells whether the row at it carries `key` itself.
    pub fn find(&self, key: &Vec<String>) -> (res: (bool, usize))
        requires
            self.wf(),
        ensures
            res.1 <= self.rows@.len(),
            forall|i: int| 0 <= i < res.1 ==> keys_lt(#[trigger] self.key_at(i), key_view(key@)),
            res.0 ==> res.1 < self.rows@.len() && self.key_at(res.1 as int) == key_view(key@),
            forall|i: int|
                (if res.0 { res.1 < i } else { res.1 <= i }) && i < self.rows@.len() ==> keys_lt(
                    key_view(key@),
                    #[trigger] self.key_at(i),
                ),
            res.0 == self.view().contains_key(key_view(key@)),
    {
        let mut i: usize = 0;
        while i < self.rows.len()
            invariant
                self.wf(),
                i <= self.rows@.len(),
                forall|j: int| 0 <= j < i ==> keys_lt(#[trigger] self.key_at(j), key_view(key@)),
            decreases self.rows@.len() - i,
        {
            let o = compare_keys(&self.rows[i].key, key);
            match o {
                Order::Less => {
                    i = i + 1;
                },
                Order::Equal => {
                    proof {
                        assert forall|j: int| i < j < self.rows@.len() implies keys_lt(
                            key_view(key@),
                            #[trigger] self.key_at(j),
                        ) by {
                            assert(keys_lt(self.key_at(i as int), self.key_at(j)));
                        }
                    }
                    return (true, i);
                },
                Order::Greater => {
                    proof {
                        assert forall|j: int| i <= j < self.rows@.len() implies keys_lt(
                            key_view(key@),
                            #[trigger] self.key_at(j),
                        ) by {
                            if j > i {
                                assert(keys_lt(self.key_at(i as int), self.key_at(j)));
                                lemma_keys_lt_transitive(
                                    key_view(key@),
                                    self.key_at(i as int),
                                    self.key_at(j),
                                );
                            }
                        }
                        self.lemma_absent_between(key_view(key@), i as int);
                    }
                    return (false, i);
                },
            }
        }
        proof {
            self.lemma_absent_between(key_view(key@), i as int);
        }
        (false, i)
    }

    /// A key strictly between the rows before `p` and those from `p` on is
    /// not in the table.
    proof fn lemma_absent_between(self, k: Seq<Seq<char>>, p: int)
        requires
            self.wf(),
            0 <= p <= self.rows@.len(),
            forall|j: int| 0 <= j < p ==> keys_lt(#[trigger] self.key_at(j), k),
            forall|j: int| p <= j < self.rows@.len() ==> keys_lt(k, #[trigger] self.key_at(j)),
        ensures
            !self.view().contains_key(k),
    {
        if self.contents@.contains_key(k) {
            let j = choose|j: int| 0 <= j < self.rows@.len() && self.key_at(j) == k;
            lemma_keys_lt_irreflexive(k);
            if j < p {
                assert(keys_lt(self.key_at(j), k));
            } else {
                assert(keys_lt(k, self.key_at(j)));
            }
        }
    }

    /// The value stored under `key`, if any.
    pub fn get(&self, key: &Vec<String>) -> (r: Option<&V>)
        requires
            self.wf(),
        ensures
            match r {
                Some(v) => self.view().contains_key(key_view(key@)) && self.view()[key_view(
                    key@,
                )] == *v,
                None => !self.view().contains_key(key_view(key@)),
            },
    {
        let (found, pos) = self.find(key);
        if found {
            Some(&self.rows[pos].val)
        } else {
            None
        }
    }

    /// Stores `val` under `key`, replacing any value there; tells whether the
    /// key is new.
    pub fn upsert(&mut self, key: Vec<String>, val: V) -> (inserted: bool)
        requires
            old(self).wf(),
        ensures
            final(self).wf(),
            final(self).view() == old(self).view().insert(key_view(key@), val),
            inserted == !old(self).view().contains_key(key_view(key@)),
            final(self).rows@.len() == old(self).rows@.len() + if inserted {
                1int
            } else {
                0int
            },
    {
        let (found, pos) = self.find(&key);
        let ghost k = key_view(key@);
        let ghost old_rows = self.rows@;
        let ghost old_t = *self;
        if found {
            self.rows.set(pos, Row { key, val });
            self.contents = Ghost(self.contents@.insert(k, val));
            proof {
                assert(self.key_at(pos as int) == k);
                assert forall|i: int| 0 <= i < self.rows@.len() && i != pos implies #[trigger] self.key_at(i)
                    == old_t.key_at(i) by {}
                assert forall|i: int, j: int|
                    0 <= i < j < self.rows@.len() implies keys_lt(
                    #[trigger] self.key_at(i),
                    #[trigger] self.key_at(j),
                ) by {
                    assert(keys_lt(old_t.key_at(i), old_t.key_at(j)));
                }
                assert forall|i: int| 0 <= i < self.rows@.len() implies {
                    &&& self.contents@.contains_key(#[trigger] self.key_at(i))
                    &&& self.contents@[self.key_at(i)] == self.rows@[i].val
                } by {
                    if i != pos {
                        assert(old_t.contents@.contains_key(old_t.key_at(i)));
                        lemma_keys_lt_irreflexive(k);
                        if i < pos {
                            assert(keys_lt(old_t.key_at(i), old_t.key_at(pos as int)));
                        } else {
                            assert(keys_lt(old_t.key_at(pos as int), old_t.key_at(i)));
                        }
                    }
                }
                assert forall|kk: Seq<Seq<char>>| #[trigger]
                    self.contents@.contains_key(kk) implies exists|i: int|
                    0 <= i < self.rows@.len() && self.key_at(i) == kk by {
                    if kk == k {
                        assert(self.key_at(pos as int) == kk);
                    } else {
                        let i = choose|i: int| 0 <= i < old_rows.len() && old_t.key_at(i) == kk;
                        assert(self.key_at(i) == kk);
                    }
                }
            }
            false
        } else {
            self.rows.insert(pos, Row { key, val });
            self.contents = Ghost(self.contents@.insert(k, val));
            proof {
                assert(self.key_at(pos as int) == k);
                assert forall|i: int| 0 <= i < pos implies #[trigger] self.key_at(i) == old_t.key_at(
                    i,
                ) by {}
                assert forall|i: int|
                    pos < i < self.rows@.len() implies #[trigger] self.key_at(i) == old_t.key_at(
                    i - 1,
                ) by {}
                assert forall|i: int, j: int|
                    0 <= i < j < self.rows@.len() implies keys_lt(
                    #[trigger] self.key_at(i),
                    #[trigger] self.key_at(j),
                ) by {
                    if j < pos {
                        assert(keys_lt(old_t.key_at(i), old_t.key_at(j)));
                    } else if j == pos {
                        assert(keys_lt(old_t.key_at(i), k));
                    } else if i == pos {
                        assert(keys_lt(k, old_t.key_at(j - 1)));
                    } else if i < pos {
                        assert(keys_lt(old_t.key_at(i), k));
                        assert(keys_lt(k, old_t.key_at(j - 1)));
                        lemma_keys_lt_transitive(old_t.key_at(i), k, old_t.key_at(j - 1));
                    } else {
                        assert(keys_lt(old_t.key_at(i - 1), old_t.key_at(j - 1)));
                    }
                }
                assert forall|i: int| 0 <= i < self.rows@.len() implies {
                    &&& self.contents@.contains_key(#[trigger] self.key_at(i))
                    &&& self.contents@[self.key_at(i)] == self.rows@[i].val
                } by {
                    lemma_keys_lt_irreflexive(k);
                    if i < pos {
                        assert(old_t.contents@.contains_key(old_t.key_at(i)));
                        assert(keys_lt(old_t.key_at(i), k));
                    } else if i > pos {
                        assert(old_t.contents@.contains_key(old_t.key_at(i - 1)));
                        assert(keys_lt(k, old_t.key_at(i - 1)));
                    }
                }
                assert forall|kk: Seq<Seq<char>>| #[trigger]
                    self.contents@.contains_key(kk) implies exists|i: int|
                    0 <= i < self.rows@.len() && self.key_at(i) == kk by {
                    if kk == k {
                        assert(self.key_at(pos as int) == kk);
                    } else {
                        let i = choose|i: int| 0 <= i < old_rows.len() && old_t.key_at(i) == kk;
                        if i < pos {
                            assert(self.key_at(i) == kk);
                        } else {
                            assert(self.key_at(i + 1) == kk);
                        }
                    }
                }
            }
            true
        }
    }

    /// Removes the row under `key`, if any; tells whether there was one.
    pub fn remove(&mut self, key: &Vec<String>) -> (removed: bool)
        requires
            old(self).wf(),
        ensures
            final(self).wf(),
            final(self).view() == old(self).view().remove(key_view(key@)),
            removed == old(self).view().contains_key(key_view(key@)),
            final(self).rows@.len() == old(self).rows@.len() - if removed {
                1int
            } else {
                0int
            },
    {
        let (found, pos) = self.find(key);
        let ghost k = key_view(key@);
        let ghost old_rows = self.rows@;
        let ghost old_t = *self;
        if found {
            let _ = self.rows.remove(pos);
            self.contents = Ghost(self.contents@.remove(k));
            proof {
                assert forall|i: int| 0 <= i < pos implies #[trigger] self.key_at(i) == old_t.key_at(
                    i,
                ) by {}
                assert forall|i: int|
                    pos <= i < self.rows@.len() implies #[trigger] self.key_at(i) == old_t.key_at(
                    i + 1,
                ) by {}
                assert forall|i: int, j: int|
                    0 <= i < j < self.rows@.len() implies keys_lt(
                    #[trigger] self.key_at(i),
                    #[trigger] self.key_at(j),
                ) by {
                    if j < pos {
                        assert(keys_lt(old_t.key_at(i), old_t.key_at(j)));
                    } else if i < pos {
                        assert(keys_lt(old_t.key_at(i), old_t.key_at(j + 1)));
                    } else {
                        assert(keys_lt(old_t.key_at(i + 1), old_t.key_at(j + 1)));
                    }
                }
                assert forall|i: int| 0 <= i < self.rows@.len() implies {
                    &&& self.contents@.contains_key(#[trigger] self.key_at(i))
                    &&& self.contents@[self.key_at(i)] == self.rows@[i].val
                } by {
                    lemma_keys_lt_irreflexive(k);
                    if i < pos {
                        assert(old_t.contents@.contains_key(old_t.key_at(i)));
                        assert(keys_lt(old_t.key_at(i), k));
                    } else {
                        assert(old_t.contents@.contains_key(old_t.key_at(i + 1)));
                        assert(keys_lt(k, old_t.key_at(i + 1)));
                    }
                }
                assert forall|kk: Seq<Seq<char>>| #[trigger]
                    self.contents@.contains_key(kk) implies exists|i: int|
                    0 <= i < self.rows@.len() && self.key_at(i) == kk by {
                    let i = choose|i: int| 0 <= i < old_rows.len() && old_t.key_at(i) == kk;
                    assert(i != pos);
                    if i < pos {
                        assert(self.key_at(i) == kk);
                    } else {
                        assert(self.key_at(i - 1) == kk);
                    }
                }
            }
            true
        } else {
            proof {
                assert(self.contents@.remove(k) =~= self.contents@);
            }
            false
        }
    }

    /// Replaces the value of the row at position `i`, keeping its key.
    pub fn set_val(&mut self, i: usize, val: V)
        requires
            old(self).wf(),
            i < old(self).rows@.len(),
        ensures
            final(self).wf(),
            final(self).view() == old(self).view().insert(old(self).key_at(i as int), val),
            final(self).rows@.len() == old(self).rows@.len(),
            forall|j: int|
                0 <= j < final(self).rows@.len() ==> #[trigger] final(self).key_at(j) == old(
                    self,
                ).key_at(j),
            forall|j: int|
                0 <= j < final(self).rows@.len() && j != i ==> #[trigger] final(self).rows@[j].val
                    == old(self).rows@[j].val,
            final(self).rows@[i as int].val == val,
    {
        let ghost old_t = *self;
        let ghost k = self.key_at(i as int);
        let Row { key, val: _ } = self.rows.remove(i);
        self.rows.insert(i, Row { key, val });
        self.contents = Ghost(self.contents@.insert(k, val));
        proof {
            assert forall|j: int| 0 <= j < self.rows@.len() implies #[trigger] self.key_at(j)
                == old_t.key_at(j) by {}
            assert forall|a: int, b: int|
                0 <= a < b < self.rows@.len() implies keys_lt(
                #[trigger] self.key_at(a),
                #[trigger] self.key_at(b),
            ) by {
                assert(keys_lt(old_t.key_at(a), old_t.key_at(b)));
            }
            assert forall|j: int| 0 <= j < self.rows@.len() implies {
                &&& self.contents@.contains_key(#[trigger] self.key_at(j))
                &&& self.contents@[self.key_at(j)] == self.rows@[j].val
            } by {
                if j != i {
                    assert(old_t.contents@.contains_key(old_t.key_at(j)));
                    lemma_keys_lt_irreflexive(k);
                    if j < i {
                        assert(keys_lt(old_t.key_at(j), k));
                    } else {
                        assert(keys_lt(k, old_t.key_at(j)));
                    }
                }
            }
            assert forall|kk: Seq<Seq<char>>| #[trigger]
                self.contents@.contains_key(kk) implies exists|j: int|
                0 <= j < self.rows@.len() && self.key_at(j) == kk by {
                if kk == k {
                    assert(self.key_at(i as int) == kk);
                } else {
                    let j = choose|j: int| 0 <= j < old_t.rows@.len() && old_t.key_at(j) == kk;
                    assert(self.key_at(j) == kk);
                }
            }
        }
    }
}

} // verus!
