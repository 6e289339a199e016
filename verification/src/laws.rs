//! Properties of the soul store that hold across its operations.

use vstd::prelude::*;

use crate::model::{
    key_entry, keys_sorted, lemma_is_sorted_keys, lemma_is_sorted_strs, lemma_sorted_keys_exists,
    lemma_sorted_strs_exists, soul_entry, sorted_keys, sorted_strs, strs_sorted, EntryView,
    ScopeView, StoreModel,
};

verus! {

/// A read of a key gives back the value last written to it.
pub proof fn law_read_after_write(m: StoreModel, owner: Seq<char>, key: Seq<char>, value: Seq<char>)
    ensures
        m.set_key(owner, key, value).value(owner, key) == Some(value),
{
}

/// A write changes no other key, of this soul or another.
pub proof fn law_write_leaves_other_keys(
    m: StoreModel,
    owner: Seq<char>,
    key: Seq<char>,
    value: Seq<char>,
    other_owner: Seq<char>,
    other_key: Seq<char>,
)
    requires
        other_owner != owner || other_key != key,
    ensures
        m.set_key(owner, key, value).value(other_owner, other_key) == m.value(other_owner, other_key),
{
    if other_owner != owner {
        assert(seq![other_owner, other_key][0] != seq![owner, key][0]);
    } else {
        assert(seq![other_owner, other_key][1] != seq![owner, key][1]);
    }
}

/// Souls are per agent: a write to one soul leaves the key set of every
/// other soul as it was.
pub proof fn law_souls_independent(
    m: StoreModel,
    owner: Seq<char>,
    key: Seq<char>,
    value: Seq<char>,
    other: Seq<char>,
)
    requires
        other != owner,
    ensures
        m.set_key(owner, key, value).keys(other) == m.keys(other),
{
    assert forall|k: Seq<char>| m.set_key(owner, key, value).keys(other).contains(k) == m.keys(other).contains(k) by {
        assert(seq![other, k][0] != seq![owner, key][0]);
    }
    assert(m.set_key(owner, key, value).keys(other) =~= m.keys(other));
}

/// After a delete the key is unset.
pub proof fn law_delete_removes(m: StoreModel, owner: Seq<char>, key: Seq<char>)
    ensures
        m.delete_key(owner, key).value(owner, key) is None,
{
}

/// Deleting a key that is not set changes nothing: no value, and no
/// notification fires.
pub proof fn law_delete_absent_changes_nothing(m: StoreModel, owner: Seq<char>, key: Seq<char>)
    requires
        !m.souls.contains_key(seq![owner, key]),
    ensures
        m.delete_key(owner, key) == m,
{
}

/// A write makes every key subscription on that key pending.
pub proof fn law_write_fires_key_subscriptions(
    m: StoreModel,
    owner: Seq<char>,
    key: Seq<char>,
    value: Seq<char>,
    sub: Seq<char>,
)
    requires
        m.key_subs.contains_key(seq![sub, owner, key]),
    ensures
        m.set_key(owner, key, value).has_pending_key(sub, owner, key),
{
    let k = seq![sub, owner, key];
    assert(k[1] == owner && k[2] == key);
}

/// A write that creates a key makes every soul subscription on that soul
/// pending.
pub proof fn law_new_key_fires_soul_subscriptions(
    m: StoreModel,
    owner: Seq<char>,
    key: Seq<char>,
    value: Seq<char>,
    sub: Seq<char>,
)
    requires
        !m.souls.contains_key(seq![owner, key]),
        m.soul_subs.contains_key(seq![sub, owner]),
    ensures
        m.set_key(owner, key, value).has_pending_soul(sub, owner),
{
    assert(seq![sub, owner][1] == owner);
}

/// An overwrite leaves the key set, and so the soul subscriptions, as they
/// were.
pub proof fn law_overwrite_leaves_soul_subscriptions(
    m: StoreModel,
    owner: Seq<char>,
    key: Seq<char>,
    value: Seq<char>,
)
    requires
        m.souls.contains_key(seq![owner, key]),
    ensures
        m.set_key(owner, key, value).soul_subs == m.soul_subs,
        m.set_key(owner, key, value).keys(owner) == m.keys(owner),
{
    assert forall|k: Seq<char>| m.set_key(owner, key, value).keys(owner).contains(k) == m.keys(owner).contains(k) by {}
    assert(m.set_key(owner, key, value).keys(owner) =~= m.keys(owner));
}

/// A delete of a set key makes every subscription on that key and on that
/// soul pending.
pub proof fn law_delete_fires_subscriptions(m: StoreModel, owner: Seq<char>, key: Seq<char>, sub: Seq<char>)
    requires
        m.souls.contains_key(seq![owner, key]),
    ensures
        m.key_subs.contains_key(seq![sub, owner, key]) ==> m.delete_key(owner, key).has_pending_key(
            sub,
            owner,
            key,
        ),
        m.soul_subs.contains_key(seq![sub, owner]) ==> m.delete_key(owner, key).has_pending_soul(
            sub,
            owner,
        ),
{
    assert(seq![sub, owner, key][1] == owner && seq![sub, owner, key][2] == key);
    assert(seq![sub, owner][1] == owner);
}

/// Reading a key resolves the reader's notification on it, and keeps the
/// subscription.
pub proof fn law_read_resolves_key(m: StoreModel, reader: Seq<char>, target: Seq<char>, key: Seq<char>)
    ensures
        !m.read_key(Some(reader), target, key).has_pending_key(reader, target, key),
        m.read_key(Some(reader), target, key).key_subs.dom() == m.key_subs.dom(),
        m.read_key(Some(reader), target, key).souls == m.souls,
{
    if m.key_subs.contains_key(seq![reader, target, key]) {
        assert(m.read_key(Some(reader), target, key).key_subs.dom() =~= m.key_subs.dom());
    }
}

/// Listing a soul resolves the reader's notification on it, and keeps the
/// subscription.
pub proof fn law_list_resolves_soul(m: StoreModel, reader: Seq<char>, target: Seq<char>)
    ensures
        !m.read_keys(Some(reader), target).has_pending_soul(reader, target),
        m.read_keys(Some(reader), target).soul_subs.dom() == m.soul_subs.dom(),
        m.read_keys(Some(reader), target).souls == m.souls,
{
    if m.soul_subs.contains_key(seq![reader, target]) {
        assert(m.read_keys(Some(reader), target).soul_subs.dom() =~= m.soul_subs.dom());
    }
}

/// An anonymous read or listing changes nothing.
pub proof fn law_anonymous_reads_change_nothing(m: StoreModel, target: Seq<char>, key: Seq<char>)
    ensures
        m.read_key(None, target, key) == m,
        m.read_keys(None, target) == m,
{
}

/// Subscribing twice is subscribing once.
pub proof fn law_subscribe_idempotent(m: StoreModel, sub: Seq<char>, target: Seq<char>, key: Seq<char>)
    ensures
        m.subscribe_key(sub, target, key).subscribe_key(sub, target, key) == m.subscribe_key(
            sub,
            target,
            key,
        ),
        m.subscribe_soul(sub, target).subscribe_soul(sub, target) == m.subscribe_soul(sub, target),
{
}

/// A subscription starts caught up, and subscribing again does not reset a
/// pending notification; either way no notification becomes pending.
pub proof fn law_subscribe_adds_nothing_pending(
    m: StoreModel,
    sub: Seq<char>,
    target: Seq<char>,
    key: Seq<char>,
    who: Seq<char>,
)
    ensures
        m.subscribe_key(sub, target, key).key_subs.contains_key(seq![sub, target, key]),
        m.subscribe_soul(sub, target).soul_subs.contains_key(seq![sub, target]),
        m.subscribe_key(sub, target, key).watched_keys(who, true) == m.watched_keys(who, true),
        m.subscribe_soul(sub, target).watched_souls(who, true) == m.watched_souls(who, true),
        m.key_subs.contains_key(seq![sub, target, key]) ==> m.subscribe_key(sub, target, key) == m,
        m.soul_subs.contains_key(seq![sub, target]) ==> m.subscribe_soul(sub, target) == m,
{
    assert(m.subscribe_key(sub, target, key).watched_keys(who, true) =~= m.watched_keys(who, true));
    assert(m.subscribe_soul(sub, target).watched_souls(who, true) =~= m.watched_souls(who, true));
}

/// Subscribing then unsubscribing from a watch not held before leaves the
/// store as it was; unsubscribing from a watch not held changes nothing.
pub proof fn law_unsubscribe_undoes_subscribe(m: StoreModel, sub: Seq<char>, target: Seq<char>, key: Seq<char>)
    ensures
        !m.key_subs.contains_key(seq![sub, target, key]) ==> m.subscribe_key(sub, target, key).unsubscribe_key(
            sub,
            target,
            key,
        ) == m,
        !m.soul_subs.contains_key(seq![sub, target]) ==> m.subscribe_soul(sub, target).unsubscribe_soul(
            sub,
            target,
        ) == m,
        !m.key_subs.contains_key(seq![sub, target, key]) ==> m.unsubscribe_key(sub, target, key) == m,
        !m.soul_subs.contains_key(seq![sub, target]) ==> m.unsubscribe_soul(sub, target) == m,
{
    if !m.key_subs.contains_key(seq![sub, target, key]) {
        assert(m.subscribe_key(sub, target, key).unsubscribe_key(sub, target, key).key_subs =~= m.key_subs);
        assert(m.unsubscribe_key(sub, target, key).key_subs =~= m.key_subs);
    }
    if !m.soul_subs.contains_key(seq![sub, target]) {
        assert(m.subscribe_soul(sub, target).unsubscribe_soul(sub, target).soul_subs =~= m.soul_subs);
        assert(m.unsubscribe_soul(sub, target).soul_subs =~= m.soul_subs);
    }
}

/// After an unsubscribe the watch is gone.
pub proof fn law_unsubscribe_removes(m: StoreModel, sub: Seq<char>, target: Seq<char>, key: Seq<char>)
    ensures
        !m.unsubscribe_key(sub, target, key).key_subs.contains_key(seq![sub, target, key]),
        !m.unsubscribe_soul(sub, target).soul_subs.contains_key(seq![sub, target]),
{
}

/// A read claims at most `limit` notifications, and the claimed ones plus
/// the remaining ones are all that were pending.
pub proof fn law_claim_counts(m: StoreModel, sub: Seq<char>, limit: nat)
    ensures
        m.claimed(sub, limit).len() <= limit,
        m.claimed(sub, limit).len() + (m.pending(sub).len() - m.claim_count(sub, limit)) == m.pending(
            sub,
        ).len(),
        m.claimed(sub, limit) == m.pending(sub).take(m.claimed(sub, limit).len() as int),
{
}

/// Claimed notifications are resolved: none of them is pending afterwards,
/// and every subscription is kept.
pub proof fn law_claim_resolves(m: StoreModel, sub: Seq<char>, limit: nat, target: Seq<char>, key: Seq<char>)
    ensures
        m.claimed(sub, limit).contains(EntryView { target, scope: ScopeView::Key(key) })
            ==> !m.claim(sub, limit).has_pending_key(sub, target, key),
        m.claimed(sub, limit).contains(EntryView { target, scope: ScopeView::Soul })
            ==> !m.claim(sub, limit).has_pending_soul(sub, target),
        m.claim(sub, limit).key_subs.dom() == m.key_subs.dom(),
        m.claim(sub, limit).soul_subs.dom() == m.soul_subs.dom(),
        m.claim(sub, limit).souls == m.souls,
{
    let k3 = seq![sub, target, key];
    assert(k3[0] == sub && k3[1] == target && k3[2] == key);
    let k2 = seq![sub, target];
    assert(k2[0] == sub && k2[1] == target);
    assert(m.claim(sub, limit).key_subs.dom() =~= m.key_subs.dom());
    assert(m.claim(sub, limit).soul_subs.dom() =~= m.soul_subs.dom());
}

/// A read that claims nothing of a notification leaves it pending; another
/// subscriber's notifications are untouched.
pub proof fn law_claim_keeps_the_rest(
    m: StoreModel,
    sub: Seq<char>,
    limit: nat,
    who: Seq<char>,
    target: Seq<char>,
    key: Seq<char>,
)
    ensures
        (who != sub || !m.claimed(sub, limit).contains(EntryView { target, scope: ScopeView::Key(key) }))
            ==> m.claim(sub, limit).has_pending_key(who, target, key) == m.has_pending_key(
            who,
            target,
            key,
        ),
        (who != sub || !m.claimed(sub, limit).contains(EntryView { target, scope: ScopeView::Soul }))
            ==> m.claim(sub, limit).has_pending_soul(who, target) == m.has_pending_soul(who, target),
{
    let k3 = seq![who, target, key];
    assert(k3[0] == who && k3[1] == target && k3[2] == key);
    let k2 = seq![who, target];
    assert(k2[0] == who && k2[1] == target);
}

/// After a read claims notifications, exactly the unclaimed ones are still
/// pending, in the same order: the next read continues where this one
/// stopped.
pub proof fn law_claim_leaves_the_rest_pending(m: StoreModel, sub: Seq<char>, limit: nat)
    requires
        m.valid(),
    ensures
        m.claim(sub, limit).pending(sub) == m.pending(sub).skip(m.claim_count(sub, limit) as int),
{
    m.lemma_watched_finite(sub, true);
    let ks = m.watched_keys(sub, true);
    let ss = m.watched_souls(sub, true);
    lemma_sorted_keys_exists(ks);
    lemma_sorted_strs_exists(ss);
    let gk = sorted_keys(ks);
    let gs = sorted_strs(ss);
    let pend = m.pending(sub);
    let n = m.claim_count(sub, limit) as int;
    let nk = if n < gk.len() { n } else { gk.len() as int };
    let ns = n - nk;
    let taken = pend.take(n);
    let m2 = m.claim(sub, limit);
    assert(pend.len() == gk.len() + gs.len());
    // The key part.
    let ks2 = m2.watched_keys(sub, true);
    let rk = gk.skip(nk);
    assert forall|p: Seq<Seq<char>>| ks2.contains(p) <==> rk.to_set().contains(p) by {
        let e = EntryView { target: p[0], scope: ScopeView::Key(p[1]) };
        let k = seq![sub, p[0], p[1]];
        assert(k[0] == sub && k[1] == p[0] && k[2] == p[1]);
        if ks2.contains(p) {
            assert(ks.contains(p));
            assert(!taken.contains(e));
            let c = choose|c: int| 0 <= c < gk.len() && gk[c] == p;
            if c < nk {
                assert(pend[c] == key_entry(gk[c]));
                assert(taken[c] == e);
            }
            assert(rk[c - nk] == p);
        }
        if rk.to_set().contains(p) {
            let c0 = choose|c: int| 0 <= c < rk.len() && rk[c] == p;
            let c = c0 + nk;
            assert(gk[c] == p);
            assert(gk.to_set().contains(p));
            assert(ks.contains(p));
            if taken.contains(e) {
                let d = choose|d: int| 0 <= d < taken.len() && taken[d] == e;
                if d < gk.len() {
                    assert(pend[d] == key_entry(gk[d]));
                    assert(gk.to_set().contains(gk[d]));
                    assert(gk[d] =~= p);
                    if d < c {
                        assert(crate::table::keys_lt(gk[d], gk[c]));
                    } else if c < d {
                        assert(crate::table::keys_lt(gk[c], gk[d]));
                    }
                    crate::table::lemma_keys_lt_irreflexive(p);
                } else {
                    assert(pend[d] == soul_entry(gs[d - gk.len()]));
                }
            }
        }
    }
    assert(ks2 =~= rk.to_set());
    assert(keys_sorted(rk));
    lemma_is_sorted_keys(rk, ks2);
    // The soul part.
    let ss2 = m2.watched_souls(sub, true);
    let rs = gs.skip(ns);
    assert forall|t: Seq<char>| ss2.contains(t) <==> rs.to_set().contains(t) by {
        let e = EntryView { target: t, scope: ScopeView::Soul };
        let k = seq![sub, t];
        assert(k[0] == sub && k[1] == t);
        if ss2.contains(t) {
            assert(ss.contains(t));
            assert(!taken.contains(e));
            let c = choose|c: int| 0 <= c < gs.len() && gs[c] == t;
            if c < ns {
                assert(pend[gk.len() + c] == soul_entry(gs[c]));
                assert(taken[gk.len() + c] == e);
            }
            assert(rs[c - ns] == t);
        }
        if rs.to_set().contains(t) {
            let c0 = choose|c: int| 0 <= c < rs.len() && rs[c] == t;
            let c = c0 + ns;
            assert(gs[c] == t);
            assert(gs.to_set().contains(t));
            assert(ss.contains(t));
            if taken.contains(e) {
                let d = choose|d: int| 0 <= d < taken.len() && taken[d] == e;
                if d < gk.len() {
                    assert(pend[d] == key_entry(gk[d]));
                } else {
                    let dd = d - gk.len();
                    assert(pend[d] == soul_entry(gs[dd]));
                    assert(gs[dd] == t);
                    if dd < c {
                        assert(crate::text::str_lt(gs[dd], gs[c]));
                    } else if c < dd {
                        assert(crate::text::str_lt(gs[c], gs[dd]));
                    }
                    crate::text::lemma_str_lt_irreflexive(t);
                }
            }
        }
    }
    assert(ss2 =~= rs.to_set());
    assert(strs_sorted(rs));
    lemma_is_sorted_strs(rs, ss2);
    assert(m2.pending(sub) =~= pend.skip(n));
}

/// A write or a delete on `(owner, key)` fires no key subscription on
/// another soul or another key: its pending state, and whether it exists,
/// stay as they were.
pub proof fn law_change_leaves_other_key_subscriptions(
    m: StoreModel,
    owner: Seq<char>,
    key: Seq<char>,
    value: Seq<char>,
    sub: Seq<char>,
    t: Seq<char>,
    k: Seq<char>,
)
    requires
        t != owner || k != key,
    ensures
        m.set_key(owner, key, value).has_pending_key(sub, t, k) == m.has_pending_key(sub, t, k),
        m.set_key(owner, key, value).key_subs.contains_key(seq![sub, t, k])
            == m.key_subs.contains_key(seq![sub, t, k]),
        m.delete_key(owner, key).has_pending_key(sub, t, k) == m.has_pending_key(sub, t, k),
        m.delete_key(owner, key).key_subs.contains_key(seq![sub, t, k])
            == m.key_subs.contains_key(seq![sub, t, k]),
{
    let w = seq![sub, t, k];
    assert(w[1] == t && w[2] == k);
}

/// A write or a delete on `owner`'s soul fires no soul subscription on
/// another soul: its pending state, and whether it exists, stay as they
/// were.
pub proof fn law_change_leaves_other_soul_subscriptions(
    m: StoreModel,
    owner: Seq<char>,
    key: Seq<char>,
    value: Seq<char>,
    sub: Seq<char>,
    t: Seq<char>,
)
    requires
        t != owner,
    ensures
        m.set_key(owner, key, value).has_pending_soul(sub, t) == m.has_pending_soul(sub, t),
        m.set_key(owner, key, value).soul_subs.contains_key(seq![sub, t])
            == m.soul_subs.contains_key(seq![sub, t]),
        m.delete_key(owner, key).has_pending_soul(sub, t) == m.has_pending_soul(sub, t),
        m.delete_key(owner, key).soul_subs.contains_key(seq![sub, t])
            == m.soul_subs.contains_key(seq![sub, t]),
{
    let w = seq![sub, t];
    assert(w[1] == t);
}

/// A read of one key touches no soul subscription, and of the key
/// subscriptions only the reader's own on that key: every other
/// notification stays as it was.
pub proof fn law_read_key_touches_only_its_notification(
    m: StoreModel,
    reader: Option<Seq<char>>,
    target: Seq<char>,
    key: Seq<char>,
    who: Seq<char>,
    t: Seq<char>,
    k: Seq<char>,
)
    ensures
        m.read_key(reader, target, key).has_pending_soul(who, t) == m.has_pending_soul(who, t),
        m.read_key(reader, target, key).soul_subs.contains_key(seq![who, t])
            == m.soul_subs.contains_key(seq![who, t]),
        m.read_key(reader, target, key).key_subs.contains_key(seq![who, t, k])
            == m.key_subs.contains_key(seq![who, t, k]),
        reader != Some(who) || t != target || k != key ==> m.read_key(reader, target, key).has_pending_key(who, t, k)
            == m.has_pending_key(who, t, k),
{
    if let Some(r) = reader {
        if r != who {
            assert(seq![who, t, k][0] != seq![r, target, key][0]);
        } else if t != target {
            assert(seq![who, t, k][1] != seq![r, target, key][1]);
        } else if k != key {
            assert(seq![who, t, k][2] != seq![r, target, key][2]);
        }
    }
}

/// A listing of one soul touches no key subscription, and of the soul
/// subscriptions only the reader's own on that soul: every other
/// subscriber's notification, and the reader's on other souls, stay as
/// they were.
pub proof fn law_list_touches_only_its_notification(
    m: StoreModel,
    reader: Option<Seq<char>>,
    target: Seq<char>,
    who: Seq<char>,
    t: Seq<char>,
    k: Seq<char>,
)
    ensures
        m.read_keys(reader, target).has_pending_key(who, t, k) == m.has_pending_key(who, t, k),
        m.read_keys(reader, target).key_subs.contains_key(seq![who, t, k])
            == m.key_subs.contains_key(seq![who, t, k]),
        m.read_keys(reader, target).soul_subs.contains_key(seq![who, t])
            == m.soul_subs.contains_key(seq![who, t]),
        reader != Some(who) || t != target ==> m.read_keys(reader, target).has_pending_soul(who, t)
            == m.has_pending_soul(who, t),
{
    if let Some(r) = reader {
        if r != who {
            assert(seq![who, t][0] != seq![r, target][0]);
        } else if t != target {
            assert(seq![who, t][1] != seq![r, target][1]);
        }
    }
}

} // verus!
