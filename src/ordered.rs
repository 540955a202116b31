//! Lists of key/value pairs put in lexicographic order of keys, so that what
//! is written from them depends on the pairs alone and never on the order in
//! which a caller gathered them.

use crate::influxdb::pairs_view;
use vstd::prelude::*;

verus! {

/// `a` comes before `b` in lexicographic order of characters.
pub open spec fn key_lt(a: Seq<char>, b: Seq<char>) -> bool
    decreases a.len(),
{
    if a.len() == 0 {
        b.len() > 0
    } else if b.len() == 0 {
        false
    } else if a[0] < b[0] {
        true
    } else if a[0] == b[0] {
        key_lt(a.drop_first(), b.drop_first())
    } else {
        false
    }
}

pub proof fn lemma_key_lt_irreflexive(a: Seq<char>)
    ensures
        !key_lt(a, a),
    decreases a.len(),
{
    if a.len() > 0 {
        lemma_key_lt_irreflexive(a.drop_first());
    }
}

pub proof fn lemma_key_lt_transitive(a: Seq<char>, b: Seq<char>, c: Seq<char>)
    requires
        key_lt(a, b),
        key_lt(b, c),
    ensures
        key_lt(a, c),
    decreases a.len(),
{
    if a.len() > 0 && b.len() > 0 && c.len() > 0 && a[0] == b[0] && b[0] == c[0] {
        lemma_key_lt_transitive(a.drop_first(), b.drop_first(), c.drop_first());
    }
}

pub proof fn lemma_key_lt_total(a: Seq<char>, b: Seq<char>)
    requires
        a != b,
    ensures
        key_lt(a, b) || key_lt(b, a),
    decreases a.len(),
{
    if a.len() > 0 && b.len() > 0 && a[0] == b[0] {
        if a.drop_first() == b.drop_first() {
            assert(a =~= seq![a[0]] + a.drop_first());
            assert(b =~= seq![b[0]] + b.drop_first());
        }
        lemma_key_lt_total(a.drop_first(), b.drop_first());
    } else if a.len() == 0 && b.len() == 0 {
        assert(a =~= b);
    }
}

/// A list of pairs.
pub type Pairs = Seq<(Seq<char>, Seq<char>)>;

/// The keys of `ps` strictly increase: each key appears once, in
/// lexicographic order.
pub open spec fn strictly_sorted(ps: Pairs) -> bool {
    forall|i: int, j: int| 0 <= i < j < ps.len() ==> key_lt(#[trigger] ps[i].0, #[trigger] ps[j].0)
}

/// The pairs that `ps` sets, as a map would: a later pair replaces an
/// earlier one with the same key.
pub open spec fn keyed_set(ps: Pairs) -> Set<(Seq<char>, Seq<char>)>
    decreases ps.len(),
{
    if ps.len() == 0 {
        Set::empty()
    } else {
        let last = ps.last();
        keyed_set(ps.drop_last()).filter(|p: (Seq<char>, Seq<char>)| p.0 != last.0).insert(last)
    }
}

/// `t` holds the pairs that `ps` sets, in increasing order of keys.
pub open spec fn is_sorted_form(t: Pairs, ps: Pairs) -> bool {
    strictly_sorted(t) && t.to_set() == keyed_set(ps)
}

/// The pairs that `ps` sets, in increasing order of keys.
pub open spec fn sorted_pairs(ps: Pairs) -> Pairs {
    choose|t: Pairs| strictly_sorted(t) && t.to_set() == keyed_set(ps)
}

/// Each pair that a list sets is one of its pairs, and its last pair is
/// set.
pub proof fn lemma_keyed_set_within(ps: Pairs)
    ensures
        keyed_set(ps).subset_of(ps.to_set()),
        ps.len() > 0 ==> keyed_set(ps).contains(ps.last()),
    decreases ps.len(),
{
    if ps.len() > 0 {
        let init = ps.drop_last();
        lemma_keyed_set_within(init);
        assert forall|p| #[trigger] keyed_set(ps).contains(p) implies ps.to_set().contains(p) by {
            if p != ps.last() {
                let k = choose|k: int| 0 <= k < init.len() && init[k] == p;
                assert(ps[k] == p);
            } else {
                assert(ps[ps.len() - 1] == p);
            }
        }
    }
}

/// Two lists in increasing order of keys that hold the same pairs are the
/// same list.
pub proof fn lemma_sorted_unique(a: Pairs, b: Pairs)
    requires
        strictly_sorted(a),
        strictly_sorted(b),
        a.to_set() == b.to_set(),
    ensures
        a == b,
    decreases a.len(),
{
    if a.len() == 0 {
        if b.len() > 0 {
            assert(b.to_set().contains(b[0]));
        }
        assert(a =~= b);
    } else {
        assert(a.to_set().contains(a[0]));
        let x = a[0];
        assert(b.len() > 0);
        let y = b[0];
        assert(b.to_set().contains(y));
        let i = choose|i: int| 0 <= i < a.len() && a[i] == y;
        let j = choose|j: int| 0 <= j < b.len() && b[j] == x;
        if i > 0 && j > 0 {
            assert(key_lt(a[0].0, a[i].0));
            assert(key_lt(b[0].0, b[j].0));
            lemma_key_lt_transitive(x.0, y.0, x.0);
            lemma_key_lt_irreflexive(x.0);
        }
        assert(x == y);
        let ra = a.drop_first();
        let rb = b.drop_first();
        assert(strictly_sorted(ra)) by {
            assert forall|p: int, q: int| 0 <= p < q < ra.len() implies key_lt(
                #[trigger] ra[p].0,
                #[trigger] ra[q].0,
            ) by {
                assert(ra[p] == a[p + 1] && ra[q] == a[q + 1]);
            }
        }
        assert(strictly_sorted(rb)) by {
            assert forall|p: int, q: int| 0 <= p < q < rb.len() implies key_lt(
                #[trigger] rb[p].0,
                #[trigger] rb[q].0,
            ) by {
                assert(rb[p] == b[p + 1] && rb[q] == b[q + 1]);
            }
        }
        assert(ra.to_set() =~= a.to_set().remove(x)) by {
            assert forall|p| #[trigger] ra.to_set().contains(p) implies a.to_set().remove(
                x,
            ).contains(p) by {
                let k = choose|k: int| 0 <= k < ra.len() && ra[k] == p;
                assert(a[k + 1] == p);
                assert(key_lt(a[0].0, a[k + 1].0));
                lemma_key_lt_irreflexive(x.0);
            }
            assert forall|p| #[trigger]
                a.to_set().remove(x).contains(p) implies ra.to_set().contains(p) by {
                let k = choose|k: int| 0 <= k < a.len() && a[k] == p;
                assert(ra[k - 1] == p);
            }
        }
        assert(rb.to_set() =~= b.to_set().remove(y)) by {
            assert forall|p| #[trigger] rb.to_set().contains(p) implies b.to_set().remove(
                y,
            ).contains(p) by {
                let k = choose|k: int| 0 <= k < rb.len() && rb[k] == p;
                assert(b[k + 1] == p);
                assert(key_lt(b[0].0, b[k + 1].0));
                lemma_key_lt_irreflexive(y.0);
            }
            assert forall|p| #[trigger]
                b.to_set().remove(y).contains(p) implies rb.to_set().contains(p) by {
                let k = choose|k: int| 0 <= k < b.len() && b[k] == p;
                assert(rb[k - 1] == p);
            }
        }
        lemma_sorted_unique(ra, rb);
        assert(a =~= seq![x] + ra);
        assert(b =~= seq![y] + rb);
    }
}

/// A list in increasing order of keys is the sorted form of itself.
pub proof fn lemma_sorted_pairs_of_sorted(ps: Pairs)
    requires
        strictly_sorted(ps),
    ensures
        sorted_pairs(ps) == ps,
{
    lemma_keyed_set_of_sorted(ps);
    let t = sorted_pairs(ps);
    assert(strictly_sorted(t) && t.to_set() == keyed_set(ps));
    lemma_sorted_unique(t, ps);
}

proof fn lemma_keyed_set_of_sorted(ps: Pairs)
    requires
        strictly_sorted(ps),
    ensures
        keyed_set(ps) == ps.to_set(),
    decreases ps.len(),
{
    if ps.len() == 0 {
        assert(ps.to_set() =~= Set::empty());
    } else {
        let init = ps.drop_last();
        let last = ps.last();
        assert(strictly_sorted(init)) by {
            assert forall|p: int, q: int| 0 <= p < q < init.len() implies key_lt(
                #[trigger] init[p].0,
                #[trigger] init[q].0,
            ) by {
                assert(init[p] == ps[p] && init[q] == ps[q]);
            }
        }
        lemma_keyed_set_of_sorted(init);
        let f = init.to_set().filter(|p: (Seq<char>, Seq<char>)| p.0 != last.0);
        assert(f =~= init.to_set()) by {
            assert forall|p| #[trigger] init.to_set().contains(p) implies p.0 != last.0 by {
                let k = choose|k: int| 0 <= k < init.len() && init[k] == p;
                assert(key_lt(ps[k].0, ps[ps.len() - 1].0));
                lemma_key_lt_irreflexive(last.0);
            }
        }
        assert(ps.to_set() =~= init.to_set().insert(last)) by {
            assert forall|p| #[trigger] ps.to_set().contains(p) implies init.to_set().insert(
                last,
            ).contains(p) by {
                let k = choose|k: int| 0 <= k < ps.len() && ps[k] == p;
                if k < ps.len() - 1 {
                    assert(init[k] == p);
                }
            }
            assert forall|p| #[trigger]
                init.to_set().insert(last).contains(p) implies ps.to_set().contains(p) by {
                if p != last {
                    let k = choose|k: int| 0 <= k < init.len() && init[k] == p;
                    assert(ps[k] == p);
                } else {
                    assert(ps[ps.len() - 1] == p);
                }
            }
        }
    }
}

/// Whether `a` comes before `b` in lexicographic order of characters.
pub fn key_less(a: &str, b: &str) -> (r: bool)
    ensures
        r == key_lt(a@, b@),
{
    let n = a.unicode_len();
    let m = b.unicode_len();
    let mut i: usize = 0;
    assert(a@.skip(0) =~= a@ && b@.skip(0) =~= b@);
    while i < n && i < m
        invariant
            n == a@.len(),
            m == b@.len(),
            i <= n && i <= m,
            key_lt(a@, b@) == key_lt(a@.skip(i as int), b@.skip(i as int)),
        decreases n - i,
    {
        let x = a.get_char(i);
        let y = b.get_char(i);
        if x < y {
            return true;
        } else if x > y {
            return false;
        }
        assert(a@.skip(i as int).drop_first() =~= a@.skip(i as int + 1));
        assert(b@.skip(i as int).drop_first() =~= b@.skip(i as int + 1));
        i = i + 1;
    }
    i == n && i < m
}

/// Puts `(key, value)` into a list in increasing order of keys, replacing
/// the pair that had the same key.
fn insert_sorted(out: &mut Vec<(String, String)>, key: String, value: String)
    requires
        strictly_sorted(pairs_view(old(out)@)),
    ensures
        strictly_sorted(pairs_view(final(out)@)),
        pairs_view(final(out)@).to_set() == pairs_view(old(out)@).to_set().filter(
            |p: (Seq<char>, Seq<char>)| p.0 != key@,
        ).insert((key@, value@)),
{
    let ghost ov = pairs_view(out@);
    let ghost k = key@;
    let ghost x = (key@, value@);
    let mut i: usize = 0;
    while i < out.len() && key_less(out[i].0.as_str(), key.as_str())
        invariant
            i <= out@.len(),
            out@ == old(out)@,
            ov == pairs_view(out@),
            k == key@,
            forall|m: int| 0 <= m < i ==> key_lt(#[trigger] ov[m].0, k),
        decreases out@.len() - i,
    {
        i = i + 1;
    }
    let ghost old_set = ov.to_set();
    let ghost target = old_set.filter(|p: (Seq<char>, Seq<char>)| p.0 != k).insert(x);
    if i < out.len() && out[i].0.eq(&key) {
        out.set(i, (key, value));
        proof {
            let nv = pairs_view(out@);
            assert(nv =~= ov.update(i as int, x));
            assert forall|p: int, q: int| 0 <= p < q < nv.len() implies key_lt(
                #[trigger] nv[p].0,
                #[trigger] nv[q].0,
            ) by {
                assert(nv[p].0 == ov[p].0 && nv[q].0 == ov[q].0);
            }
            assert(nv.to_set() =~= target) by {
                assert forall|p| #[trigger] nv.to_set().contains(p) implies target.contains(p) by {
                    let c = choose|c: int| 0 <= c < nv.len() && nv[c] == p;
                    if c != i {
                        assert(ov[c] == p);
                        if c < i {
                            assert(key_lt(ov[c].0, ov[i as int].0));
                        } else {
                            assert(key_lt(ov[i as int].0, ov[c].0));
                        }
                        lemma_key_lt_irreflexive(k);
                    }
                }
                assert forall|p| #[trigger] target.contains(p) implies nv.to_set().contains(p) by {
                    if p != x {
                        let c = choose|c: int| 0 <= c < ov.len() && ov[c] == p;
                        assert(c != i);
                        assert(nv[c] == p);
                    } else {
                        assert(nv[i as int] == p);
                    }
                }
            }
        }
    } else {
        proof {
            if i < ov.len() {
                lemma_key_lt_total(ov[i as int].0, k);
            }
        }
        out.insert(i, (key, value));
        proof {
            let nv = pairs_view(out@);
            assert(nv =~= ov.insert(i as int, x));
            // Keys before `i` are below `k`; keys from `i` on are above it.
            assert forall|c: int| i <= c < ov.len() implies key_lt(k, #[trigger] ov[c].0) by {
                if c > i {
                    lemma_key_lt_transitive(k, ov[i as int].0, ov[c].0);
                }
            }
            assert forall|p: int, q: int| 0 <= p < q < nv.len() implies key_lt(
                #[trigger] nv[p].0,
                #[trigger] nv[q].0,
            ) by {
                if q < i {
                    assert(nv[p] == ov[p] && nv[q] == ov[q]);
                } else if q == i {
                    assert(nv[p] == ov[p]);
                } else if p < i {
                    assert(nv[p] == ov[p] && nv[q] == ov[q - 1]);
                    lemma_key_lt_transitive(ov[p].0, k, ov[q - 1].0);
                } else if p == i {
                    assert(nv[q] == ov[q - 1]);
                } else {
                    assert(nv[p] == ov[p - 1] && nv[q] == ov[q - 1]);
                }
            }
            assert(nv.to_set() =~= target) by {
                assert forall|p| #[trigger] nv.to_set().contains(p) implies target.contains(p) by {
                    let c = choose|c: int| 0 <= c < nv.len() && nv[c] == p;
                    if c < i {
                        assert(ov[c] == p);
                        lemma_key_lt_irreflexive(k);
                    } else if c > i {
                        assert(ov[c - 1] == p);
                        lemma_key_lt_irreflexive(k);
                    }
                }
                assert forall|p| #[trigger] target.contains(p) implies nv.to_set().contains(p) by {
                    if p != x {
                        let c = choose|c: int| 0 <= c < ov.len() && ov[c] == p;
                        if c < i {
                            assert(nv[c] == p);
                        } else {
                            assert(nv[c + 1] == p);
                        }
                    } else {
                        assert(nv[i as int] == p);
                    }
                }
            }
        }
    }
}

/// The pairs that a list sets, in increasing order of keys; a later pair
/// replaces an earlier one with the same key.
pub fn sort_pairs(pairs: &Vec<(String, String)>) -> (r: Vec<(String, String)>)
    ensures
        pairs_view(r@) == sorted_pairs(pairs_view(pairs@)),
        is_sorted_form(pairs_view(r@), pairs_view(pairs@)),
{
    let mut out: Vec<(String, String)> = Vec::new();
    let ghost pv = pairs_view(pairs@);
    proof {
        assert(pairs_view(out@) =~= Seq::<(Seq<char>, Seq<char>)>::empty());
        assert(pairs_view(out@).to_set() =~= keyed_set(pv.take(0)));
    }
    let mut j: usize = 0;
    while j < pairs.len()
        invariant
            j <= pairs@.len(),
            pv == pairs_view(pairs@),
            strictly_sorted(pairs_view(out@)),
            pairs_view(out@).to_set() == keyed_set(pv.take(j as int)),
        decreases pairs@.len() - j,
    {
        proof {
            assert(pv.take(j as int + 1).drop_last() =~= pv.take(j as int));
            assert(pv.take(j as int + 1).last() == pv[j as int]);
            assert(pv[j as int] == (pairs@[j as int].0@, pairs@[j as int].1@));
        }
        insert_sorted(&mut out, pairs[j].0.clone(), pairs[j].1.clone());
        proof {
            assert(pairs_view(out@).to_set() =~= keyed_set(pv.take(j as int + 1)));
        }
        j = j + 1;
    }
    proof {
        assert(pv.take(pairs@.len() as int) =~= pv);
        let t = sorted_pairs(pv);
        assert(strictly_sorted(pairs_view(out@)) && pairs_view(out@).to_set() == keyed_set(pv));
        lemma_sorted_unique(t, pairs_view(out@));
    }
    out
}

/// Two lists that set the same pairs, whatever their order and whatever
/// pairs a later one replaced, have the same sorted form.
pub proof fn lemma_sorted_pairs_depend_on_pairs_only(a: Pairs, b: Pairs)
    requires
        keyed_set(a) == keyed_set(b),
    ensures
        sorted_pairs(a) == sorted_pairs(b),
{
}

} // verus!
