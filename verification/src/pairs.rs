use vstd::prelude::*;
use crate::text::chars_of;

verus! {

/// `a` comes before `b` in the order of `String`: character by character by code point, a
/// proper prefix first. (UTF-8 keeps the code point order, so this is the byte order that
/// `String` compares by.)
pub open spec fn text_lt(a: Seq<char>, b: Seq<char>) -> bool
    decreases a.len(),
{
    if a.len() == 0 {
        b.len() > 0
    } else if b.len() == 0 {
        false
    } else if a[0] != b[0] {
        (a[0] as int) < (b[0] as int)
    } else {
        text_lt(a.drop_first(), b.drop_first())
    }
}

pub proof fn lemma_text_lt_irreflexive(a: Seq<char>)
    ensures
        !text_lt(a, a),
    decreases a.len(),
{
    if a.len() > 0 {
        lemma_text_lt_irreflexive(a.drop_first());
    }
}

pub proof fn lemma_text_lt_transitive(a: Seq<char>, b: Seq<char>, c: Seq<char>)
    requires
        text_lt(a, b),
        text_lt(b, c),
    ensures
        text_lt(a, c),
    decreases a.len(),
{
    if a.len() > 0 && b.len() > 0 && c.len() > 0 && a[0] == b[0] && b[0] == c[0] {
        lemma_text_lt_transitive(a.drop_first(), b.drop_first(), c.drop_first());
    }
}

pub proof fn lemma_text_lt_total(a: Seq<char>, b: Seq<char>)
    requires
        a != b,
    ensures
        text_lt(a, b) || text_lt(b, a),
    decreases a.len(),
{
    if a.len() > 0 && b.len() > 0 {
        if a[0] == b[0] {
            if a.drop_first() == b.drop_first() {
                assert(a =~= seq![a[0]] + a.drop_first());
                assert(b =~= seq![b[0]] + b.drop_first());
            }
            lemma_text_lt_total(a.drop_first(), b.drop_first());
        } else {
            assert((a[0] as int) != (b[0] as int));
        }
    } else if a.len() == 0 && b.len() == 0 {
        assert(a =~= b);
    }
}

proof fn lemma_text_lt_asymmetric(a: Seq<char>, b: Seq<char>)
    requires
        text_lt(a, b),
    ensures
        !text_lt(b, a),
{
    if text_lt(b, a) {
        lemma_text_lt_transitive(a, b, a);
        lemma_text_lt_irreflexive(a);
    }
}

proof fn lemma_text_lt_skip(a: Seq<char>, b: Seq<char>, i: int)
    requires
        0 <= i <= a.len(),
        i <= b.len(),
        a.take(i) == b.take(i),
    ensures
        text_lt(a, b) == text_lt(a.skip(i), b.skip(i)),
    decreases i,
{
    if i > 0 {
        assert(a[0] == a.take(i)[0]);
        assert(b[0] == b.take(i)[0]);
        assert(a.drop_first().take(i - 1) =~= a.take(i).drop_first());
        assert(b.drop_first().take(i - 1) =~= b.take(i).drop_first());
        lemma_text_lt_skip(a.drop_first(), b.drop_first(), i - 1);
        assert(a.drop_first().skip(i - 1) =~= a.skip(i));
        assert(b.drop_first().skip(i - 1) =~= b.skip(i));
    } else {
        assert(a.skip(0) =~= a);
        assert(b.skip(0) =~= b);
    }
}

/// Whether `a` comes before `b` in the order of `String`.
pub fn text_less(a: &str, b: &str) -> (r: bool)
    ensures
        r == text_lt(a@, b@),
{
    let va = chars_of(a);
    let vb = chars_of(b);
    let mut i: usize = 0;
    while i < va.len() && i < vb.len()
        invariant
            va@ == a@,
            vb@ == b@,
            i <= va@.len(),
            i <= vb@.len(),
            va@.take(i as int) == vb@.take(i as int),
        decreases va@.len() - i,
    {
        if va[i] != vb[i] {
            proof {
                lemma_text_lt_skip(va@, vb@, i as int);
                assert(va@.skip(i as int)[0] == va@[i as int]);
                assert(vb@.skip(i as int)[0] == vb@[i as int]);
            }
            return va[i] < vb[i];
        }
        assert(va@.take(i + 1) =~= va@.take(i as int).push(va@[i as int]));
        assert(vb@.take(i + 1) =~= vb@.take(i as int).push(vb@[i as int]));
        i = i + 1;
    }
    proof {
        lemma_text_lt_skip(va@, vb@, i as int);
    }
    i < vb.len()
}

/// The keys of a list of pairs are in strictly ascending order, so no key occurs twice.
pub open spec fn pairs_sorted(ps: Seq<(Seq<char>, Seq<char>)>) -> bool {
    forall|i: int, j: int| 0 <= i < j < ps.len() ==> text_lt(#[trigger] ps[i].0, #[trigger] ps[j].0)
}

/// `ps` has a pair with the key `k`.
pub open spec fn pairs_have(ps: Seq<(Seq<char>, Seq<char>)>, k: Seq<char>) -> bool {
    exists|i: int| 0 <= i < ps.len() && #[trigger] ps[i].0 == k
}

/// Inserting a key and value into a map kept as a list sorted by key, as `BTreeMap::insert`
/// does: the value of a key already there is replaced, a new key goes where the order puts it.
pub open spec fn pairs_insert(
    ps: Seq<(Seq<char>, Seq<char>)>,
    k: Seq<char>,
    v: Seq<char>,
) -> Seq<(Seq<char>, Seq<char>)>
    decreases ps.len(),
{
    if ps.len() == 0 {
        seq![(k, v)]
    } else if ps[0].0 == k {
        seq![(k, v)] + ps.drop_first()
    } else if text_lt(k, ps[0].0) {
        seq![(k, v)] + ps
    } else {
        seq![ps[0]] + pairs_insert(ps.drop_first(), k, v)
    }
}

/// Inserting keeps the list sorted; afterwards it holds `k` with `v`, and every other key
/// with its old value.
pub proof fn law_pairs_insert(ps: Seq<(Seq<char>, Seq<char>)>, k: Seq<char>, v: Seq<char>)
    requires
        pairs_sorted(ps),
    ensures
        pairs_sorted(pairs_insert(ps, k, v)),
        pairs_have(pairs_insert(ps, k, v), k),
        forall|i: int| 0 <= i < pairs_insert(ps, k, v).len() && pairs_insert(ps, k, v)[i].0 == k
            ==> #[trigger] pairs_insert(ps, k, v)[i].1 == v,
        forall|x: Seq<char>| x != k ==> (pairs_have(pairs_insert(ps, k, v), x) <==> pairs_have(ps, x)),
        forall|i: int| 0 <= i < ps.len() && ps[i].0 != k ==> pairs_insert(ps, k, v).contains(
            #[trigger] ps[i],
        ),
        forall|p: (Seq<char>, Seq<char>)| pairs_insert(ps, k, v).contains(p) ==> p == (k, v)
            || ps.contains(p),
    decreases ps.len(),
{
    let r = pairs_insert(ps, k, v);
    if ps.len() == 0 {
        assert(r[0].0 == k);
    } else if ps[0].0 == k {
        let rest = ps.drop_first();
        assert forall|i: int, j: int| 0 <= i < j < r.len() implies text_lt(#[trigger] r[i].0, #[trigger] r[j].0) by {
            assert(r[j] == ps[j]);
            if i > 0 {
                assert(r[i] == ps[i]);
            }
            assert(text_lt(ps[0].0, ps[j].0));
        }
        assert(r[0].0 == k);
        assert forall|i: int| 0 <= i < r.len() && r[i].0 == k implies #[trigger] r[i].1 == v by {
            if i > 0 {
                assert(r[i] == ps[i]);
                assert(text_lt(ps[0].0, ps[i].0));
                lemma_text_lt_irreflexive(k);
            }
        }
        assert forall|x: Seq<char>| x != k implies (pairs_have(r, x) <==> pairs_have(ps, x)) by {
            if pairs_have(r, x) {
                let i = choose|i: int| 0 <= i < r.len() && #[trigger] r[i].0 == x;
                assert(i > 0 && r[i] == ps[i]);
            }
            if pairs_have(ps, x) {
                let i = choose|i: int| 0 <= i < ps.len() && #[trigger] ps[i].0 == x;
                assert(i > 0 && r[i] == ps[i]);
            }
        }
        assert forall|i: int| 0 <= i < ps.len() && ps[i].0 != k implies r.contains(#[trigger] ps[i]) by {
            assert(r[i] == ps[i]);
        }
        assert forall|p: (Seq<char>, Seq<char>)| r.contains(p) implies p == (k, v) || ps.contains(p) by {
            let i = choose|i: int| 0 <= i < r.len() && r[i] == p;
            if i > 0 {
                assert(r[i] == ps[i]);
            }
        }
    } else if text_lt(k, ps[0].0) {
        assert forall|i: int, j: int| 0 <= i < j < r.len() implies text_lt(#[trigger] r[i].0, #[trigger] r[j].0) by {
            assert(r[j] == ps[j - 1]);
            if i > 0 {
                assert(r[i] == ps[i - 1]);
            } else if j > 1 {
                lemma_text_lt_transitive(k, ps[0].0, ps[j - 1].0);
            }
        }
        assert(r[0].0 == k);
        assert forall|i: int| 0 <= i < r.len() && r[i].0 == k implies #[trigger] r[i].1 == v by {
            if i > 0 {
                assert(r[i] == ps[i - 1]);
                if i > 1 {
                    lemma_text_lt_transitive(k, ps[0].0, ps[i - 1].0);
                }
                lemma_text_lt_irreflexive(k);
            }
        }
        assert forall|x: Seq<char>| x != k implies (pairs_have(r, x) <==> pairs_have(ps, x)) by {
            if pairs_have(r, x) {
                let i = choose|i: int| 0 <= i < r.len() && #[trigger] r[i].0 == x;
                assert(i > 0 && r[i] == ps[i - 1]);
            }
            if pairs_have(ps, x) {
                let i = choose|i: int| 0 <= i < ps.len() && #[trigger] ps[i].0 == x;
                assert(r[i + 1] == ps[i]);
            }
        }
        assert forall|i: int| 0 <= i < ps.len() && ps[i].0 != k implies r.contains(#[trigger] ps[i]) by {
            assert(r[i + 1] == ps[i]);
        }
        assert forall|p: (Seq<char>, Seq<char>)| r.contains(p) implies p == (k, v) || ps.contains(p) by {
            let i = choose|i: int| 0 <= i < r.len() && r[i] == p;
            if i > 0 {
                assert(r[i] == ps[i - 1]);
            }
        }
    } else {
        let rest = ps.drop_first();
        assert(pairs_sorted(rest)) by {
            assert forall|i: int, j: int| 0 <= i < j < rest.len() implies text_lt(#[trigger] rest[i].0, #[trigger] rest[j].0) by {
                assert(rest[i] == ps[i + 1] && rest[j] == ps[j + 1]);
            }
        }
        law_pairs_insert(rest, k, v);
        let t = pairs_insert(rest, k, v);
        assert(r == seq![ps[0]] + t);
        lemma_text_lt_total(k, ps[0].0);
        assert forall|i: int, j: int| 0 <= i < j < r.len() implies text_lt(#[trigger] r[i].0, #[trigger] r[j].0) by {
            assert(r[j] == t[j - 1]);
            if i > 0 {
                assert(r[i] == t[i - 1]);
            } else {
                let q = t[j - 1];
                assert(t.contains(q));
                if q.0 == k {
                } else {
                    assert(pairs_have(t, q.0));
                    assert(pairs_have(rest, q.0));
                    let w = choose|w: int| 0 <= w < rest.len() && #[trigger] rest[w].0 == q.0;
                    assert(ps[w + 1] == rest[w]);
                    assert(text_lt(ps[0].0, ps[w + 1].0));
                }
            }
        }
        assert(pairs_have(r, k)) by {
            let w = choose|w: int| 0 <= w < t.len() && #[trigger] t[w].0 == k;
            assert(r[w + 1] == t[w]);
        }
        assert forall|i: int| 0 <= i < r.len() && r[i].0 == k implies #[trigger] r[i].1 == v by {
            if i > 0 {
                assert(r[i] == t[i - 1]);
            }
        }
        assert forall|x: Seq<char>| x != k implies (pairs_have(r, x) <==> pairs_have(ps, x)) by {
            if pairs_have(r, x) {
                let i = choose|i: int| 0 <= i < r.len() && #[trigger] r[i].0 == x;
                if i > 0 {
                    assert(r[i] == t[i - 1]);
                    assert(pairs_have(t, x));
                    assert(pairs_have(rest, x));
                    let w = choose|w: int| 0 <= w < rest.len() && #[trigger] rest[w].0 == x;
                    assert(ps[w + 1] == rest[w]);
                } else {
                    assert(r[0] == ps[0]);
                    assert(ps[0].0 == x);
                }
            }
            if pairs_have(ps, x) {
                let i = choose|i: int| 0 <= i < ps.len() && #[trigger] ps[i].0 == x;
                if i > 0 {
                    assert(rest[i - 1] == ps[i]);
                    assert(pairs_have(rest, x));
                    let w = choose|w: int| 0 <= w < t.len() && #[trigger] t[w].0 == x;
                    assert(r[w + 1] == t[w]);
                } else {
                    assert(r[0] == ps[0]);
                }
            }
        }
        assert forall|i: int| 0 <= i < ps.len() && ps[i].0 != k implies r.contains(#[trigger] ps[i]) by {
            if i > 0 {
                assert(rest[i - 1] == ps[i]);
                assert(t.contains(rest[i - 1]));
                let w = choose|w: int| 0 <= w < t.len() && t[w] == rest[i - 1];
                assert(r[w + 1] == t[w]);
            } else {
                assert(r[0] == ps[0]);
            }
        }
        assert forall|p: (Seq<char>, Seq<char>)| r.contains(p) implies p == (k, v) || ps.contains(p) by {
            let i = choose|i: int| 0 <= i < r.len() && r[i] == p;
            if i > 0 {
                assert(r[i] == t[i - 1]);
                assert(t.contains(p));
                if p != (k, v) {
                    assert(rest.contains(p));
                    let w = choose|w: int| 0 <= w < rest.len() && rest[w] == p;
                    assert(ps[w + 1] == rest[w]);
                }
            } else {
                assert(r[0] == ps[0]);
            }
        }
    }
}

proof fn lemma_pairs_insert_at(
    s: Seq<(Seq<char>, Seq<char>)>,
    k: Seq<char>,
    v: Seq<char>,
    i: int,
)
    requires
        0 <= i <= s.len(),
        forall|j: int| 0 <= j < i ==> #[trigger] s[j].0 != k && !text_lt(k, s[j].0),
        i < s.len() ==> s[i].0 == k || text_lt(k, s[i].0),
    ensures
        i < s.len() && s[i].0 == k ==> pairs_insert(s, k, v) == s.update(i, (k, v)),
        !(i < s.len() && s[i].0 == k) ==> pairs_insert(s, k, v) == s.insert(i, (k, v)),
    decreases i,
{
    if i == 0 {
        if s.len() > 0 && s[0].0 == k {
            assert(pairs_insert(s, k, v) =~= s.update(0, (k, v)));
        } else {
            assert(pairs_insert(s, k, v) =~= s.insert(0, (k, v)));
        }
    } else {
        let rest = s.drop_first();
        assert forall|j: int| 0 <= j < i - 1 implies #[trigger] rest[j].0 != k && !text_lt(k, rest[j].0) by {
            assert(rest[j] == s[j + 1]);
        }
        assert(s[0].0 != k && !text_lt(k, s[0].0));
        lemma_pairs_insert_at(rest, k, v, i - 1);
        if i < s.len() && s[i].0 == k {
            assert(rest[i - 1] == s[i]);
            assert(pairs_insert(s, k, v) =~= s.update(i, (k, v)));
        } else {
            if i < s.len() {
                assert(rest[i - 1] == s[i]);
            }
            assert(pairs_insert(s, k, v) =~= s.insert(i, (k, v)));
        }
    }
}

/// Inserts `k` with `v` into a map kept as a list sorted by key, as `BTreeMap::insert`
/// does: the value of a key already there is replaced, a new key goes where the order puts it.
pub fn insert_pair(ps: &mut Vec<(String, String)>, k: String, v: String)
    ensures
        final(ps).deep_view() == pairs_insert(old(ps).deep_view(), k@, v@),
{
    let ghost s = ps.deep_view();
    let mut i: usize = 0;
    while i < ps.len()
        invariant
            s == ps.deep_view(),
            i <= s.len(),
            forall|j: int| 0 <= j < i ==> #[trigger] s[j].0 != k@ && !text_lt(k@, s[j].0),
        ensures
            i <= s.len(),
            forall|j: int| 0 <= j < i ==> #[trigger] s[j].0 != k@ && !text_lt(k@, s[j].0),
            i < s.len() ==> s[i as int].0 == k@ || text_lt(k@, s[i as int].0),
        decreases s.len() - i,
    {
        assert(s[i as int].0 == ps@[i as int].0@);
        if ps[i].0 == k || text_less(k.as_str(), ps[i].0.as_str()) {
            break;
        }
        i = i + 1;
    }
    proof {
        lemma_pairs_insert_at(s, k@, v@, i as int);
    }
    let same = i < ps.len() && ps[i].0 == k;
    let ghost kv = (k@, v@);
    if same {
        ps.set(i, (k, v));
        assert(ps.deep_view() =~= s.update(i as int, kv));
    } else {
        ps.insert(i, (k, v));
        assert(ps.deep_view() =~= s.insert(i as int, kv));
    }
}

} // verus!
