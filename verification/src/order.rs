//! Searching and ordering: the first element with a property, the order of
//! text that `String` compares by, and a stable sort by keys of texts.
use vstd::prelude::*;

verus! {

/// Index of the first element of `s` that has property `p`.
pub open spec fn first_index<T>(s: Seq<T>, p: spec_fn(T) -> bool) -> Option<int>
    decreases s.len(),
{
    if s.len() == 0 {
        None
    } else if p(s[0]) {
        Some(0)
    } else {
        match first_index(s.drop_first(), p) {
            Some(i) => Some(i + 1),
            None => None,
        }
    }
}

/// `k` is where the first element with `p` stands, or the length if none has it.
pub proof fn lemma_first_index_is<T>(s: Seq<T>, p: spec_fn(T) -> bool, k: int)
    requires
        0 <= k <= s.len(),
        forall|j: int| 0 <= j < k ==> !p(#[trigger] s[j]),
        k == s.len() || p(s[k]),
    ensures
        k < s.len() ==> first_index(s, p) == Some(k),
        k == s.len() ==> first_index(s, p) is None,
    decreases k,
{
    if k > 0 {
        let t = s.drop_first();
        assert forall|j: int| 0 <= j < k - 1 implies !p(#[trigger] t[j]) by {
            assert(t[j] == s[j + 1]);
        }
        assert(!p(s[0]));
        if k < s.len() {
            assert(t[k - 1] == s[k]);
        }
        lemma_first_index_is(t, p, k - 1);
    }
}

pub open spec fn is_present() -> spec_fn(Option<Seq<char>>) -> bool {
    |o: Option<Seq<char>>| o is Some
}

/// The text of the first present entry.
pub open spec fn first_text(s: Seq<Option<Seq<char>>>) -> Option<Seq<char>> {
    match first_index(s, is_present()) {
        Some(i) => s[i],
        None => None,
    }
}

/// `a` before `b` in the order of `str`: by code point, a proper prefix
/// first. (UTF-8 keeps code-point order, so this is the byte order too.)
pub open spec fn text_lt(a: Seq<char>, b: Seq<char>) -> bool
    decreases a.len(),
{
    if a.len() == 0 {
        b.len() > 0
    } else if b.len() == 0 {
        false
    } else if a[0] != b[0] {
        a[0] < b[0]
    } else {
        text_lt(a.drop_first(), b.drop_first())
    }
}

/// Keys of several texts compared one after the other, as tuples and
/// `Ordering::then` compare them.
pub open spec fn key_lt(a: Seq<Seq<char>>, b: Seq<Seq<char>>) -> bool
    decreases a.len(),
{
    if a.len() == 0 {
        b.len() > 0
    } else if b.len() == 0 {
        false
    } else if a[0] != b[0] {
        text_lt(a[0], b[0])
    } else {
        key_lt(a.drop_first(), b.drop_first())
    }
}

pub proof fn lemma_text_lt_irreflexive(a: Seq<char>)
    ensures
        !text_lt(a, a),
    decreases a.len(),
{
    if a.len() > 0 {
        lemma_text_lt_irreflexive(a.drop_first());
    }
}

pub proof fn lemma_text_lt_transitive(a: Seq<char>, b: Seq<char>, c: Seq<char>)
    requires
        text_lt(a, b),
        text_lt(b, c),
    ensures
        text_lt(a, c),
    decreases a.len(),
{
    if a.len() > 0 && b.len() > 0 && c.len() > 0 && a[0] == b[0] && b[0] == c[0] {
        lemma_text_lt_transitive(a.drop_first(), b.drop_first(), c.drop_first());
    }
}

#[verifier::spinoff_prover]
pub proof fn lemma_text_lt_total(a: Seq<char>, b: Seq<char>)
    ensures
        a == b || text_lt(a, b) || text_lt(b, a),
    decreases a.len(),
{
    if a.len() > 0 && b.len() > 0 && a[0] == b[0] {
        lemma_text_lt_total(a.drop_first(), b.drop_first());
        if a.drop_first() == b.drop_first() {
            assert(a =~= seq![a[0]] + a.drop_first());
            assert(b =~= seq![b[0]] + b.drop_first());
        }
    } else if a.len() == 0 && b.len() == 0 {
        assert(a =~= b);
    }
}

pub proof fn lemma_key_lt_irreflexive(a: Seq<Seq<char>>)
    ensures
        !key_lt(a, a),
    decreases a.len(),
{
    if a.len() > 0 {
        lemma_key_lt_irreflexive(a.drop_first());
    }
}

pub proof fn lemma_key_lt_transitive(a: Seq<Seq<char>>, b: Seq<Seq<char>>, c: Seq<Seq<char>>)
    requires
        key_lt(a, b),
        key_lt(b, c),
    ensures
        key_lt(a, c),
    decreases a.len(),
{
    if a.len() > 0 && b.len() > 0 && c.len() > 0 {
        if a[0] == b[0] && b[0] == c[0] {
            lemma_key_lt_transitive(a.drop_first(), b.drop_first(), c.drop_first());
        } else if a[0] != b[0] && b[0] != c[0] {
            lemma_text_lt_transitive(a[0], b[0], c[0]);
            if a[0] == c[0] {
                lemma_text_lt_irreflexive(a[0]);
            }
        }
    }
}

pub proof fn lemma_key_lt_total(a: Seq<Seq<char>>, b: Seq<Seq<char>>)
    ensures
        a == b || key_lt(a, b) || key_lt(b, a),
    decreases a.len(),
{
    if a.len() > 0 && b.len() > 0 {
        if a[0] == b[0] {
            lemma_key_lt_total(a.drop_first(), b.drop_first());
            if a.drop_first() == b.drop_first() {
                assert(a =~= seq![a[0]] + a.drop_first());
                assert(b =~= seq![b[0]] + b.drop_first());
            }
        } else {
            lemma_text_lt_total(a[0], b[0]);
        }
    } else if a.len() == 0 && b.len() == 0 {
        assert(a =~= b);
    }
}

/// `a < b` and `b <= c` give `a < c`.
pub proof fn lemma_key_lt_le(a: Seq<Seq<char>>, b: Seq<Seq<char>>, c: Seq<Seq<char>>)
    requires
        key_lt(a, b),
        !key_lt(c, b),
    ensures
        key_lt(a, c),
{
    lemma_key_lt_total(b, c);
    if b != c {
        lemma_key_lt_transitive(a, b, c);
    }
}

/// The texts of a key.
pub open spec fn key_view(k: Seq<Vec<char>>) -> Seq<Seq<char>> {
    k.map_values(|t: Vec<char>| t@)
}

/// The keys, each as texts.
pub open spec fn key_views(ks: Seq<Vec<Vec<char>>>) -> Seq<Seq<Seq<char>>> {
    ks.map_values(|k: Vec<Vec<char>>| key_view(k@))
}

pub fn text_less(a: &[char], b: &[char]) -> (r: bool)
    ensures
        r == text_lt(a@, b@),
{
    let mut i: usize = 0;
    assert(a@.skip(0) == a@);
    assert(b@.skip(0) == b@);
    while i < a.len() && i < b.len()
        invariant
            i <= a@.len(),
            i <= b@.len(),
            text_lt(a@, b@) == text_lt(a@.skip(i as int), b@.skip(i as int)),
        decreases a@.len() - i,
    {
        let x = a[i];
        let y = b[i];
        assert(a@.skip(i as int)[0] == x);
        assert(b@.skip(i as int)[0] == y);
        if x != y {
            return x < y;
        }
        assert(a@.skip(i as int).drop_first() == a@.skip(i as int + 1));
        assert(b@.skip(i as int).drop_first() == b@.skip(i as int + 1));
        i = i + 1;
    }
    i < b.len()
}

pub fn key_less(a: &Vec<Vec<char>>, b: &Vec<Vec<char>>) -> (r: bool)
    ensures
        r == key_lt(key_view(a@), key_view(b@)),
{
    let ghost ka = key_view(a@);
    let ghost kb = key_view(b@);
    let mut i: usize = 0;
    assert(ka.skip(0) == ka);
    assert(kb.skip(0) == kb);
    while i < a.len() && i < b.len()
        invariant
            i <= a@.len(),
            i <= b@.len(),
            ka == key_view(a@),
            kb == key_view(b@),
            key_lt(ka, kb) == key_lt(ka.skip(i as int), kb.skip(i as int)),
        decreases a@.len() - i,
    {
        assert(ka.skip(i as int)[0] == a@[i as int]@);
        assert(kb.skip(i as int)[0] == b@[i as int]@);
        assert(ka.skip(i as int).drop_first() == ka.skip(i as int + 1));
        assert(kb.skip(i as int).drop_first() == kb.skip(i as int + 1));
        if text_less(&a[i], &b[i]) {
            proof {
                lemma_text_lt_irreflexive(a@[i as int]@);
            }
            return true;
        }
        if text_less(&b[i], &a[i]) {
            proof {
                lemma_text_lt_irreflexive(a@[i as int]@);
            }
            return false;
        }
        proof {
            lemma_text_lt_total(a@[i as int]@, b@[i as int]@);
        }
        i = i + 1;
    }
    i < b.len()
}

/// Some entry of `p` is `j`.
pub open spec fn covers(p: Seq<int>, j: int) -> bool {
    exists|i: int| 0 <= i < p.len() && #[trigger] p[i] == j
}

/// `p` puts the first `n` positions of `keys` in stable sorted order: each
/// position once, keys never decreasing, equal keys in their first order.
pub open spec fn is_stable_order(keys: Seq<Seq<Seq<char>>>, n: int, p: Seq<int>) -> bool {
    &&& p.len() == n
    &&& forall|i: int| 0 <= i < n ==> 0 <= #[trigger] p[i] < n
    &&& forall|i: int, j: int| 0 <= i < j < n ==> #[trigger] p[i] != #[trigger] p[j]
    &&& forall|i: int, j: int|
        0 <= i < j < n ==> !key_lt(keys[#[trigger] p[j]], keys[#[trigger] p[i]])
    &&& forall|i: int, j: int|
        0 <= i < j < n && keys[p[i]] == keys[p[j]] ==> #[trigger] p[i] < #[trigger] p[j]
    &&& forall|j: int| 0 <= j < n ==> #[trigger] covers(p, j)
}

/// `r` is `items` sorted stably by `keys`, the key of `items[i]` being `keys[i]`.
pub open spec fn stably_sorted<T>(items: Seq<T>, keys: Seq<Seq<Seq<char>>>, r: Seq<T>) -> bool {
    exists|p: Seq<int>|
        is_stable_order(keys, items.len() as int, p) && r.len() == items.len() && forall|i: int|
            0 <= i < r.len() ==> #[trigger] r[i] == items[p[i]]
}

/// A stable sort keeps the elements: each element of the result is one of
/// the items, and each item is in the result.
pub proof fn lemma_stably_sorted_same_elements<T>(items: Seq<T>, keys: Seq<Seq<Seq<char>>>, r: Seq<T>)
    requires
        stably_sorted(items, keys, r),
    ensures
        r.len() == items.len(),
        forall|a: int| 0 <= a < r.len() ==> items.contains(#[trigger] r[a]),
        forall|i: int| 0 <= i < items.len() ==> r.contains(#[trigger] items[i]),
{
    let p = choose|p: Seq<int>|
        is_stable_order(keys, items.len() as int, p) && r.len() == items.len() && forall|i: int|
            0 <= i < r.len() ==> #[trigger] r[i] == items[p[i]];
    assert forall|a: int| 0 <= a < r.len() implies items.contains(#[trigger] r[a]) by {
        assert(0 <= p[a] < items.len());
        assert(items[p[a]] == r[a]);
    }
    assert forall|i: int| 0 <= i < items.len() implies r.contains(#[trigger] items[i]) by {
        assert(covers(p, i));
        let m = choose|m: int| 0 <= m < p.len() && #[trigger] p[m] == i;
        assert(r[m] == items[i]);
    }
}

proof fn lemma_insert_keeps_order(keys: Seq<Seq<Seq<char>>>, n: int, p: Seq<int>, pos: int)
    requires
        0 <= n < keys.len(),
        is_stable_order(keys, n, p),
        0 <= pos <= n,
        forall|i: int| 0 <= i < pos ==> !key_lt(keys[n], keys[#[trigger] p[i]]),
        pos < n ==> key_lt(keys[n], keys[p[pos]]),
    ensures
        is_stable_order(keys, n + 1, p.insert(pos, n)),
{
    let q = p.insert(pos, n);
    assert forall|j: int| pos < j < n + 1 implies key_lt(keys[n], keys[#[trigger] q[j]]) by {
        assert(q[j] == p[j - 1]);
        if j - 1 > pos {
            assert(!key_lt(keys[p[j - 1]], keys[p[pos]]));
            lemma_key_lt_le(keys[n], keys[p[pos]], keys[p[j - 1]]);
        }
    }
    assert forall|i: int| 0 <= i < n + 1 implies 0 <= #[trigger] q[i] < n + 1 by {
        if i > pos {
            assert(q[i] == p[i - 1]);
        } else if i < pos {
            assert(q[i] == p[i]);
        }
    }
    assert forall|i: int, j: int| 0 <= i < j < n + 1 implies #[trigger] q[i] != #[trigger] q[j] by {
        if i < pos {
            assert(q[i] == p[i]);
        } else if i > pos {
            assert(q[i] == p[i - 1]);
        }
        if j < pos {
            assert(q[j] == p[j]);
        } else if j > pos {
            assert(q[j] == p[j - 1]);
        }
    }
    assert forall|i: int, j: int| 0 <= i < j < n + 1 implies !key_lt(
        keys[#[trigger] q[j]],
        keys[#[trigger] q[i]],
    ) by {
        if j < pos {
            assert(q[i] == p[i] && q[j] == p[j]);
        } else if j == pos {
            assert(q[i] == p[i]);
        } else if i == pos {
            assert(key_lt(keys[n], keys[q[j]]));
            lemma_key_lt_irreflexive(keys[n]);
            if key_lt(keys[q[j]], keys[n]) {
                lemma_key_lt_transitive(keys[n], keys[q[j]], keys[n]);
            }
        } else if i < pos {
            assert(q[i] == p[i] && q[j] == p[j - 1]);
        } else {
            assert(q[i] == p[i - 1] && q[j] == p[j - 1]);
        }
    }
    assert forall|j: int| 0 <= j < n + 1 implies #[trigger] covers(q, j) by {
        if j == n {
            assert(q[pos] == n);
        } else {
            assert(covers(p, j));
            let i = choose|i: int| 0 <= i < p.len() && #[trigger] p[i] == j;
            if i < pos {
                assert(q[i] == j);
            } else {
                assert(q[i + 1] == j);
            }
        }
    }
    assert forall|i: int, j: int|
        0 <= i < j < n + 1 && keys[q[i]] == keys[q[j]] implies #[trigger] q[i] < #[trigger] q[j] by {
        if j < pos {
            assert(q[i] == p[i] && q[j] == p[j]);
        } else if j == pos {
            assert(q[i] == p[i]);
        } else if i == pos {
            lemma_key_lt_irreflexive(keys[n]);
        } else if i < pos {
            assert(q[i] == p[i] && q[j] == p[j - 1]);
        } else {
            assert(q[i] == p[i - 1] && q[j] == p[j - 1]);
        }
    }
}

/// `items` sorted stably by their keys, `keys[i]` being the key of `items[i]`.
pub fn stable_sort_by_keys<T>(items: Vec<T>, keys: Vec<Vec<Vec<char>>>) -> (r: Vec<T>)
    requires
        items@.len() == keys@.len(),
    ensures
        r@.len() == items@.len(),
        stably_sorted(items@, key_views(keys@), r@),
{
    let ghost items0 = items@;
    let ghost keys0 = key_views(keys@);
    let n = items.len();
    let mut rest = items;
    let mut rest_keys = keys;
    let mut out: Vec<T> = Vec::new();
    let mut out_keys: Vec<Vec<Vec<char>>> = Vec::new();
    let ghost mut p: Seq<int> = Seq::empty();
    let mut k: usize = 0;
    while k < n
        invariant
            n == items0.len(),
            keys0.len() == n,
            k <= n,
            rest@ == items0.skip(k as int),
            key_views(rest_keys@) == keys0.skip(k as int),
            is_stable_order(keys0, k as int, p),
            out@.len() == k,
            out_keys@.len() == k,
            forall|i: int| 0 <= i < k ==> #[trigger] out@[i] == items0[p[i]],
            forall|i: int| 0 <= i < k ==> key_view(#[trigger] out_keys@[i]@) == keys0[p[i]],
        decreases n - k,
    {
        assert(rest@.len() > 0);
        assert(rest_keys@.len() == key_views(rest_keys@).len());
        let ghost old_rest_keys = rest_keys@;
        let item = rest.remove(0);
        let key = rest_keys.remove(0);
        assert(key_views(old_rest_keys)[0] == key_view(key@));
        assert(key_view(key@) == keys0[k as int]);
        assert(rest@ == items0.skip(k as int + 1));
        assert(key_views(rest_keys@) =~= keys0.skip(k as int + 1)) by {
            assert forall|i: int| 0 <= i < rest_keys@.len() implies key_views(rest_keys@)[i]
                == keys0.skip(k as int + 1)[i] by {
                assert(rest_keys@[i] == old_rest_keys[i + 1]);
                assert(key_views(old_rest_keys)[i + 1] == keys0.skip(k as int)[i + 1]);
                assert(key_views(rest_keys@)[i] == key_views(old_rest_keys)[i + 1]);
            }
        }
        let mut pos: usize = 0;
        while pos < out_keys.len() && !key_less(&key, &out_keys[pos])
            invariant
                pos <= out_keys@.len(),
                out_keys@.len() == k,
                key_view(key@) == keys0[k as int],
                forall|i: int| 0 <= i < k ==> key_view(#[trigger] out_keys@[i]@) == keys0[p[i]],
                forall|i: int| 0 <= i < pos ==> !key_lt(keys0[k as int], keys0[#[trigger] p[i]]),
            decreases k - pos,
        {
            assert(key_view(out_keys@[pos as int]@) == keys0[p[pos as int]]);
            pos = pos + 1;
        }
        proof {
            if pos < k {
                assert(key_view(out_keys@[pos as int]@) == keys0[p[pos as int]]);
            }
            lemma_insert_keeps_order(keys0, k as int, p, pos as int);
        }
        let ghost old_out = out@;
        let ghost old_out_keys = out_keys@;
        out.insert(pos, item);
        out_keys.insert(pos, key);
        proof {
            let q = p.insert(pos as int, k as int);
            assert forall|i: int| 0 <= i < k + 1 implies #[trigger] out@[i] == items0[q[i]] by {
                if i < pos {
                    assert(out@[i] == old_out[i]);
                } else if i > pos {
                    assert(out@[i] == old_out[i - 1]);
                }
            }
            assert forall|i: int| 0 <= i < k + 1 implies key_view(#[trigger] out_keys@[i]@)
                == keys0[q[i]] by {
                if i < pos {
                    assert(out_keys@[i] == old_out_keys[i]);
                } else if i > pos {
                    assert(out_keys@[i] == old_out_keys[i - 1]);
                }
            }
            p = q;
        }
        k = k + 1;
    }
    assert(out@.len() == items0.len());
    out
}

} // verus!
