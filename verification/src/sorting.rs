//! Orders and stable sorting, as specifications: the lexicographic order of
//! sequences, and the stable sort of a list by a total preorder, which is
//! what `slice::sort_by` returns.
use vstd::prelude::*;

verus! {

/// `lt` is a strict total order.
pub open spec fn strict_total<T>(lt: spec_fn(T, T) -> bool) -> bool {
    &&& forall|a: T| !#[trigger] lt(a, a)
    &&& forall|a: T, b: T| a != b ==> #[trigger] lt(a, b) || lt(b, a)
    &&& forall|a: T, b: T, c: T| #[trigger] lt(a, b) && #[trigger] lt(b, c) ==> lt(a, c)
}

/// Lexicographic order of sequences under a strict order `lt` on their
/// items: the first difference decides, and a proper prefix comes first.
pub open spec fn lex_le<T>(a: Seq<T>, b: Seq<T>, lt: spec_fn(T, T) -> bool) -> bool
    decreases a.len(),
{
    if a.len() == 0 {
        true
    } else if b.len() == 0 {
        false
    } else if a[0] != b[0] {
        lt(a[0], b[0])
    } else {
        lex_le(a.drop_first(), b.drop_first(), lt)
    }
}

pub proof fn lemma_lex_reflexive<T>(a: Seq<T>, lt: spec_fn(T, T) -> bool)
    ensures
        lex_le(a, a, lt),
    decreases a.len(),
{
    if a.len() > 0 {
        lemma_lex_reflexive(a.drop_first(), lt);
    }
}

pub proof fn lemma_lex_total<T>(a: Seq<T>, b: Seq<T>, lt: spec_fn(T, T) -> bool)
    requires
        strict_total(lt),
    ensures
        lex_le(a, b, lt) || lex_le(b, a, lt),
    decreases a.len(),
{
    if a.len() > 0 && b.len() > 0 && a[0] == b[0] {
        lemma_lex_total(a.drop_first(), b.drop_first(), lt);
    }
}

pub proof fn lemma_lex_antisymmetric<T>(a: Seq<T>, b: Seq<T>, lt: spec_fn(T, T) -> bool)
    requires
        strict_total(lt),
        lex_le(a, b, lt),
        lex_le(b, a, lt),
    ensures
        a == b,
    decreases a.len(),
{
    if a.len() > 0 && b.len() > 0 {
        if a[0] != b[0] {
            assert(lt(a[0], b[0]) && lt(b[0], a[0]));
            assert(lt(a[0], a[0]));
        } else {
            lemma_lex_antisymmetric(a.drop_first(), b.drop_first(), lt);
            assert(a =~= seq![a[0]] + a.drop_first());
            assert(b =~= seq![b[0]] + b.drop_first());
        }
    } else if a.len() == 0 && b.len() == 0 {
        assert(a =~= b);
    }
}

pub proof fn lemma_lex_transitive<T>(a: Seq<T>, b: Seq<T>, c: Seq<T>, lt: spec_fn(T, T) -> bool)
    requires
        strict_total(lt),
        lex_le(a, b, lt),
        lex_le(b, c, lt),
    ensures
        lex_le(a, c, lt),
    decreases a.len(),
{
    if a.len() > 0 && b.len() > 0 && c.len() > 0 {
        if a[0] == b[0] && b[0] == c[0] {
            lemma_lex_transitive(a.drop_first(), b.drop_first(), c.drop_first(), lt);
        } else if a[0] != b[0] && b[0] != c[0] {
            assert(lt(a[0], b[0]) && lt(b[0], c[0]));
            if a[0] == c[0] {
                assert(lt(a[0], a[0]));
            }
        }
    }
}

/// `le` is a total preorder: any two items compare, and it is transitive.
pub open spec fn total_preorder<T>(le: spec_fn(T, T) -> bool) -> bool {
    &&& forall|a: T, b: T| #[trigger] le(a, b) || le(b, a)
    &&& forall|a: T, b: T, c: T| #[trigger] le(a, b) && #[trigger] le(b, c) ==> le(a, c)
}

/// `x` placed into `sorted` after every item that is not greater than it.
pub open spec fn insert_by<T>(sorted: Seq<T>, x: T, le: spec_fn(T, T) -> bool) -> Seq<T>
    decreases sorted.len(),
{
    if sorted.len() == 0 || le(sorted.last(), x) {
        sorted.push(x)
    } else {
        insert_by(sorted.drop_last(), x, le).push(sorted.last())
    }
}

/// The stable sort of `s` by `le`: items that compare equal keep their
/// order.
pub open spec fn sort_by<T>(s: Seq<T>, le: spec_fn(T, T) -> bool) -> Seq<T>
    decreases s.len(),
{
    if s.len() == 0 {
        s
    } else {
        insert_by(sort_by(s.drop_last(), le), s.last(), le)
    }
}

pub open spec fn sorted_by<T>(s: Seq<T>, le: spec_fn(T, T) -> bool) -> bool {
    forall|i: int, j: int| 0 <= i < j < s.len() ==> le(#[trigger] s[i], #[trigger] s[j])
}

/// Where the insertion lands: after the last item not greater than `x`.
pub proof fn lemma_insert_at<T>(sorted: Seq<T>, x: T, le: spec_fn(T, T) -> bool, j: int)
    requires
        0 <= j <= sorted.len(),
        forall|k: int| j <= k < sorted.len() ==> !le(#[trigger] sorted[k], x),
        j == 0 || le(sorted[j - 1], x),
    ensures
        insert_by(sorted, x, le) == sorted.insert(j, x),
    decreases sorted.len(),
{
    if j == sorted.len() {
        assert(sorted.insert(j, x) =~= sorted.push(x));
    } else {
        lemma_insert_at(sorted.drop_last(), x, le, j);
        assert(sorted.drop_last().insert(j, x).push(sorted.last()) =~= sorted.insert(j, x));
    }
}

proof fn lemma_insert_sorted<T>(sorted: Seq<T>, x: T, le: spec_fn(T, T) -> bool)
    requires
        total_preorder(le),
        sorted_by(sorted, le),
    ensures
        sorted_by(insert_by(sorted, x, le), le),
        insert_by(sorted, x, le).len() == sorted.len() + 1,
        insert_by(sorted, x, le).to_multiset() == sorted.to_multiset().insert(x),
    decreases sorted.len(),
{
    broadcast use vstd::seq_lib::group_to_multiset_ensures;

    if sorted.len() == 0 || le(sorted.last(), x) {
    } else {
        let rest = sorted.drop_last();
        let last = sorted.last();
        lemma_insert_sorted(rest, x, le);
        let r = insert_by(rest, x, le);
        assert(le(x, last));
        assert forall|k: int| 0 <= k < r.len() implies le(#[trigger] r[k], last) by {
            assert(r.to_multiset().count(r[k]) > 0);
            assert(rest.to_multiset().insert(x).count(r[k]) > 0);
            if r[k] != x {
                assert(rest.to_multiset().count(r[k]) > 0);
                assert(rest.contains(r[k]));
                let m = choose|m: int| 0 <= m < rest.len() && rest[m] == r[k];
                assert(sorted[m] == rest[m]);
                assert(le(sorted[m], sorted[sorted.len() - 1]));
            }
        }
        let out = r.push(last);
        assert forall|i: int, j: int| 0 <= i < j < out.len() implies le(
            #[trigger] out[i],
            #[trigger] out[j],
        ) by {
            if j == out.len() - 1 {
                assert(out[i] == r[i]);
            } else {
                assert(out[i] == r[i] && out[j] == r[j]);
            }
        }
        assert(sorted =~= rest.push(last));
    }
}

/// The stable sort is sorted, and holds the same items as many times each.
pub proof fn law_sort_by<T>(s: Seq<T>, le: spec_fn(T, T) -> bool)
    requires
        total_preorder(le),
    ensures
        sorted_by(sort_by(s, le), le),
        sort_by(s, le).to_multiset() == s.to_multiset(),
        sort_by(s, le).len() == s.len(),
    decreases s.len(),
{
    broadcast use vstd::seq_lib::group_to_multiset_ensures;

    if s.len() > 0 {
        law_sort_by(s.drop_last(), le);
        lemma_insert_sorted(sort_by(s.drop_last(), le), s.last(), le);
        assert(s =~= s.drop_last().push(s.last()));
    }
}

/// Sorting a sorted list changes nothing.
pub proof fn law_sort_sorted<T>(s: Seq<T>, le: spec_fn(T, T) -> bool)
    requires
        sorted_by(s, le),
    ensures
        sort_by(s, le) == s,
    decreases s.len(),
{
    if s.len() > 0 {
        let rest = s.drop_last();
        assert(sorted_by(rest, le)) by {
            assert forall|i: int, j: int| 0 <= i < j < rest.len() implies le(
                #[trigger] rest[i],
                #[trigger] rest[j],
            ) by {
                assert(rest[i] == s[i] && rest[j] == s[j]);
            }
        }
        law_sort_sorted(rest, le);
        if rest.len() > 0 {
            assert(le(s[rest.len() - 1], s[s.len() - 1]));
        }
        assert(s =~= rest.push(s.last()));
    }
}


/// Inserting keeps every item: the result holds the same items as many
/// times each, whatever the order.
proof fn lemma_insert_multiset<T>(sorted: Seq<T>, x: T, le: spec_fn(T, T) -> bool)
    ensures
        insert_by(sorted, x, le).to_multiset() == sorted.to_multiset().insert(x),
        insert_by(sorted, x, le).len() == sorted.len() + 1,
    decreases sorted.len(),
{
    broadcast use vstd::seq_lib::group_to_multiset_ensures;

    if sorted.len() > 0 && !le(sorted.last(), x) {
        lemma_insert_multiset(sorted.drop_last(), x, le);
        assert(sorted =~= sorted.drop_last().push(sorted.last()));
    }
}

/// Every item of the sorted list is an item of the list.
pub proof fn lemma_sort_items<T>(s: Seq<T>, le: spec_fn(T, T) -> bool)
    ensures
        sort_by(s, le).to_multiset() == s.to_multiset(),
        sort_by(s, le).len() == s.len(),
        forall|k: int| 0 <= k < sort_by(s, le).len() ==> s.contains(#[trigger] sort_by(s, le)[k]),
    decreases s.len(),
{
    broadcast use vstd::seq_lib::group_to_multiset_ensures;

    if s.len() > 0 {
        lemma_sort_items(s.drop_last(), le);
        lemma_insert_multiset(sort_by(s.drop_last(), le), s.last(), le);
        assert(s =~= s.drop_last().push(s.last()));
        let r = sort_by(s, le);
        assert forall|k: int| 0 <= k < r.len() implies s.contains(#[trigger] r[k]) by {
            assert(r.to_multiset().count(r[k]) > 0);
        }
    }
}

proof fn lemma_insert_map<A, B>(
    sorted: Seq<B>,
    x: B,
    f: spec_fn(B) -> A,
    le_b: spec_fn(B, B) -> bool,
    le_a: spec_fn(A, A) -> bool,
)
    requires
        forall|k: int| 0 <= k < sorted.len() ==> le_b(#[trigger] sorted[k], x) == le_a(f(sorted[k]), f(x)),
    ensures
        insert_by(sorted, x, le_b).map_values(f) == insert_by(sorted.map_values(f), f(x), le_a),
    decreases sorted.len(),
{
    let m = sorted.map_values(f);
    if sorted.len() == 0 {
        assert(insert_by(sorted, x, le_b).map_values(f) =~= m.push(f(x)));
    } else {
        assert(m.last() == f(sorted.last()));
        assert(m.drop_last() =~= sorted.drop_last().map_values(f));
        if le_b(sorted.last(), x) {
            assert(sorted.push(x).map_values(f) =~= m.push(f(x)));
        } else {
            lemma_insert_map(sorted.drop_last(), x, f, le_b, le_a);
            let r = insert_by(sorted.drop_last(), x, le_b);
            assert(r.push(sorted.last()).map_values(f) =~= r.map_values(f).push(f(sorted.last())));
        }
    }
}

/// Sorting commutes with a map under which the order agrees: when `le_b`
/// on the items of `s` is `le_a` on their images, the images of the sorted
/// list are the sorted images.
pub proof fn lemma_sort_map<A, B>(
    s: Seq<B>,
    f: spec_fn(B) -> A,
    le_b: spec_fn(B, B) -> bool,
    le_a: spec_fn(A, A) -> bool,
)
    requires
        forall|p: B, q: B| s.contains(p) && s.contains(q) ==> #[trigger] le_b(p, q) == le_a(f(p), f(q)),
    ensures
        sort_by(s, le_b).map_values(f) == sort_by(s.map_values(f), le_a),
    decreases s.len(),
{
    if s.len() == 0 {
        assert(s.map_values(f) =~= Seq::<A>::empty());
        assert(sort_by(s, le_b).map_values(f) =~= Seq::<A>::empty());
    } else {
        let rest = s.drop_last();
        assert forall|p: B, q: B| rest.contains(p) && rest.contains(q) implies #[trigger] le_b(p, q)
            == le_a(f(p), f(q)) by {
            let i = choose|i: int| 0 <= i < rest.len() && rest[i] == p;
            let j = choose|j: int| 0 <= j < rest.len() && rest[j] == q;
            assert(s[i] == p && s[j] == q);
        }
        lemma_sort_map(rest, f, le_b, le_a);
        lemma_sort_items(rest, le_b);
        let sorted = sort_by(rest, le_b);
        assert forall|k: int| 0 <= k < sorted.len() implies le_b(#[trigger] sorted[k], s.last())
            == le_a(f(sorted[k]), f(s.last())) by {
            assert(rest.contains(sorted[k]));
            let i = choose|i: int| 0 <= i < rest.len() && rest[i] == sorted[k];
            assert(s[i] == sorted[k]);
            assert(s[s.len() - 1] == s.last());
        }
        lemma_insert_map(sorted, s.last(), f, le_b, le_a);
        assert(s.map_values(f).drop_last() =~= rest.map_values(f));
        assert(s.map_values(f).last() == f(s.last()));
    }
}


/// The second part of a pair.
pub open spec fn second<K, T>() -> spec_fn((K, T)) -> T {
    |p: (K, T)| p.1
}

/// The second parts of a list of pairs, in order.
pub fn strip_keys<K, T>(pairs: Vec<(K, T)>) -> (out: Vec<T>)
    ensures
        out@ == pairs@.map_values(second::<K, T>()),
{
    let mut rest = pairs;
    let ghost all = rest@;
    let mut out: Vec<T> = Vec::new();
    while rest.len() > 0
        invariant
            out@.len() + rest@.len() == all.len(),
            rest@ == all.skip(out@.len() as int),
            out@ == all.take(out@.len() as int).map_values(second::<K, T>()),
        decreases rest.len(),
    {
        let ghost n = out@.len() as int;
        let ghost old_out = out@;
        let (key, item) = rest.remove(0);
        assert((key, item) == all[n]);
        out.push(item);
        assert(rest@ =~= all.skip(n + 1));
        assert forall|k: int| 0 <= k < n + 1 implies out@[k] == all.take(n + 1).map_values(
            second::<K, T>(),
        )[k] by {
            if k < n {
                assert(out@[k] == old_out[k]);
                assert(old_out[k] == all.take(n).map_values(second::<K, T>())[k]);
            }
        }
        assert(out@ =~= all.take(n + 1).map_values(second::<K, T>()));
    }
    assert(all.take(all.len() as int) =~= all);
    out
}

} // verus!
