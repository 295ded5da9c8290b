//! Stable fingerprints of field values: the values in lexicographic order,
//! joined with `'|'`, so that the fingerprint does not depend on the order
//! the values were supplied in.

use vstd::prelude::*;
use vstd::relations::{sorted_by, total_ordering};
use vstd::string::*;

verus! {

/// Lexicographic order on texts, by character code (the order of `str`'s
/// `Ord`, since UTF-8 preserves code point order).
pub open spec fn lex_le(a: Seq<char>, b: Seq<char>) -> bool
    decreases a.len(),
{
    if a.len() == 0 {
        true
    } else if b.len() == 0 {
        false
    } else if a[0] != b[0] {
        (a[0] as int) < (b[0] as int)
    } else {
        lex_le(a.drop_first(), b.drop_first())
    }
}

/// The lexicographic order as a relation.
pub open spec fn lex_order() -> spec_fn(Seq<char>, Seq<char>) -> bool {
    |a: Seq<char>, b: Seq<char>| lex_le(a, b)
}

/// `parts` joined with `sep` between neighbours.
pub open spec fn join_with(parts: Seq<Seq<char>>, sep: Seq<char>) -> Seq<char>
    decreases parts.len(),
{
    if parts.len() == 0 {
        Seq::empty()
    } else if parts.len() == 1 {
        parts[0]
    } else {
        join_with(parts.drop_last(), sep) + sep + parts.last()
    }
}

/// The texts of a sequence of strings.
pub open spec fn texts(v: Seq<String>) -> Seq<Seq<char>> {
    v.map_values(|s: String| s@)
}

/// The fingerprint of some values: sorted lexicographically, joined with
/// `'|'`.
pub open spec fn fingerprint_spec(values: Seq<Seq<char>>) -> Seq<char> {
    join_with(values.sort_by(lex_order()), "|"@)
}

proof fn lemma_lex_reflexive(a: Seq<char>)
    ensures
        lex_le(a, a),
    decreases a.len(),
{
    if a.len() > 0 {
        lemma_lex_reflexive(a.drop_first());
    }
}

proof fn lemma_lex_antisymmetric(a: Seq<char>, b: Seq<char>)
    requires
        lex_le(a, b),
        lex_le(b, a),
    ensures
        a == b,
    decreases a.len(),
{
    if a.len() > 0 && b.len() > 0 && a[0] == b[0] {
        lemma_lex_antisymmetric(a.drop_first(), b.drop_first());
        assert(a =~= b) by {
            assert forall|i: int| 0 <= i < a.len() implies a[i] == b[i] by {
                if i > 0 {
                    assert(a[i] == a.drop_first()[i - 1]);
                    assert(b[i] == b.drop_first()[i - 1]);
                }
            }
        }
    }
}

proof fn lemma_lex_transitive(a: Seq<char>, b: Seq<char>, c: Seq<char>)
    requires
        lex_le(a, b),
        lex_le(b, c),
    ensures
        lex_le(a, c),
    decreases a.len(),
{
    if a.len() > 0 && a[0] == b[0] && b[0] == c[0] {
        lemma_lex_transitive(a.drop_first(), b.drop_first(), c.drop_first());
    }
}

proof fn lemma_lex_connected(a: Seq<char>, b: Seq<char>)
    ensures
        lex_le(a, b) || lex_le(b, a),
    decreases a.len(),
{
    if a.len() > 0 && b.len() > 0 {
        if a[0] == b[0] {
            lemma_lex_connected(a.drop_first(), b.drop_first());
        } else {
            assert((a[0] as int) != (b[0] as int));
        }
    }
}

/// The lexicographic order is a total order.
pub proof fn lemma_lex_total()
    ensures
        total_ordering(lex_order()),
{
    let r = lex_order();
    assert forall|x: Seq<char>| #[trigger] r(x, x) by {
        lemma_lex_reflexive(x);
    }
    assert forall|x: Seq<char>, y: Seq<char>| #[trigger] r(x, y) && #[trigger] r(y, x) implies x
        == y by {
        lemma_lex_antisymmetric(x, y);
    }
    assert forall|x: Seq<char>, y: Seq<char>, z: Seq<char>| #[trigger] r(x, y) && #[trigger] r(
        y,
        z,
    ) implies r(x, z) by {
        lemma_lex_transitive(x, y, z);
    }
    assert forall|x: Seq<char>, y: Seq<char>| #[trigger] r(x, y) || #[trigger] r(y, x) by {
        lemma_lex_connected(x, y);
    }
}

/// Compare two texts lexicographically by character code.
pub fn str_lex_le(a: &str, b: &str) -> (r: bool)
    ensures
        r == lex_le(a@, b@),
{
    let n = a.unicode_len();
    let m = b.unicode_len();
    let mut i: usize = 0;
    assert(a@.skip(0) =~= a@);
    assert(b@.skip(0) =~= b@);
    while i < n && i < m
        invariant
            n == a@.len(),
            m == b@.len(),
            i <= n,
            i <= m,
            lex_le(a@, b@) == lex_le(a@.skip(i as int), b@.skip(i as int)),
        decreases n - i,
    {
        let ca = a.get_char(i);
        let cb = b.get_char(i);
        proof {
            assert(a@.skip(i as int)[0] == ca);
            assert(b@.skip(i as int)[0] == cb);
            assert(a@.skip(i as int).drop_first() =~= a@.skip(i + 1));
            assert(b@.skip(i as int).drop_first() =~= b@.skip(i + 1));
        }
        if ca != cb {
            return (ca as u32) < (cb as u32);
        }
        i = i + 1;
    }
    i == n
}

/// The fingerprint does not depend on the order of the values: any two
/// arrangements of the same values have the same fingerprint.
pub proof fn lemma_fingerprint_order_independent(a: Seq<Seq<char>>, b: Seq<Seq<char>>)
    requires
        a.to_multiset() == b.to_multiset(),
    ensures
        fingerprint_spec(a) == fingerprint_spec(b),
{
    lemma_lex_total();
    a.lemma_sort_by_ensures(lex_order());
    b.lemma_sort_by_ensures(lex_order());
    vstd::seq_lib::lemma_sorted_unique(a.sort_by(lex_order()), b.sort_by(lex_order()), lex_order());
}

fn insert_position(sorted: &Vec<String>, x: &str) -> (p: usize)
    ensures
        p <= sorted@.len(),
        forall|j: int| 0 <= j < p ==> lex_le(#[trigger] sorted@[j]@, x@),
        p < sorted@.len() ==> !lex_le(sorted@[p as int]@, x@),
{
    let mut p: usize = 0;
    while p < sorted.len()
        invariant
            p <= sorted@.len(),
            forall|j: int| 0 <= j < p ==> lex_le(#[trigger] sorted@[j]@, x@),
        decreases sorted@.len() - p,
    {
        if !str_lex_le(sorted[p].as_str(), x) {
            return p;
        }
        p = p + 1;
    }
    p
}

fn insert_sorted(sorted: &mut Vec<String>, x: String)
    requires
        sorted_by(texts(old(sorted)@), lex_order()),
    ensures
        sorted_by(texts(final(sorted)@), lex_order()),
        texts(final(sorted)@).to_multiset() == texts(old(sorted)@).to_multiset().insert(x@),
{
    broadcast use vstd::seq_lib::group_to_multiset_ensures;
    broadcast use vstd::multiset::group_multiset_axioms;
    let ghost t = texts(sorted@);
    let p = insert_position(sorted, x.as_str());
    let ghost xv = x@;
    sorted.insert(p, x);
    proof {
        lemma_lex_total();
        let r = lex_order();
        let u = texts(sorted@);
        assert(u =~= t.insert(p as int, xv));
        assert forall|i: int, j: int| 0 <= i < j < u.len() implies #[trigger] r(u[i], u[j]) by {
            if j < p {
                assert(r(t[i], t[j]));
            } else if j == p {
                assert(u[i] == t[i]);
                assert(lex_le(sorted@[i]@, xv));
            } else if i < p {
                assert(u[j] == t[j - 1]);
                assert(r(t[i], t[j - 1]));
            } else if i == p {
                assert(u[j] == t[j - 1]);
                assert(!lex_le(t[p as int], xv));
                assert(r(xv, t[p as int]) || r(t[p as int], xv));
                if j - 1 > p {
                    assert(r(t[p as int], t[j - 1]));
                }
            } else {
                assert(u[i] == t[i - 1]);
                assert(u[j] == t[j - 1]);
                assert(r(t[i - 1], t[j - 1]));
            }
        }
        assert(u.remove(p as int) =~= t);
        assert(u[p as int] == xv);
        assert(t.to_multiset() =~= u.to_multiset().remove(xv));
        assert(u.to_multiset().count(xv) > 0);
        assert(u.to_multiset() =~= t.to_multiset().insert(xv));
    }
}

/// The fingerprint of some field values: the values sorted
/// lexicographically and joined with `'|'`.  Equal for any order of the same
/// values.
pub fn fingerprint(values: &Vec<String>) -> (r: String)
    ensures
        r@ == fingerprint_spec(texts(values@)),
{
    broadcast use vstd::seq_lib::group_to_multiset_ensures;
    let mut sorted: Vec<String> = Vec::new();
    let mut i: usize = 0;
    assert(texts(values@.take(0)) =~= Seq::<Seq<char>>::empty());
    while i < values.len()
        invariant
            i <= values@.len(),
            sorted_by(texts(sorted@), lex_order()),
            texts(sorted@).to_multiset() == texts(values@.take(i as int)).to_multiset(),
        decreases values@.len() - i,
    {
        let v = values[i].clone();
        assert(v@ == values@[i as int]@);
        insert_sorted(&mut sorted, v);
        proof {
            assert(texts(values@.take(i + 1)) =~= texts(values@.take(i as int)).push(
                values@[i as int]@,
            ));
            vstd::seq_lib::to_multiset_build(texts(values@.take(i as int)), values@[i as int]@);
        }
        i = i + 1;
    }
    proof {
        assert(values@.take(values@.len() as int) =~= values@);
        lemma_lex_total();
        texts(values@).lemma_sort_by_ensures(lex_order());
        vstd::seq_lib::lemma_sorted_unique(
            texts(sorted@),
            texts(values@).sort_by(lex_order()),
            lex_order(),
        );
    }
    let ghost parts = texts(sorted@);
    let mut r = String::new();
    let mut k: usize = 0;
    proof {
        reveal_strlit("|");
    }
    while k < sorted.len()
        invariant
            parts == texts(sorted@),
            k <= sorted@.len(),
            r@ == join_with(parts.take(k as int), "|"@),
        decreases sorted@.len() - k,
    {
        proof {
            assert(parts.take(k + 1).drop_last() =~= parts.take(k as int));
            assert(parts.take(k + 1).last() == sorted@[k as int]@);
        }
        if k > 0 {
            r.append("|");
        } else {
            assert(parts.take(1) =~= seq![sorted@[0]@]);
        }
        r.append(sorted[k].as_str());
        k = k + 1;
    }
    assert(parts.take(parts.len() as int) =~= parts);
    r
}

} // verus!
