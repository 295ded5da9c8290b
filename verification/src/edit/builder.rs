//! Matching helpers used when an import finds entities that share a natural
//! key: which of them a row may bind to, and, among several, the one whose
//! field fingerprint is closest by Levenshtein distance.

use vstd::prelude::*;
use vstd::string::*;
use std::collections::HashSet;
use crate::ids::{
    EntityTyped, EntityUuid, NonNilUuid, RuntimeEntityId, generate_uuid, lemma_uuid_view_injective,
    name_based_uuid, name_v5, oid_namespace_value, type_namespace,
};
use vstd::utf8::encode_utf8;
use crate::edit::command::{
    CommandView, EditCommand, EditError, EntityState, FieldValue, FieldValueView, StateView,
    fields_view, result_view, step,
};
use crate::text::chars_of;

verus! {

broadcast use vstd::std_specs::hash::group_hash_axioms, lemma_uuid_view_injective;

/// The smallest of three numbers.
pub open spec fn min3(x: nat, y: nat, z: nat) -> nat {
    if x <= y && x <= z {
        x
    } else if y <= z {
        y
    } else {
        z
    }
}

/// Levenshtein distance: the least number of single-character insertions,
/// deletions and substitutions that turn `a` into `b`.
pub open spec fn levenshtein(a: Seq<char>, b: Seq<char>) -> nat
    decreases a.len() + b.len(),
{
    if a.len() == 0 {
        b.len()
    } else if b.len() == 0 {
        a.len()
    } else if a.last() == b.last() {
        levenshtein(a.drop_last(), b.drop_last())
    } else {
        1 + min3(
            levenshtein(a.drop_last(), b.drop_last()),
            levenshtein(a, b.drop_last()),
            levenshtein(a.drop_last(), b),
        )
    }
}

/// The distance never exceeds the longer of the two strings.
pub proof fn lemma_levenshtein_bound(a: Seq<char>, b: Seq<char>)
    ensures
        levenshtein(a, b) <= if a.len() >= b.len() { a.len() } else { b.len() },
    decreases a.len() + b.len(),
{
    if a.len() > 0 && b.len() > 0 {
        lemma_levenshtein_bound(a.drop_last(), b.drop_last());
    }
}

/// A string is at distance zero from itself.
pub proof fn lemma_levenshtein_identity(a: Seq<char>)
    ensures
        levenshtein(a, a) == 0,
    decreases a.len(),
{
    if a.len() > 0 {
        lemma_levenshtein_identity(a.drop_last());
    }
}

/// Turning a string into the empty one (or back) takes one step per character.
pub proof fn lemma_levenshtein_empty(a: Seq<char>)
    ensures
        levenshtein(a, Seq::empty()) == a.len(),
        levenshtein(Seq::empty(), a) == a.len(),
{
}

/// The distance from `a` to `b` equals the distance from `b` to `a`.
pub proof fn lemma_levenshtein_symmetric(a: Seq<char>, b: Seq<char>)
    ensures
        levenshtein(a, b) == levenshtein(b, a),
    decreases a.len() + b.len(),
{
    if a.len() > 0 && b.len() > 0 {
        lemma_levenshtein_symmetric(a.drop_last(), b.drop_last());
        lemma_levenshtein_symmetric(a, b.drop_last());
        lemma_levenshtein_symmetric(a.drop_last(), b);
    }
}

/// The distance is at least the difference of the lengths.
pub proof fn lemma_levenshtein_lower_bound(a: Seq<char>, b: Seq<char>)
    ensures
        levenshtein(a, b) >= if a.len() >= b.len() { a.len() - b.len() } else { b.len() - a.len() },
    decreases a.len() + b.len(),
{
    if a.len() > 0 && b.len() > 0 {
        lemma_levenshtein_lower_bound(a.drop_last(), b.drop_last());
        lemma_levenshtein_lower_bound(a, b.drop_last());
        lemma_levenshtein_lower_bound(a.drop_last(), b);
    }
}

/// The distance is zero exactly when the strings are equal.
pub proof fn lemma_levenshtein_zero_iff_equal(a: Seq<char>, b: Seq<char>)
    ensures
        levenshtein(a, b) == 0 <==> a == b,
    decreases a.len() + b.len(),
{
    if a == b {
        lemma_levenshtein_identity(a);
    } else if a.len() > 0 && b.len() > 0 && a.last() == b.last() {
        lemma_levenshtein_zero_iff_equal(a.drop_last(), b.drop_last());
        if a.drop_last() == b.drop_last() {
            assert(a =~= a.drop_last().push(a.last()));
            assert(b =~= b.drop_last().push(b.last()));
        }
    } else if a.len() == 0 && b.len() == 0 {
        assert(a =~= b);
    }
}

/// Dropping the last character of the first string changes the distance by
/// at most one, either way.
pub proof fn lemma_levenshtein_drop_last(a: Seq<char>, c: Seq<char>)
    requires
        a.len() > 0,
    ensures
        levenshtein(a, c) <= levenshtein(a.drop_last(), c) + 1,
        levenshtein(a.drop_last(), c) <= levenshtein(a, c) + 1,
    decreases a.len() + c.len(),
{
    let a1 = a.drop_last();
    if c.len() == 0 {
        lemma_levenshtein_empty(a);
        lemma_levenshtein_empty(a1);
    } else if a1.len() == 0 {
        lemma_levenshtein_bound(a, c);
        lemma_levenshtein_lower_bound(a, c);
    } else {
        let c1 = c.drop_last();
        lemma_levenshtein_drop_last(c, a1);
        lemma_levenshtein_drop_last(a, c1);
        lemma_levenshtein_symmetric(a1, c);
        lemma_levenshtein_symmetric(a1, c1);
    }
}

/// The triangle inequality: going through `b` is never shorter.
pub proof fn lemma_levenshtein_triangle(a: Seq<char>, b: Seq<char>, c: Seq<char>)
    ensures
        levenshtein(a, c) <= levenshtein(a, b) + levenshtein(b, c),
    decreases a.len() + b.len() + c.len(),
{
    if a.len() == 0 {
        lemma_levenshtein_lower_bound(b, c);
    } else if b.len() == 0 {
        lemma_levenshtein_bound(a, c);
    } else if c.len() == 0 {
        lemma_levenshtein_lower_bound(a, b);
    } else {
        let a1 = a.drop_last();
        let b1 = b.drop_last();
        let c1 = c.drop_last();
        lemma_levenshtein_triangle(a1, b1, c1);
        lemma_levenshtein_triangle(a, b, c1);
        lemma_levenshtein_triangle(a1, b1, c);
        lemma_levenshtein_triangle(a, b1, c1);
        lemma_levenshtein_triangle(a1, b, c);
        lemma_levenshtein_triangle(a, b1, c);
        lemma_levenshtein_drop_last(a, c);
        lemma_levenshtein_drop_last(c, a);
        lemma_levenshtein_symmetric(a, c);
        lemma_levenshtein_symmetric(a, c1);
    }
}

/// Compute the Levenshtein edit distance between two strings.
///
/// Used to pick the best-matching candidate when multiple entities share a
/// natural key.
pub fn edit_distance(a: &str, b: &str) -> (r: usize)
    ensures
        r == levenshtein(a@, b@),
{
    let av = chars_of(a);
    let bv = chars_of(b);
    let n = bv.len();
    let ghost sa = av@;
    let ghost sb = bv@;
    let alen = av.len();
    assert(sa.len() == alen);
    let mut row: Vec<usize> = Vec::new();
    let mut k: usize = 0;
    assert(levenshtein(sa.take(0), sb.take(0)) == 0);
    row.push(0);
    while k < n
        invariant
            n == sb.len(),
            k <= n,
            row@.len() == k + 1,
            forall|j: int| 0 <= j <= k ==> #[trigger] row@[j] == levenshtein(sa.take(0), sb.take(j)),
        decreases n - k,
    {
        k = k + 1;
        assert(levenshtein(sa.take(0), sb.take(k as int)) == k);
        row.push(k);
    }
    let mut i: usize = 0;
    while i < av.len()
        invariant
            av@ == sa,
            bv@ == sb,
            n == sb.len(),
            i <= sa.len(),
            sa.len() <= usize::MAX,
            row@.len() == n + 1,
            forall|j: int| 0 <= j <= n ==> #[trigger] row@[j] == levenshtein(sa.take(i as int), sb.take(j)),
        decreases sa.len() - i,
    {
        let ghost a0 = sa.take(i as int);
        let ghost a1 = sa.take(i + 1);
        assert(a1.drop_last() =~= a0);
        assert(a1.last() == sa[i as int]);
        let ca = av[i];
        let mut prev = row[0];
        assert(sb.take(0) =~= Seq::<char>::empty());
        assert(prev == i) by {
            assert(a0.len() == i);
        }
        row.set(0, prev + 1);
        let mut j: usize = 0;
        while j < n
            invariant
                av@ == sa,
                bv@ == sb,
                n == sb.len(),
                i < sa.len(),
                sa.len() <= usize::MAX,
                a0 == sa.take(i as int),
                a1 == sa.take(i + 1),
                a1.drop_last() == a0,
                a1.last() == ca,
                j <= n,
                row@.len() == n + 1,
                forall|k: int| 0 <= k <= j ==> #[trigger] row@[k] == levenshtein(a1, sb.take(k)),
                forall|k: int| j < k <= n ==> #[trigger] row@[k] == levenshtein(a0, sb.take(k)),
                prev == levenshtein(a0, sb.take(j as int)),
            decreases n - j,
        {
            let ghost b0 = sb.take(j as int);
            let ghost b1 = sb.take(j + 1);
            proof {
                assert(b1.drop_last() =~= b0);
                assert(b1.last() == sb[j as int]);
                lemma_levenshtein_bound(a0, b0);
                lemma_levenshtein_bound(a1, b0);
                lemma_levenshtein_bound(a0, b1);
                assert(a0.len() == i && b0.len() == j);
                assert(prev < usize::MAX);
            }
            let cb = bv[j];
            let left = row[j];
            let up = row[j + 1];
            let next = if ca == cb {
                prev
            } else {
                let m1 = if prev <= left { prev } else { left };
                let m = if m1 <= up { m1 } else { up };
                1 + m
            };
            assert(next == levenshtein(a1, b1));
            prev = up;
            row.set(j + 1, next);
            j = j + 1;
        }
        i = i + 1;
    }
    assert(sa.take(sa.len() as int) =~= sa);
    assert(sb.take(n as int) =~= sb);
    row[n]
}

/// The candidates whose UUIDs are in `seen`.
pub open spec fn seen_only(seen: Set<u128>) -> spec_fn(NonNilUuid) -> bool {
    |c: NonNilUuid| seen.contains(c@)
}

/// The candidates whose UUIDs are not in `seen`.
pub open spec fn unseen_only(seen: Set<u128>) -> spec_fn(NonNilUuid) -> bool {
    |c: NonNilUuid| !seen.contains(c@)
}

/// The entities an import row may bind to, among the live entities that
/// share its natural key.
///
/// In reuse mode a single candidate is kept as is; among several, those
/// already bound earlier in the import are preferred, falling back to all of
/// them.  Otherwise entities already bound earlier are excluded, so that
/// rows repeating a key bind to distinct entities.
pub open spec fn pool_spec(cands: Seq<NonNilUuid>, seen: Set<u128>, allow_reuse: bool) -> Seq<
    NonNilUuid,
> {
    if allow_reuse {
        if cands.len() <= 1 || cands.filter(seen_only(seen)).len() == 0 {
            cands
        } else {
            cands.filter(seen_only(seen))
        }
    } else {
        cands.filter(unseen_only(seen))
    }
}

fn filter_seen(cands: &[NonNilUuid], seen: &HashSet<u128>, keep_seen: bool) -> (r: Vec<NonNilUuid>)
    ensures
        r@ == if keep_seen {
            cands@.filter(seen_only(seen@))
        } else {
            cands@.filter(unseen_only(seen@))
        },
{
    let ghost p = if keep_seen {
        seen_only(seen@)
    } else {
        unseen_only(seen@)
    };
    let mut r: Vec<NonNilUuid> = Vec::new();
    let mut i: usize = 0;
    while i < cands.len()
        invariant
            i <= cands@.len(),
            p == (if keep_seen {
                seen_only(seen@)
            } else {
                unseen_only(seen@)
            }),
            r@ == cands@.take(i as int).filter(p),
        decreases cands@.len() - i,
    {
        proof {
            reveal(Seq::filter);
            assert(cands@.take(i + 1).drop_last() =~= cands@.take(i as int));
        }
        let c = cands[i];
        let in_seen = seen.contains(&c.get());
        if in_seen == keep_seen {
            r.push(c);
        }
        i = i + 1;
    }
    assert(cands@.take(cands@.len() as int) =~= cands@);
    r
}

/// Without reuse, a row never binds to an entity already bound earlier in
/// the import; with reuse, a row with at least one candidate always binds to
/// an existing entity.  Either way only candidates are offered.
pub proof fn lemma_pool_properties(cands: Seq<NonNilUuid>, seen: Set<u128>, allow_reuse: bool)
    ensures
        forall|c: NonNilUuid| #[trigger]
            pool_spec(cands, seen, allow_reuse).contains(c) ==> cands.contains(c),
        !allow_reuse ==> forall|c: NonNilUuid| #[trigger]
            pool_spec(cands, seen, allow_reuse).contains(c) ==> !seen.contains(c@),
        allow_reuse && cands.len() > 0 ==> pool_spec(cands, seen, allow_reuse).len() > 0,
{
    broadcast use vstd::seq_lib::group_filter_ensures;
    let pool = pool_spec(cands, seen, allow_reuse);
    assert forall|c: NonNilUuid| #[trigger] pool.contains(c) implies cands.contains(c) by {
        if pool != cands {
            if allow_reuse {
                cands.lemma_filter_contains_rev(seen_only(seen), c);
            } else {
                cands.lemma_filter_contains_rev(unseen_only(seen), c);
            }
        }
    }
    if !allow_reuse {
        assert forall|c: NonNilUuid| #[trigger] pool.contains(c) implies !seen.contains(c@) by {
            let k = choose|k: int| 0 <= k < pool.len() && pool[k] == c;
            cands.lemma_filter_pred(unseen_only(seen), k);
        }
    }
}

/// Narrow the candidates sharing a natural key to the ones an import row may
/// bind to (see [`pool_spec`]).  `seen` holds the UUIDs already bound during
/// the current import.
pub fn candidate_pool(cands: &[NonNilUuid], seen: &HashSet<u128>, allow_reuse: bool) -> (r: Vec<
    NonNilUuid,
>)
    ensures
        r@ == pool_spec(cands@, seen@, allow_reuse),
{
    if allow_reuse {
        if cands.len() <= 1 {
            return vstd::slice::slice_to_vec(cands);
        }
        let seen_candidates = filter_seen(cands, seen, true);
        if seen_candidates.len() == 0 {
            vstd::slice::slice_to_vec(cands)
        } else {
            seen_candidates
        }
    } else {
        filter_seen(cands, seen, false)
    }
}

/// `i` is the first position holding the smallest distance of `ds`.
pub open spec fn first_minimum(ds: Seq<nat>, i: int) -> bool {
    &&& 0 <= i < ds.len()
    &&& forall|j: int| 0 <= j < ds.len() ==> ds[i] <= #[trigger] ds[j]
    &&& forall|j: int| 0 <= j < i ==> ds[i] < #[trigger] ds[j]
}

/// The distance of each fingerprint to the incoming fingerprint.
pub open spec fn distances(fps: Seq<Seq<char>>, incoming: Seq<char>) -> Seq<nat> {
    fps.map_values(|f: Seq<char>| levenshtein(f, incoming))
}

/// Pick the pool entry to bind to: the only one when there is at most one,
/// otherwise the first entry whose stored fingerprint is closest (by edit
/// distance) to the incoming fingerprint.  `fingerprints[i]` belongs to
/// `pool[i]`.
pub fn closest_candidate(pool: &[NonNilUuid], fingerprints: &[String], incoming: &str) -> (r:
    Option<NonNilUuid>)
    requires
        fingerprints@.len() == pool@.len(),
    ensures
        pool@.len() == 0 ==> r is None,
        pool@.len() == 1 ==> r == Some(pool@[0]),
        pool@.len() > 1 ==> exists|i: int|
            first_minimum(distances(fingerprints@.map_values(|s: String| s@), incoming@), i)
                && r == Some(pool@[i]),
{
    let n = pool.len();
    if n == 0 {
        return None;
    }
    if n == 1 {
        return Some(pool[0]);
    }
    let ghost ds = distances(fingerprints@.map_values(|s: String| s@), incoming@);
    let mut best: usize = 0;
    let mut best_d = edit_distance(fingerprints[0].as_str(), incoming);
    assert(ds[0] == best_d);
    let mut i: usize = 1;
    while i < n
        invariant
            n == pool@.len(),
            n == fingerprints@.len(),
            ds == distances(fingerprints@.map_values(|s: String| s@), incoming@),
            1 <= i <= n,
            best < i,
            best_d == ds[best as int],
            forall|j: int| 0 <= j < i ==> ds[best as int] <= #[trigger] ds[j],
            forall|j: int| 0 <= j < best ==> ds[best as int] < #[trigger] ds[j],
        decreases n - i,
    {
        let d = edit_distance(fingerprints[i].as_str(), incoming);
        assert(ds[i as int] == d);
        if d < best_d {
            best = i;
            best_d = d;
        }
        i = i + 1;
    }
    assert(first_minimum(ds, best as int));
    Some(pool[best])
}

/// `i` is the first position of `u` in `cands`.
pub open spec fn first_at(cands: Seq<NonNilUuid>, u: NonNilUuid, i: int) -> bool {
    &&& 0 <= i < cands.len()
    &&& cands[i] == u
    &&& forall|j: int| 0 <= j < i ==> cands[j] != u
}

/// The fingerprint given for candidate `u`: the one at its first position,
/// empty when it is not a candidate.
pub open spec fn fp_of(cands: Seq<NonNilUuid>, fps: Seq<Seq<char>>, u: NonNilUuid) -> Seq<char> {
    if exists|i: int| first_at(cands, u, i) {
        fps[choose|i: int| first_at(cands, u, i)]
    } else {
        Seq::empty()
    }
}

/// The fingerprints of the pool entries.
pub open spec fn pool_fps(pool: Seq<NonNilUuid>, cands: Seq<NonNilUuid>, fps: Seq<Seq<char>>) -> Seq<
    Seq<char>,
> {
    pool.map_values(|u: NonNilUuid| fp_of(cands, fps, u))
}

/// The entry a row binds to: none for an empty pool, the only one, or the
/// first whose fingerprint is closest to the incoming one.
pub open spec fn chosen(pool: Seq<NonNilUuid>, fps: Seq<Seq<char>>, incoming: Seq<char>) -> Option<
    NonNilUuid,
> {
    if pool.len() == 0 {
        None
    } else if pool.len() == 1 {
        Some(pool[0])
    } else {
        Some(pool[choose|i: int| first_minimum(distances(fps, incoming), i)])
    }
}

/// The first minimum is unique.
pub proof fn lemma_first_minimum_unique(ds: Seq<nat>, i: int, k: int)
    requires
        first_minimum(ds, i),
        first_minimum(ds, k),
    ensures
        i == k,
{
    if i < k {
        assert(ds[k] < ds[i]);
        assert(ds[k] <= ds[i]);
        assert(ds[i] <= ds[k]);
    } else if k < i {
        assert(ds[i] < ds[k]);
        assert(ds[k] <= ds[i]);
    }
}

/// Writing the field values `ups` to `entity` in order, stopping at the
/// first that fails.
pub open spec fn write_all(s: StateView, entity: RuntimeEntityId, ups: Seq<(&'static str, FieldValueView)>) -> (
    StateView,
    Result<(), EditError>,
)
    decreases ups.len(),
{
    if ups.len() == 0 {
        (s, Ok(()))
    } else {
        let r = step(
            s,
            CommandView::UpdateField {
                entity,
                field: ups[0].0,
                old_value: FieldValueView::Empty,
                new_value: ups[0].1,
            },
        );
        match r.1 {
            Err(e) => (r.0, Err(e)),
            Ok(_) => write_all(r.0, entity, ups.drop_first()),
        }
    }
}

/// Writing field values never adds or removes an entity.
pub proof fn lemma_write_all_keeps_entities(
    s: StateView,
    entity: RuntimeEntityId,
    ups: Seq<(&'static str, FieldValueView)>,
)
    ensures
        write_all(s, entity, ups).0.entities.dom() == s.entities.dom(),
    decreases ups.len(),
{
    if ups.len() > 0 {
        let r = step(
            s,
            CommandView::UpdateField {
                entity,
                field: ups[0].0,
                old_value: FieldValueView::Empty,
                new_value: ups[0].1,
            },
        );
        assert(r.0.entities.dom() =~= s.entities.dom());
        if r.1 is Ok {
            lemma_write_all_keeps_entities(r.0, entity, ups.drop_first());
        }
    }
}

/// Building an entity that succeeds adds exactly that one entity to a
/// finite store.
pub proof fn lemma_add_entity_count(
    s: StateView,
    entity: RuntimeEntityId,
    fields: Seq<(&'static str, FieldValueView)>,
)
    requires
        s.entities.dom().finite(),
    ensures
        ({
            let b = step(s, CommandView::AddEntity { entity, fields });
            b.1 is Ok ==> {
                &&& !s.entities.contains_key(entity.spec_uuid()@)
                &&& b.0.entities.dom() == s.entities.dom().insert(entity.spec_uuid()@)
                &&& b.0.entities.len() == s.entities.len() + 1
            }
        }),
{
    let b = step(s, CommandView::AddEntity { entity, fields });
    if b.1 is Ok {
        assert(b.0.entities.dom() =~= s.entities.dom().insert(entity.spec_uuid()@));
    }
}

/// The UUID a newly built entity gets: the name-based UUID of its key in
/// its type's namespace, or `fallback` when that one is taken.
pub open spec fn new_uuid(s: StateView, entity_type: &'static str, key: &str, fallback: NonNilUuid) -> u128 {
    let v = name_v5(name_v5(oid_namespace_value(), entity_type.spec_bytes()), key.spec_bytes());
    if s.entities.contains_key(v) {
        fallback@
    } else {
        v
    }
}

/// The id of a newly built entity.
pub open spec fn new_id(s: StateView, entity_type: &'static str, key: &str, fallback: NonNilUuid) -> RuntimeEntityId {
    id_with(new_uuid(s, entity_type, key, fallback), entity_type)
}

fn index_of(cands: &[NonNilUuid], u: NonNilUuid) -> (r: Option<usize>)
    ensures
        match r {
            Some(k) => k < cands@.len() && cands@[k as int] == u && forall|j: int| 0 <= j < k ==> cands@[j] != u,
            None => forall|j: int| 0 <= j < cands@.len() ==> cands@[j] != u,
        },
{
    let mut j: usize = 0;
    while j < cands.len()
        invariant
            j <= cands@.len(),
            forall|k: int| 0 <= k < j ==> cands@[k] != u,
        decreases cands@.len() - j,
    {
        if cands[j].same_as(&u) {
            return Some(j);
        }
        j = j + 1;
    }
    None
}

fn fingerprints_for(pool: &Vec<NonNilUuid>, cands: &[NonNilUuid], fps: &[String]) -> (r: Vec<String>)
    requires
        fps@.len() == cands@.len(),
    ensures
        r@.len() == pool@.len(),
        r@.map_values(|s: String| s@) == pool_fps(pool@, cands@, fps@.map_values(|s: String| s@)),
{
    let ghost fv = fps@.map_values(|s: String| s@);
    let mut r: Vec<String> = Vec::new();
    let mut i: usize = 0;
    while i < pool.len()
        invariant
            i <= pool@.len(),
            fps@.len() == cands@.len(),
            fv == fps@.map_values(|s: String| s@),
            r@.len() == i,
            r@.map_values(|s: String| s@) == pool_fps(pool@.take(i as int), cands@, fv),
        decreases pool@.len() - i,
    {
        let u = pool[i];
        let found = index_of(cands, u);
        let ghost r0 = r@.map_values(|s: String| s@);
        let f = match found {
            Some(k) => {
                proof {
                    assert(first_at(cands@, u, k as int));
                    let c = choose|c: int| first_at(cands@, u, c);
                    assert(first_at(cands@, u, c));
                    if c < k {
                        assert(cands@[c] != u);
                    } else if c > k {
                        assert(cands@[k as int] != u);
                    }
                }
                fps[k].clone()
            },
            None => {
                proof {
                    assert forall|c: int| !first_at(cands@, u, c) by {
                        if 0 <= c < cands@.len() {
                            assert(cands@[c] != u);
                        }
                    }
                }
                String::new()
            },
        };
        r.push(f);
        proof {
            assert(f@ == fp_of(cands@, fv, u));
            assert(r@.map_values(|s: String| s@) =~= r0.push(f@));
            assert(pool@.take(i as int + 1) =~= pool@.take(i as int).push(u));
            assert(pool_fps(pool@.take(i as int + 1), cands@, fv) =~= pool_fps(pool@.take(i as int), cands@, fv).push(fp_of(cands@, fv, u)));
        }
        i = i + 1;
    }
    proof {
        assert(pool@.take(pool@.len() as int) =~= pool@);
    }
    r
}

/// Find or create an entity by its natural key.
///
/// `candidates` are the entities of type `entity_type` that share the key,
/// with `fingerprints[i]` the stored-field fingerprint of `candidates[i]`
/// and `incoming` the fingerprint of the updates.  The pool of candidates
/// the row may bind to follows `seen` and `allow_reuse` (see
/// [`pool_spec`]).  With one entry in the pool that entity is used; with
/// more, the first closest by edit distance.  The chosen entity gets the
/// updates written in order, stopping at the first that fails.  With an
/// empty pool a new entity is built from the updates, under the name-based
/// UUID of the key in its type's namespace, or under `fallback` when that
/// one is taken.
#[verifier::loop_isolation(false)]
pub fn find_or_create_entity(
    state: &mut EntityState,
    entity_type: &'static str,
    key: &str,
    candidates: &[NonNilUuid],
    fingerprints: &[String],
    seen: &HashSet<u128>,
    allow_reuse: bool,
    incoming: &str,
    fallback: NonNilUuid,
    updates: Vec<(&'static str, FieldValue)>,
) -> (r: Result<RuntimeEntityId, BuildError>)
    requires
        old(state).wf(),
        fingerprints@.len() == candidates@.len(),
    ensures
        final(state).wf(),
        ({
            let pool = pool_spec(candidates@, seen@, allow_reuse);
            let fps = pool_fps(pool, candidates@, fingerprints@.map_values(|s: String| s@));
            match chosen(pool, fps, incoming@) {
                Some(c) => {
                    let id = RuntimeEntityId::spec_new(c, entity_type);
                    let w = write_all(old(state)@, id, fields_view(updates@));
                    &&& final(state)@ == w.0
                    &&& final(state)@.entities.dom() == old(state)@.entities.dom()
                    &&& (r is Ok <==> w.1 is Ok)
                    &&& (r matches Ok(x) ==> x == id)
                    &&& (w.1 matches Err(e) ==> r matches Err(BuildError::Store(e2)) && e2 == e)
                },
                None => {
                    let id = new_id(old(state)@, entity_type, key, fallback);
                    let b = step(
                        old(state)@,
                        CommandView::AddEntity { entity: id, fields: fields_view(updates@) },
                    );
                    &&& final(state)@ == b.0
                    &&& (r is Ok ==> final(state)@.entities.len() == old(state)@.entities.len() + 1)
                    &&& (r is Ok <==> b.1 is Ok)
                    &&& (r matches Ok(x) ==> x == id)
                    &&& (b.1 matches Err(e) ==> r matches Err(BuildError::Store(e2)) && e2 == e)
                },
            }
        }),
{
    proof {
        state.lemma_entities_finite();
    }
    let pool = candidate_pool(candidates, seen, allow_reuse);
    let pfps = fingerprints_for(&pool, candidates, fingerprints);
    let ghost fv = pool_fps(pool@, candidates@, fingerprints@.map_values(|s: String| s@));
    let pick = closest_candidate(pool.as_slice(), pfps.as_slice(), incoming);
    proof {
        if pool@.len() > 1 {
            let i = choose|i: int|
                first_minimum(distances(pfps@.map_values(|s: String| s@), incoming@), i)
                    && pick == Some(pool@[i]);
            let k = choose|k: int| first_minimum(distances(fv, incoming@), k);
            assert(pfps@.map_values(|s: String| s@) == fv);
            lemma_first_minimum_unique(distances(fv, incoming@), i, k);
        }
    }
    match pick {
        Some(c) => {
            let id = RuntimeEntityId::new_unchecked(c, entity_type);
            let ghost ups = fields_view(updates@);
            let ghost target = write_all(state@, id, ups);
            let ghost orig = updates@;
            let mut rest = updates;
            let ghost mut k: int = 0;
            proof {
                assert(orig.subrange(0, orig.len() as int) =~= orig);
                lemma_write_all_keeps_entities(state@, id, ups);
            }
            while rest.len() > 0
                invariant
                    state.wf(),
                    0 <= k <= orig.len(),
                    rest@ == orig.subrange(k, orig.len() as int),
                    write_all(state@, id, fields_view(rest@)) == target,
                decreases rest.len(),
            {
                let ghost rv = fields_view(rest@);
                let (field, value) = rest.remove(0);
                proof {
                    assert(rv[0] == (field, value@));
                    assert(fields_view(rest@) =~= rv.drop_first());
                }
                let ghost st = state@;
                let ghost nv = value@;
                let cmd = EditCommand::UpdateField { entity: id, field, old_value: FieldValue::Empty, new_value: value };
                match cmd.execute(state) {
                    Err(e) => {
                        proof {
                            assert(cmd@ == CommandView::UpdateField { entity: id, field, old_value: FieldValueView::Empty, new_value: nv });
                            assert(write_all(st, id, rv) == (state@, Err::<(), EditError>(e)));
                        }
                        return Err(BuildError::Store(e));
                    },
                    Ok(_) => {},
                }
                proof {
                    k = k + 1;
                    assert(orig.subrange(k, orig.len() as int) =~= rest@);
                }
            }
            proof {
                assert(fields_view(rest@) =~= Seq::<(&'static str, FieldValueView)>::empty());
            }
            Ok(id)
        },
        None => {
            let pref = UuidPreference::PreferFromV5 { name: key.to_string() };
            proof {
                assert(pref->PreferFromV5_name@ == key@);
                assert(pick_uuid(state@, entity_type, pref, fallback) == Ok::<u128, u128>(
                    new_uuid(state@, entity_type, key, fallback),
                ));
            }
            build_entity_with(state, entity_type, &pref, fallback, updates)
        },
    }
}

/// How a newly built entity gets its UUID.
#[derive(Debug)]
pub enum UuidPreference {
    /// A fresh time-ordered UUID.
    GenerateNew,
    /// The name-based UUID of `name` in the entity type's namespace; an
    /// error when it is taken.
    ExactFromV5 { name: String },
    /// The name-based UUID of `name` in the entity type's namespace, or a
    /// fresh one when it is taken.
    PreferFromV5 { name: String },
    /// Exactly this UUID; an error when it is taken.
    Exact(NonNilUuid),
    /// This UUID, or a fresh one when it is taken.
    Prefer(NonNilUuid),
}

/// Why an entity could not be built.
#[derive(Debug)]
pub enum BuildError {
    /// The store refused the new entity (its type is not registered, or the
    /// UUID it ended up with is taken).
    Store(EditError),
    /// The exact UUID asked for is already in use.
    UuidConflict(NonNilUuid, &'static str),
}

/// The name-based UUID of `name` in the namespace of `entity_type`.
pub open spec fn v5_uuid(entity_type: &'static str, name: Seq<char>) -> u128 {
    name_v5(name_v5(oid_namespace_value(), entity_type.spec_bytes()), encode_utf8(name))
}

/// The UUID a build asks for, with `fresh` as the freshly drawn one: `Ok`
/// with the UUID to use, or `Err` with the taken UUID that an exact
/// preference asked for.
pub open spec fn pick_uuid(s: StateView, entity_type: &'static str, pref: UuidPreference, fresh: NonNilUuid) -> Result<
    u128,
    u128,
> {
    match pref {
        UuidPreference::GenerateNew => Ok(fresh@),
        UuidPreference::Exact(u) => if s.entities.contains_key(u@) {
            Err(u@)
        } else {
            Ok(u@)
        },
        UuidPreference::Prefer(u) => if s.entities.contains_key(u@) {
            Ok(fresh@)
        } else {
            Ok(u@)
        },
        UuidPreference::ExactFromV5 { name } => {
            let v = v5_uuid(entity_type, name@);
            if s.entities.contains_key(v) {
                Err(v)
            } else {
                Ok(v)
            }
        },
        UuidPreference::PreferFromV5 { name } => {
            let v = v5_uuid(entity_type, name@);
            if s.entities.contains_key(v) {
                Ok(fresh@)
            } else {
                Ok(v)
            }
        },
    }
}

/// The id of an entity of type `entity_type` with UUID value `v`.
pub open spec fn id_with(v: u128, entity_type: &'static str) -> RuntimeEntityId {
    RuntimeEntityId::spec_new(choose|n: NonNilUuid| #[trigger] n@ == v, entity_type)
}

/// Building an entity of type `entity_type` from `fields` in store `s`,
/// with `fresh` as the freshly drawn UUID, leaves store `t` and result `r`:
/// a conflict on an exact UUID changes nothing; otherwise the entity is
/// created under the picked UUID, or the store's error is returned.
pub open spec fn built(
    s: StateView,
    entity_type: &'static str,
    pref: UuidPreference,
    fresh: NonNilUuid,
    fields: Seq<(&'static str, FieldValueView)>,
    t: StateView,
    r: Result<RuntimeEntityId, BuildError>,
) -> bool {
    match pick_uuid(s, entity_type, pref, fresh) {
        Err(c) => {
            &&& t == s
            &&& r matches Err(BuildError::UuidConflict(u, tt)) && u@ == c && tt == entity_type
        },
        Ok(v) => {
            let id = id_with(v, entity_type);
            let b = step(s, CommandView::AddEntity { entity: id, fields });
            &&& t == b.0
            &&& (r is Ok <==> b.1 is Ok)
            &&& (r matches Ok(x) ==> x == id)
            &&& (b.1 matches Err(e) ==> r matches Err(BuildError::Store(e2)) && e2 == e)
        },
    }
}

/// Build an entity of type `entity_type` from `updates`, with `fresh` as
/// the UUID to use where the preference asks for a fresh one (see
/// [`built`]).  On any failure the store keeps no part of the entity.
pub fn build_entity_with(
    state: &mut EntityState,
    entity_type: &'static str,
    uuid_pref: &UuidPreference,
    fresh: NonNilUuid,
    updates: Vec<(&'static str, FieldValue)>,
) -> (r: Result<RuntimeEntityId, BuildError>)
    requires
        old(state).wf(),
    ensures
        final(state).wf(),
        built(old(state)@, entity_type, *uuid_pref, fresh, fields_view(updates@), final(state)@, r),
        r is Err ==> final(state)@ == old(state)@,
        r is Ok ==> final(state)@.entities.len() == old(state)@.entities.len() + 1,
{
    proof {
        state.lemma_entities_finite();
    }
    let u: NonNilUuid = match uuid_pref {
        UuidPreference::GenerateNew => fresh,
        UuidPreference::Exact(u) => {
            if state.holds_uuid(*u) {
                return Err(BuildError::UuidConflict(*u, entity_type));
            }
            *u
        },
        UuidPreference::Prefer(u) => {
            if state.holds_uuid(*u) {
                fresh
            } else {
                *u
            }
        },
        UuidPreference::ExactFromV5 { name } => {
            let v = name_based_uuid(type_namespace(entity_type), name.as_str());
            if state.holds_uuid(v) {
                return Err(BuildError::UuidConflict(v, entity_type));
            }
            v
        },
        UuidPreference::PreferFromV5 { name } => {
            let v = name_based_uuid(type_namespace(entity_type), name.as_str());
            if state.holds_uuid(v) {
                fresh
            } else {
                v
            }
        },
    };
    let id = RuntimeEntityId::new_unchecked(u, entity_type);
    proof {
        let v = pick_uuid(state@, entity_type, *uuid_pref, fresh)->Ok_0;
        assert(u@ == v);
        let n = choose|n: NonNilUuid| #[trigger] n@ == v;
        assert(n == u);
        lemma_add_entity_count(state@, id, fields_view(updates@));
    }
    let cmd = EditCommand::AddEntity { entity: id, fields: updates };
    match cmd.execute(state) {
        Ok(_) => Ok(id),
        Err(e) => Err(BuildError::Store(e)),
    }
}

/// Build an entity of type `entity_type` from `updates`, drawing a fresh
/// time-ordered UUID for the preferences that may need one: the outcome is
/// that of [`build_entity_with`] for the UUID drawn.
pub fn build_entity(
    state: &mut EntityState,
    entity_type: &'static str,
    uuid_pref: &UuidPreference,
    updates: Vec<(&'static str, FieldValue)>,
) -> (r: Result<RuntimeEntityId, BuildError>)
    requires
        old(state).wf(),
    ensures
        final(state).wf(),
        exists|fresh: NonNilUuid|
            built(old(state)@, entity_type, *uuid_pref, fresh, fields_view(updates@), final(state)@, r),
        r is Err ==> final(state)@ == old(state)@,
        r is Ok ==> final(state)@.entities.len() == old(state)@.entities.len() + 1,
{
    let fresh = generate_uuid();
    build_entity_with(state, entity_type, uuid_pref, fresh, updates)
}

/// The name-based preferences are deterministic: the same type and name
/// give the same UUID in any two stores where it is free, whatever UUID
/// was drawn.
pub proof fn lemma_v5_pick_deterministic(
    s1: StateView,
    s2: StateView,
    entity_type: &'static str,
    name: String,
    f1: NonNilUuid,
    f2: NonNilUuid,
)
    requires
        !s1.entities.contains_key(v5_uuid(entity_type, name@)),
        !s2.entities.contains_key(v5_uuid(entity_type, name@)),
    ensures
        pick_uuid(s1, entity_type, UuidPreference::ExactFromV5 { name }, f1) == pick_uuid(
            s2,
            entity_type,
            UuidPreference::ExactFromV5 { name },
            f2,
        ),
        pick_uuid(s1, entity_type, UuidPreference::PreferFromV5 { name }, f1) == pick_uuid(
            s2,
            entity_type,
            UuidPreference::PreferFromV5 { name },
            f2,
        ),
{
}

} // verus!
