//! Laws of the edit commands: running the inverse that a command returns
//! restores the store it ran on.

use vstd::prelude::*;
use crate::edge::id::{EdgeView, flip_view};
use crate::edge::map::{
    fresh_targets, ids_of, is_in, lemma_concat_contains, lemma_drop_absent, lemma_filter_all_false,
    lemma_filter_all_true, lemma_filter_mem, lemma_fresh_targets, lemma_push_contains,
    lemma_push_then_drop, not_eq, not_in, types_match,
};
use crate::edit::command::{
    CommandView, EdgeLists, EntityView, StateView, batch, cleared, edges_both_ways, exclusive_view,
    field_pos, has_field, holds, key_of, lemma_field_pos, linked, prefix_ok, registered,
    runtime_ids, step, unlinked, update_field_view, FieldValueView,
};
use crate::ids::{EntityTyped, EntityUuid, NonNilUuid, RuntimeEntityId};

verus! {

broadcast use crate::ids::lemma_uuid_view_injective, RuntimeEntityId::lemma_spec_new;

/// `w` has no edge lists of its own and is listed on no edge list.
pub open spec fn isolated(g: EdgeLists, w: NonNilUuid) -> bool {
    &&& forall|f: EdgeView| #[trigger] g(w, f) == Seq::<NonNilUuid>::empty()
    &&& forall|x: NonNilUuid, f: EdgeView| !(#[trigger] g(x, f)).contains(w)
}

/// The conditions under which the inverse of `c` restores `s`:
/// a field update must record the value the field holds; a created entity
/// must have no edges yet; a removed entity must match its snapshot and
/// have no edges (removal drops edges that re-creation does not bring
/// back); an edge addition must be on a field without an exclusive sibling,
/// on edge lists linked both ways.  Undoing an edge removal appends the
/// links again at the end of the lists, so it restores membership but not
/// the order; [`lemma_remove_from_field_undone`] states that case.
pub open spec fn undoable(s: StateView, c: CommandView) -> bool
    decreases c,
{
    match c {
        CommandView::UpdateField { entity, field, old_value, .. } => {
            let fields = s.entities[key_of(entity)].fields;
            holds(s, entity) && has_field(fields, field@) && fields[field_pos(fields, field@)].1
                == old_value
        },
        CommandView::AddEntity { entity, .. } => isolated(s.edges, entity.spec_uuid()),
        CommandView::RemoveEntity { entity, fields } => {
            &&& s.entities.contains_key(key_of(entity))
            &&& s.entities[key_of(entity)] == (EntityView {
                entity_type: entity.spec_type_name(),
                fields,
            })
            &&& isolated(s.edges, entity.spec_uuid())
        },
        CommandView::MovePanel(inner) => undoable(s, *inner),
        CommandView::BatchEdit(cs) => undoable_all(s, cs),
        CommandView::AddToField { edge, .. } => edges_both_ways(s.edges) && exclusive_view(edge) is None,
        CommandView::RemoveFromField { .. } => false,
    }
}

/// Each command of `cs` is undoable in the store the commands before it
/// leave.
pub open spec fn undoable_all(s: StateView, cs: Seq<CommandView>) -> bool
    decreases cs,
{
    cs.len() == 0 || (undoable(s, cs[0]) && (step(s, cs[0]).1 is Ok ==> undoable_all(
        step(s, cs[0]).0,
        cs.drop_first(),
    )))
}

/// Dropping the edges of an isolated entity changes nothing.
proof fn lemma_clear_isolated(g: EdgeLists, w: NonNilUuid)
    requires
        isolated(g, w),
    ensures
        cleared(g, w) =~= g,
{
    assert forall|x: NonNilUuid, f: EdgeView| #[trigger] cleared(g, w)(x, f) == g(x, f) by {
        if x != w {
            assert(!g(x, f).contains(w));
            lemma_drop_absent(g(x, f), w);
        }
    }
}

/// Unlinking exactly what linking added restores every list.
proof fn lemma_unlink_undoes_link(g: EdgeLists, u: NonNilUuid, e: EdgeView, inputs: Seq<NonNilUuid>)
    requires
        edges_both_ways(g),
    ensures
        ({
            let added = fresh_targets(g(u, e), inputs);
            let g1 = linked(g, u, e, added);
            &&& added.filter(is_in(g1(u, e))) == added
            &&& unlinked(g1, u, e, added) =~= g
        }),
{
    let base = g(u, e);
    let added = fresh_targets(base, inputs);
    let g1 = linked(g, u, e, added);
    let fe = flip_view(e);
    lemma_fresh_targets(base, inputs);
    assert(flip_view(fe) == e);
    let mid_u = base + added;
    if fe == e && added.contains(u) {
        lemma_concat_contains(base, added, u);
    }
    assert(g1(u, e) == mid_u);
    assert forall|i: int| 0 <= i < added.len() implies #[trigger] is_in(g1(u, e))(added[i]) by {
        assert(added.contains(added[i]));
        lemma_concat_contains(base, added, added[i]);
    }
    lemma_filter_all_true(added, is_in(g1(u, e)));
    assert forall|i: int| 0 <= i < base.len() implies #[trigger] not_in(added)(base[i]) by {
        assert(base.contains(base[i]));
    }
    lemma_filter_all_true(base, not_in(added));
    assert forall|i: int| 0 <= i < added.len() implies !#[trigger] not_in(added)(added[i]) by {
        assert(added.contains(added[i]));
    }
    lemma_filter_all_false(added, not_in(added));
    Seq::filter_distributes_over_add(base, added, not_in(added));
    assert(mid_u.filter(not_in(added)) =~= base);
    assert forall|x: NonNilUuid, f: EdgeView| #[trigger] unlinked(g1, u, e, added)(x, f) == g(x, f) by {
        if x == u && f == e {
            if fe == e && added.contains(u) {
                lemma_drop_absent(base, u);
            }
        } else if f == fe && added.contains(x) {
            if g(x, f).contains(u) {
                assert(g(u, flip_view(f)).contains(x));
            }
            lemma_push_then_drop(g(x, f), u);
        }
    }
}

/// Running `a + b` is running `a` and then, if it succeeded, `b`.
pub proof fn lemma_batch_append(s: StateView, a: Seq<CommandView>, b: Seq<CommandView>)
    ensures
        batch(s, a + b) == (match batch(s, a).1 {
            Ok(x) => prefix_ok(x, batch(batch(s, a).0, b)),
            Err(e) => (batch(s, a).0, Err(e)),
        }),
    decreases a.len(),
{
    if a.len() == 0 {
        assert(a + b =~= b);
        match batch(s, b).1 {
            Ok(v) => {
                assert(Seq::<CommandView>::empty() + v =~= v);
            },
            Err(_) => {},
        }
    } else {
        assert((a + b)[0] == a[0]);
        assert((a + b).drop_first() =~= a.drop_first() + b);
        let r = step(s, a[0]);
        if let Ok(inv) = r.1 {
            lemma_batch_append(r.0, a.drop_first(), b);
            match batch(r.0, a.drop_first()).1 {
                Ok(x) => {
                    match batch(batch(r.0, a.drop_first()).0, b).1 {
                        Ok(v) => {
                            assert(seq![inv] + (x + v) =~= (seq![inv] + x) + v);
                        },
                        Err(_) => {},
                    }
                },
                Err(_) => {},
            }
        }
    }
}

proof fn lemma_update_restores(s: StateView, c: CommandView)
    requires
        c is UpdateField,
        undoable(s, c),
        step(s, c).1 is Ok,
    ensures
        step(step(s, c).0, step(s, c).1->Ok_0).1 is Ok,
        step(step(s, c).0, step(s, c).1->Ok_0).0 == s,
{
    let s1 = step(s, c).0;
    let inv = step(s, c).1->Ok_0;
    let entity = c->UpdateField_entity;
    let field = c->UpdateField_field;
    let old_value = c->UpdateField_old_value;
    let new_value = c->UpdateField_new_value;
    let k = key_of(entity);
    let rec = s.entities[k];
    let i = field_pos(rec.fields, field@);
    assert(first_field_at(rec.fields, field@, i));
    let f1 = rec.fields.update(i, (rec.fields[i].0, new_value));
    lemma_field_pos(f1, field@, i);
    assert(f1.update(i, (f1[i].0, old_value)) =~= rec.fields);
    let rec3 = EntityView { entity_type: rec.entity_type, fields: f1.update(i, (f1[i].0, old_value)) };
    assert(rec3 =~= rec);
    assert(s1.entities.insert(k, rec3) =~= s.entities);
    assert(step(s1, inv).0 =~= s);
}

proof fn lemma_add_entity_restores(s: StateView, c: CommandView)
    requires
        c is AddEntity,
        undoable(s, c),
        step(s, c).1 is Ok,
    ensures
        step(step(s, c).0, step(s, c).1->Ok_0).1 is Ok,
        step(step(s, c).0, step(s, c).1->Ok_0).0 == s,
{
    let s1 = step(s, c).0;
    let inv = step(s, c).1->Ok_0;
    let entity = c->AddEntity_entity;
    let fields = c->AddEntity_fields;
    let k = key_of(entity);
    lemma_clear_isolated(s.edges, entity.spec_uuid());
    assert(s1.entities.remove(k) =~= s.entities);
    assert(step(s1, inv).0 =~= s);
}

proof fn lemma_remove_entity_restores(s: StateView, c: CommandView)
    requires
        c is RemoveEntity,
        undoable(s, c),
        step(s, c).1 is Ok,
    ensures
        step(step(s, c).0, step(s, c).1->Ok_0).1 is Ok,
        step(step(s, c).0, step(s, c).1->Ok_0).0 == s,
{
    let s1 = step(s, c).0;
    let inv = step(s, c).1->Ok_0;
    let entity = c->RemoveEntity_entity;
    let fields = c->RemoveEntity_fields;
    let k = key_of(entity);
    lemma_clear_isolated(s.edges, entity.spec_uuid());
    assert(holds(s, entity));
    assert(s1.entities == s.entities.remove(k));
    assert(s1.edges == cleared(s.edges, entity.spec_uuid()));
    assert(inv == CommandView::AddEntity { entity, fields });
    assert(registered(s, entity.spec_type_name()));
    assert(s1.types == s.types);
    assert(registered(s1, entity.spec_type_name()));
    assert(!s1.entities.contains_key(k));
    assert(s1.entities.insert(k, EntityView { entity_type: entity.spec_type_name(), fields })
        =~= s.entities);
    assert(step(s1, inv).0 =~= s);
}

proof fn lemma_add_to_field_restores(s: StateView, c: CommandView)
    requires
        c is AddToField,
        undoable(s, c),
        step(s, c).1 is Ok,
    ensures
        step(step(s, c).0, step(s, c).1->Ok_0).1 is Ok,
        step(step(s, c).0, step(s, c).1->Ok_0).0 == s,
{
    let s1 = step(s, c).0;
    let inv = step(s, c).1->Ok_0;
    let near = c->AddToField_near;
    let edge = c->AddToField_edge;
    let items = c->AddToField_items;
    let t = items->Entities_0;
    let u = near.spec_uuid();
    let added = fresh_targets((s.edges)(u, edge@), ids_of(t));
    lemma_unlink_undoes_link(s.edges, u, edge@, ids_of(t));
    assert(ids_of(runtime_ids(added, edge.far.entity_name)) =~= added);
    assert(step(s1, inv).0 =~= s);
}

/// Running the inverse that a command returns restores the store the
/// command ran on, and succeeds.
pub proof fn lemma_inverse_restores(s: StateView, c: CommandView)
    requires
        undoable(s, c),
        step(s, c).1 is Ok,
    ensures
        step(step(s, c).0, step(s, c).1->Ok_0).1 is Ok,
        step(step(s, c).0, step(s, c).1->Ok_0).0 == s,
    decreases c,
{
    match c {
        CommandView::UpdateField { .. } => lemma_update_restores(s, c),
        CommandView::AddEntity { .. } => lemma_add_entity_restores(s, c),
        CommandView::RemoveEntity { .. } => lemma_remove_entity_restores(s, c),
        CommandView::MovePanel(inner) => {
            lemma_inverse_restores(s, *inner);
        },
        CommandView::BatchEdit(cs) => {
            lemma_all_restore(s, cs);
        },
        CommandView::AddToField { .. } => lemma_add_to_field_restores(s, c),
        CommandView::RemoveFromField { .. } => {},
    }
}

/// Running the inverses of a batch in reverse order restores the store the
/// batch ran on.
pub proof fn lemma_all_restore(s: StateView, cs: Seq<CommandView>)
    requires
        undoable_all(s, cs),
        batch(s, cs).1 is Ok,
    ensures
        batch(batch(s, cs).0, (batch(s, cs).1->Ok_0).reverse()).1 is Ok,
        batch(batch(s, cs).0, (batch(s, cs).1->Ok_0).reverse()).0 == s,
    decreases cs,
{
    if cs.len() == 0 {
        assert(Seq::<CommandView>::empty().reverse() =~= Seq::<CommandView>::empty());
    } else {
        let r = step(s, cs[0]);
        let inv = r.1->Ok_0;
        let s1 = r.0;
        let rest = cs.drop_first();
        lemma_inverse_restores(s, cs[0]);
        lemma_all_restore(s1, rest);
        let invs_rest = batch(s1, rest).1->Ok_0;
        let sn = batch(s1, rest).0;
        assert(batch(s, cs).1->Ok_0 == seq![inv] + invs_rest);
        assert((seq![inv] + invs_rest).reverse() =~= invs_rest.reverse() + seq![inv]);
        lemma_batch_append(sn, invs_rest.reverse(), seq![inv]);
        let back = batch(sn, invs_rest.reverse());
        assert(back.0 == s1);
        let one = seq![inv];
        assert(one[0] == inv);
        assert(one.drop_first() =~= Seq::<CommandView>::empty());
        let r2 = step(s1, inv);
        assert(r2.0 == s);
        assert(batch(s1, one) == prefix_ok(seq![r2.1->Ok_0], batch(s, Seq::<CommandView>::empty())));
        assert(batch(s1, one).0 == s);
    }
}

/// A field update built from the store it runs on succeeds, and running
/// its inverse afterwards restores the store.
pub proof fn lemma_built_update_restores(
    s: StateView,
    entity: RuntimeEntityId,
    field: &'static str,
    new_value: FieldValueView,
)
    requires
        update_field_view(s, entity, field, new_value) is Ok,
    ensures
        ({
            let c = update_field_view(s, entity, field, new_value)->Ok_0;
            &&& undoable(s, c)
            &&& step(s, c).1 is Ok
            &&& step(step(s, c).0, step(s, c).1->Ok_0).0 == s
        }),
{
    let c = update_field_view(s, entity, field, new_value)->Ok_0;
    assert(undoable(s, c));
    lemma_inverse_restores(s, c);
}

/// Relinking what an unlink removed gives every list back its members
/// (the relinked entries go to the end of their lists).
proof fn lemma_link_undoes_unlink_members(
    g: EdgeLists,
    u: NonNilUuid,
    e: EdgeView,
    inputs: Seq<NonNilUuid>,
    x: NonNilUuid,
    f: EdgeView,
    v: NonNilUuid,
)
    requires
        edges_both_ways(g),
    ensures
        ({
            let removed = inputs.filter(is_in(g(u, e)));
            let g1 = unlinked(g, u, e, removed);
            let g2 = linked(g1, u, e, fresh_targets(g1(u, e), removed));
            g2(x, f).contains(v) <==> g(x, f).contains(v)
        }),
{
    let fe = flip_view(e);
    let removed = inputs.filter(is_in(g(u, e)));
    let g1 = unlinked(g, u, e, removed);
    let a = fresh_targets(g1(u, e), removed);
    let g2 = linked(g1, u, e, a);
    assert(flip_view(fe) == e);
    lemma_fresh_targets(g1(u, e), removed);
    let mid = g(u, e).filter(not_in(removed));
    assert forall|w: NonNilUuid| #[trigger] g1(u, e).contains(w) <==> (g(u, e).contains(w)
        && !removed.contains(w)) by {
        lemma_filter_mem(g(u, e), not_in(removed), w);
        if fe == e && removed.contains(u) {
            lemma_filter_mem(mid, not_eq(u), w);
        }
    }
    assert forall|w: NonNilUuid| #[trigger] removed.contains(w) ==> g(u, e).contains(w) by {
        lemma_filter_mem(inputs, is_in(g(u, e)), w);
    }
    assert forall|w: NonNilUuid| #[trigger] a.contains(w) <==> removed.contains(w) by {}
    if x == u && f == e {
        lemma_concat_contains(g1(u, e), a, v);
        if fe == e && a.contains(u) {
            lemma_concat_contains(g1(u, e), a, u);
        }
    } else if f == fe && removed.contains(x) {
        assert(g(u, e).contains(x));
        assert(g(x, f).contains(u));
        lemma_filter_mem(g(x, f), not_eq(u), v);
        lemma_filter_mem(g(x, f), not_eq(u), u);
        lemma_push_contains(g1(x, f), u, v);
    } else if f == fe {
        assert(!a.contains(x));
    }
}

/// Undoing an edge removal gives every edge list back its members: the
/// re-added links go to the end of their lists, so the order can differ.
/// The near entity must have the edge's near type, or the re-add fails.
pub proof fn lemma_remove_from_field_undone(s: StateView, c: CommandView)
    requires
        c is RemoveFromField,
        c->RemoveFromField_items is Entities,
        c->RemoveFromField_near.spec_type_name()@ == c->RemoveFromField_edge.near.entity_name@,
        exclusive_view(c->RemoveFromField_edge) is None,
        edges_both_ways(s.edges),
    ensures
        step(s, c).1 is Ok,
        step(step(s, c).0, step(s, c).1->Ok_0).1 is Ok,
        step(step(s, c).0, step(s, c).1->Ok_0).0.types == s.types,
        step(step(s, c).0, step(s, c).1->Ok_0).0.entities == s.entities,
        forall|x: NonNilUuid, f: EdgeView, v: NonNilUuid| #[trigger]
            (step(step(s, c).0, step(s, c).1->Ok_0).0.edges)(x, f).contains(v) <==> (s.edges)(
                x,
                f,
            ).contains(v),
{
    let near = c->RemoveFromField_near;
    let edge = c->RemoveFromField_edge;
    let t = c->RemoveFromField_items->Entities_0;
    let u = near.spec_uuid();
    let removed = ids_of(t).filter(is_in((s.edges)(u, edge@)));
    let back = runtime_ids(removed, edge.far.entity_name);
    assert(ids_of(back) =~= removed);
    assert(types_match(near, edge, back));
    let s1 = step(s, c).0;
    let s2 = step(s1, step(s, c).1->Ok_0).0;
    assert forall|x: NonNilUuid, f: EdgeView, v: NonNilUuid| #[trigger] (s2.edges)(x, f).contains(v)
        <==> (s.edges)(x, f).contains(v) by {
        lemma_link_undoes_unlink_members(s.edges, u, edge@, ids_of(t), x, f, v);
    }
}

/// `i` is the first position of a field named `name`.
spec fn first_field_at(fields: Seq<(&'static str, crate::edit::command::FieldValueView)>, name: Seq<char>, i: int) -> bool {
    crate::edit::command::first_field(fields, name, i)
}

} // verus!
