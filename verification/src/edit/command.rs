//! Reversible edit commands over the entity store.
//!
//! Every change to the store is an [`EditCommand`]; executing one returns the
//! command that reverses it, which is what undo and redo are built on.  The
//! meaning of a command is the spec function [`step`] over the abstract
//! store [`StateView`].

use vstd::prelude::*;
use std::collections::HashMap;
use crate::edge::descriptor::EdgeKind;
use crate::edge::id::{EdgeView, FullEdge, flip_view};
use crate::edge::map::{
    RawEdgeMap, add_edge_post, clear_all_post, fresh_targets, ids_of, is_in, not_eq, not_in,
    remove_edge_post, types_match,
};
use crate::ids::{EntityTyped, EntityUuid, NonNilUuid, RuntimeEntityId};
use crate::text::str_eq;
use crate::edit::context::EditContext;

verus! {

broadcast use vstd::std_specs::hash::group_hash_axioms, crate::ids::lemma_uuid_view_injective,
    RuntimeEntityId::lemma_spec_new;

/// A value stored in an entity field.
#[derive(Debug)]
pub enum FieldValue {
    /// No value.
    Empty,
    /// A flag.
    Boolean(bool),
    /// A signed integer.
    Integer(i64),
    /// A string.
    Text(String),
    /// A list of references to other entities.
    Entities(Vec<RuntimeEntityId>),
}

/// Abstract value of a [`FieldValue`].
pub enum FieldValueView {
    Empty,
    Boolean(bool),
    Integer(i64),
    Text(Seq<char>),
    Entities(Seq<RuntimeEntityId>),
}

impl View for FieldValue {
    type V = FieldValueView;

    open spec fn view(&self) -> FieldValueView {
        match self {
            FieldValue::Empty => FieldValueView::Empty,
            FieldValue::Boolean(b) => FieldValueView::Boolean(*b),
            FieldValue::Integer(i) => FieldValueView::Integer(*i),
            FieldValue::Text(s) => FieldValueView::Text(s@),
            FieldValue::Entities(v) => FieldValueView::Entities(v@),
        }
    }
}

fn copy_ids(v: &Vec<RuntimeEntityId>) -> (r: Vec<RuntimeEntityId>)
    ensures
        r@ == v@,
{
    let mut r: Vec<RuntimeEntityId> = Vec::new();
    let mut i: usize = 0;
    while i < v.len()
        invariant
            i <= v.len(),
            r@ == v@.take(i as int),
        decreases v.len() - i,
    {
        r.push(v[i]);
        i = i + 1;
        assert(r@ =~= v@.take(i as int));
    }
    assert(v@.take(v.len() as int) =~= v@);
    r
}

impl FieldValue {
    /// A value equal to this one.
    pub fn duplicate(&self) -> (r: FieldValue)
        ensures
            r@ == self@,
    {
        match self {
            FieldValue::Empty => FieldValue::Empty,
            FieldValue::Boolean(b) => FieldValue::Boolean(*b),
            FieldValue::Integer(i) => FieldValue::Integer(*i),
            FieldValue::Text(s) => FieldValue::Text(s.clone()),
            FieldValue::Entities(v) => FieldValue::Entities(copy_ids(v)),
        }
    }
}

/// The abstract form of a list of named field values.
pub open spec fn fields_view(v: Seq<(&'static str, FieldValue)>) -> Seq<(&'static str, FieldValueView)> {
    v.map_values(|p: (&'static str, FieldValue)| (p.0, p.1@))
}

/// A copy of a list of named field values.
pub fn copy_fields(v: &Vec<(&'static str, FieldValue)>) -> (r: Vec<(&'static str, FieldValue)>)
    ensures
        fields_view(r@) == fields_view(v@),
{
    let mut r: Vec<(&'static str, FieldValue)> = Vec::new();
    let mut i: usize = 0;
    while i < v.len()
        invariant
            i <= v.len(),
            fields_view(r@) == fields_view(v@).take(i as int),
        decreases v.len() - i,
    {
        let name = v[i].0;
        let value = v[i].1.duplicate();
        let ghost r0 = r@;
        r.push((name, value));
        assert(fields_view(v@)[i as int] == (v@[i as int].0, v@[i as int].1@));
        assert(fields_view(r@) =~= fields_view(r0).push((name, value@)));
        i = i + 1;
        assert(fields_view(r@) =~= fields_view(v@).take(i as int));
    }
    assert(fields_view(v@).take(v.len() as int) =~= fields_view(v@));
    r
}

/// `i` is the first position of a field named `name`.
pub open spec fn first_field(fields: Seq<(&'static str, FieldValueView)>, name: Seq<char>, i: int) -> bool {
    &&& 0 <= i < fields.len()
    &&& fields[i].0@ == name
    &&& forall|j: int| 0 <= j < i ==> (#[trigger] fields[j]).0@ != name
}

/// Some field is named `name`.
pub open spec fn has_field(fields: Seq<(&'static str, FieldValueView)>, name: Seq<char>) -> bool {
    exists|i: int| first_field(fields, name, i)
}

/// The first position of a field named `name`.
pub open spec fn field_pos(fields: Seq<(&'static str, FieldValueView)>, name: Seq<char>) -> int {
    choose|i: int| first_field(fields, name, i)
}

/// The first position of a field is unique.
pub proof fn lemma_field_pos(fields: Seq<(&'static str, FieldValueView)>, name: Seq<char>, i: int)
    requires
        first_field(fields, name, i),
    ensures
        has_field(fields, name),
        field_pos(fields, name) == i,
{
    let j = field_pos(fields, name);
    assert(first_field(fields, name, j));
    if j < i {
        assert(fields[j].0@ != name);
    } else if i < j {
        assert(fields[i].0@ != name);
    }
}

/// One stored entity: its type name and its field values.
#[derive(Debug)]
pub struct EntityRecord {
    pub entity_type: &'static str,
    pub fields: Vec<(&'static str, FieldValue)>,
}

/// Abstract value of an [`EntityRecord`].
#[verifier::ext_equal]
pub struct EntityView {
    pub entity_type: &'static str,
    pub fields: Seq<(&'static str, FieldValueView)>,
}

impl View for EntityRecord {
    type V = EntityView;

    open spec fn view(&self) -> EntityView {
        EntityView { entity_type: self.entity_type, fields: fields_view(self.fields@) }
    }
}

/// The far-side lists of every edge of every entity.
pub type EdgeLists = spec_fn(NonNilUuid, EdgeView) -> Seq<NonNilUuid>;

/// Abstract value of an [`EntityState`]: the registered entity type names,
/// the entities by UUID value, and the edge lists.
#[verifier::ext_equal]
pub struct StateView {
    pub types: Seq<&'static str>,
    pub entities: Map<u128, EntityView>,
    pub edges: EdgeLists,
}

/// The entity store that commands act on: the registered entity types, the
/// entities themselves, and the bidirectional edges between them.
#[derive(Debug)]
pub struct EntityState {
    types: Vec<&'static str>,
    entities: HashMap<u128, EntityRecord>,
    edges: RawEdgeMap,
}

/// The edge lists of an edge map.
pub open spec fn edge_lists(m: RawEdgeMap) -> EdgeLists {
    |x: NonNilUuid, f: EdgeView| m.nbrs(x, f)
}

impl View for EntityState {
    type V = StateView;

    closed spec fn view(&self) -> StateView {
        StateView {
            types: self.types@,
            entities: self.entities@.map_values(|r: EntityRecord| r@),
            edges: edge_lists(self.edges),
        }
    }
}

/// A reversible change to the entity store.
#[derive(Debug)]
pub enum EditCommand {
    /// Change a single field on an existing entity; `old_value` is the value
    /// it held before, used to reverse the change.
    UpdateField {
        entity: RuntimeEntityId,
        field: &'static str,
        old_value: FieldValue,
        new_value: FieldValue,
    },
    /// Create an entity with the given field values, under the exact UUID.
    AddEntity { entity: RuntimeEntityId, fields: Vec<(&'static str, FieldValue)> },
    /// Remove an entity; `fields` is its snapshot, used to restore it.
    RemoveEntity { entity: RuntimeEntityId, fields: Vec<(&'static str, FieldValue)> },
    /// Move a panel: the wrapped command makes the move.
    MovePanel(Box<EditCommand>),
    /// A sequence of commands run as one undo/redo unit.
    BatchEdit(Vec<EditCommand>),
    /// Link `near` to the entities in `items` along `edge`.
    AddToField { near: RuntimeEntityId, edge: FullEdge, items: FieldValue },
    /// Unlink `near` from the entities in `items` along `edge`.
    RemoveFromField { near: RuntimeEntityId, edge: FullEdge, items: FieldValue },
}

/// Abstract value of an [`EditCommand`].
pub enum CommandView {
    UpdateField {
        entity: RuntimeEntityId,
        field: &'static str,
        old_value: FieldValueView,
        new_value: FieldValueView,
    },
    AddEntity { entity: RuntimeEntityId, fields: Seq<(&'static str, FieldValueView)> },
    RemoveEntity { entity: RuntimeEntityId, fields: Seq<(&'static str, FieldValueView)> },
    MovePanel(Box<CommandView>),
    BatchEdit(Seq<CommandView>),
    AddToField { near: RuntimeEntityId, edge: FullEdge, items: FieldValueView },
    RemoveFromField { near: RuntimeEntityId, edge: FullEdge, items: FieldValueView },
}

/// The abstract value of a command.
pub open spec fn command_view(c: EditCommand) -> CommandView
    decreases c,
{
    match c {
        EditCommand::UpdateField { entity, field, old_value, new_value } => CommandView::UpdateField {
            entity,
            field,
            old_value: old_value@,
            new_value: new_value@,
        },
        EditCommand::AddEntity { entity, fields } => CommandView::AddEntity {
            entity,
            fields: fields_view(fields@),
        },
        EditCommand::RemoveEntity { entity, fields } => CommandView::RemoveEntity {
            entity,
            fields: fields_view(fields@),
        },
        EditCommand::MovePanel(inner) => CommandView::MovePanel(Box::new(command_view(*inner))),
        EditCommand::BatchEdit(cmds) => CommandView::BatchEdit(command_views(cmds@)),
        EditCommand::AddToField { near, edge, items } => CommandView::AddToField {
            near,
            edge,
            items: items@,
        },
        EditCommand::RemoveFromField { near, edge, items } => CommandView::RemoveFromField {
            near,
            edge,
            items: items@,
        },
    }
}

/// The abstract values of a sequence of commands, in order.
pub open spec fn command_views(s: Seq<EditCommand>) -> Seq<CommandView>
    decreases s,
{
    if s.len() == 0 {
        Seq::empty()
    } else {
        seq![command_view(s[0])] + command_views(s.drop_first())
    }
}

impl View for EditCommand {
    type V = CommandView;

    open spec fn view(&self) -> CommandView {
        command_view(*self)
    }
}

/// `command_views` maps each command to its abstract value.
pub proof fn lemma_command_views(s: Seq<EditCommand>)
    ensures
        command_views(s).len() == s.len(),
        forall|i: int| 0 <= i < s.len() ==> #[trigger] command_views(s)[i] == command_view(s[i]),
    decreases s.len(),
{
    if s.len() > 0 {
        lemma_command_views(s.drop_first());
        assert forall|i: int| 0 <= i < s.len() implies #[trigger] command_views(s)[i]
            == command_view(s[i]) by {
            if i > 0 {
                assert(s.drop_first()[i - 1] == s[i]);
            }
        }
    }
}

/// Errors produced by the edit command system.
#[derive(Debug, Clone, Copy)]
pub enum EditError {
    /// No registered entity type matches the given type name.
    UnknownEntityType(&'static str),
    /// The entity was not found.
    EntityNotFound(RuntimeEntityId),
    /// A field read failed.
    FieldRead { entity: RuntimeEntityId, field: &'static str },
    /// A field write failed: the entity or the field does not exist.
    FieldWrite { entity: RuntimeEntityId, field: &'static str },
    /// An entity could not be created: its UUID is already in use.
    Build { entity: RuntimeEntityId },
    /// Undo stack is empty.
    NothingToUndo,
    /// Redo stack is empty.
    NothingToRedo,
    /// An edge change failed: the items are not entity references, or an
    /// endpoint has the wrong entity type.
    EdgeAdd { near: RuntimeEntityId },
}

/// The entity type named `t` is registered in `s`.
pub open spec fn registered(s: StateView, t: &'static str) -> bool {
    exists|i: int| 0 <= i < s.types.len() && (#[trigger] s.types[i])@ == t@
}

/// The map key of an entity.
pub open spec fn key_of(id: RuntimeEntityId) -> u128 {
    id.spec_uuid()@
}

/// `s` holds the entity `id`, with `id`'s type.
pub open spec fn holds(s: StateView, id: RuntimeEntityId) -> bool {
    s.entities.contains_key(key_of(id)) && s.entities[key_of(id)].entity_type@
        == id.spec_type_name()@
}

/// The same store with other entities.
pub open spec fn with_entities(s: StateView, m: Map<u128, EntityView>) -> StateView {
    StateView { types: s.types, entities: m, edges: s.edges }
}

/// The same store with other edge lists.
pub open spec fn with_edges(s: StateView, g: EdgeLists) -> StateView {
    StateView { types: s.types, entities: s.entities, edges: g }
}

/// Edge lists after `u` was linked to `added` along `e`: the near list
/// gains `added` at its end, and each added entity gains `u` on the
/// reverse list unless it is already there.
pub open spec fn linked(g: EdgeLists, u: NonNilUuid, e: EdgeView, added: Seq<NonNilUuid>) -> EdgeLists {
    |x: NonNilUuid, f: EdgeView|
        {
            let mid = if x == u && f == e {
                g(u, e) + added
            } else {
                g(x, f)
            };
            if f == flip_view(e) && added.contains(x) && !mid.contains(u) {
                mid.push(u)
            } else {
                mid
            }
        }
}

/// Edge lists after `u` was unlinked from `removed` along `e`.
pub open spec fn unlinked(g: EdgeLists, u: NonNilUuid, e: EdgeView, removed: Seq<NonNilUuid>) -> EdgeLists {
    |x: NonNilUuid, f: EdgeView|
        {
            let mid = if x == u && f == e {
                g(u, e).filter(not_in(removed))
            } else {
                g(x, f)
            };
            if f == flip_view(e) && removed.contains(x) {
                mid.filter(not_eq(u))
            } else {
                mid
            }
        }
}

/// Edge lists after every edge touching `w` was dropped.
pub open spec fn cleared(g: EdgeLists, w: NonNilUuid) -> EdgeLists {
    |x: NonNilUuid, f: EdgeView|
        if x == w {
            Seq::<NonNilUuid>::empty()
        } else {
            g(x, f).filter(not_eq(w))
        }
}

/// The runtime ids of `ids`, all of entity type `t`.
pub open spec fn runtime_ids(ids: Seq<NonNilUuid>, t: &'static str) -> Seq<RuntimeEntityId> {
    ids.map_values(|u: NonNilUuid| RuntimeEntityId::spec_new(u, t))
}

/// The edge on the sibling field that an owner edge is exclusive with, if any.
pub open spec fn exclusive_view(edge: FullEdge) -> Option<EdgeView> {
    match edge.near.edge_kind {
        EdgeKind::Owner { exclusive_with: Some(k), .. } => Some((k@, edge.far.spec_key()@)),
        _ => None,
    }
}

/// Writing `new_value` into `field` of `entity`.
pub open spec fn update_field_step(
    s: StateView,
    entity: RuntimeEntityId,
    field: &'static str,
    old_value: FieldValueView,
    new_value: FieldValueView,
) -> (StateView, Result<CommandView, EditError>) {
    if !registered(s, entity.spec_type_name()) {
        (s, Err(EditError::UnknownEntityType(entity.spec_type_name())))
    } else if !holds(s, entity) || !has_field(s.entities[key_of(entity)].fields, field@) {
        (s, Err(EditError::FieldWrite { entity, field }))
    } else {
        let rec = s.entities[key_of(entity)];
        let i = field_pos(rec.fields, field@);
        let rec2 = EntityView {
            entity_type: rec.entity_type,
            fields: rec.fields.update(i, (rec.fields[i].0, new_value)),
        };
        (
            with_entities(s, s.entities.insert(key_of(entity), rec2)),
            Ok(
                CommandView::UpdateField {
                    entity,
                    field,
                    old_value: new_value,
                    new_value: old_value,
                },
            ),
        )
    }
}

/// Creating `entity` with `fields`.
pub open spec fn add_entity_step(
    s: StateView,
    entity: RuntimeEntityId,
    fields: Seq<(&'static str, FieldValueView)>,
) -> (StateView, Result<CommandView, EditError>) {
    if !registered(s, entity.spec_type_name()) {
        (s, Err(EditError::UnknownEntityType(entity.spec_type_name())))
    } else if s.entities.contains_key(key_of(entity)) {
        (s, Err(EditError::Build { entity }))
    } else {
        let rec = EntityView { entity_type: entity.spec_type_name(), fields };
        (
            with_entities(s, s.entities.insert(key_of(entity), rec)),
            Ok(CommandView::RemoveEntity { entity, fields }),
        )
    }
}

/// Removing `entity` and every edge that touches it.
pub open spec fn remove_entity_step(
    s: StateView,
    entity: RuntimeEntityId,
    fields: Seq<(&'static str, FieldValueView)>,
) -> (StateView, Result<CommandView, EditError>) {
    if !registered(s, entity.spec_type_name()) {
        (s, Err(EditError::UnknownEntityType(entity.spec_type_name())))
    } else if holds(s, entity) {
        (
            StateView {
                types: s.types,
                entities: s.entities.remove(key_of(entity)),
                edges: cleared(s.edges, entity.spec_uuid()),
            },
            Ok(CommandView::AddEntity { entity, fields }),
        )
    } else {
        (s, Ok(CommandView::AddEntity { entity, fields }))
    }
}

/// Linking `near` to `items` along `edge`; with an exclusive sibling field,
/// the added targets are also unlinked on that field.
pub open spec fn add_to_field_step(
    s: StateView,
    near: RuntimeEntityId,
    edge: FullEdge,
    items: FieldValueView,
) -> (StateView, Result<CommandView, EditError>) {
    match items {
        FieldValueView::Entities(t) => {
            if !types_match(near, edge, t) {
                (s, Err(EditError::EdgeAdd { near }))
            } else {
                let u = near.spec_uuid();
                let added = fresh_targets((s.edges)(u, edge@), ids_of(t));
                let g1 = linked(s.edges, u, edge@, added);
                let g2 = match exclusive_view(edge) {
                    Some(x) => unlinked(g1, u, x, added.filter(is_in(g1(u, x)))),
                    None => g1,
                };
                (
                    with_edges(s, g2),
                    Ok(
                        CommandView::RemoveFromField {
                            near,
                            edge,
                            items: FieldValueView::Entities(
                                runtime_ids(added, edge.far.entity_name),
                            ),
                        },
                    ),
                )
            }
        },
        _ => (s, Err(EditError::EdgeAdd { near })),
    }
}

/// Unlinking `near` from `items` along `edge`.
pub open spec fn remove_from_field_step(
    s: StateView,
    near: RuntimeEntityId,
    edge: FullEdge,
    items: FieldValueView,
) -> (StateView, Result<CommandView, EditError>) {
    match items {
        FieldValueView::Entities(t) => {
            let u = near.spec_uuid();
            let removed = ids_of(t).filter(is_in((s.edges)(u, edge@)));
            (
                with_edges(s, unlinked(s.edges, u, edge@, removed)),
                Ok(
                    CommandView::AddToField {
                        near,
                        edge,
                        items: FieldValueView::Entities(runtime_ids(removed, edge.far.entity_name)),
                    },
                ),
            )
        },
        _ => (s, Err(EditError::EdgeAdd { near })),
    }
}

/// Running command `c` on store `s`: the store afterwards, and the inverse
/// command or the error.  A failing batch leaves the commands before the
/// failing one applied.
pub open spec fn step(s: StateView, c: CommandView) -> (StateView, Result<CommandView, EditError>)
    decreases c,
{
    match c {
        CommandView::UpdateField { entity, field, old_value, new_value } => update_field_step(
            s,
            entity,
            field,
            old_value,
            new_value,
        ),
        CommandView::AddEntity { entity, fields } => add_entity_step(s, entity, fields),
        CommandView::RemoveEntity { entity, fields } => remove_entity_step(s, entity, fields),
        CommandView::MovePanel(inner) => {
            let r = step(s, *inner);
            (
                r.0,
                match r.1 {
                    Ok(inv) => Ok(CommandView::MovePanel(Box::new(inv))),
                    Err(e) => Err(e),
                },
            )
        },
        CommandView::BatchEdit(cs) => {
            let r = batch(s, cs);
            (
                r.0,
                match r.1 {
                    Ok(invs) => Ok(CommandView::BatchEdit(invs.reverse())),
                    Err(e) => Err(e),
                },
            )
        },
        CommandView::AddToField { near, edge, items } => add_to_field_step(s, near, edge, items),
        CommandView::RemoveFromField { near, edge, items } => remove_from_field_step(
            s,
            near,
            edge,
            items,
        ),
    }
}

/// Running the commands `cs` in order: the store afterwards, and the
/// inverses in execution order or the first error.
pub open spec fn batch(s: StateView, cs: Seq<CommandView>) -> (
    StateView,
    Result<Seq<CommandView>, EditError>,
)
    decreases cs,
{
    if cs.len() == 0 {
        (s, Ok(Seq::empty()))
    } else {
        let r = step(s, cs[0]);
        match r.1 {
            Err(e) => (r.0, Err(e)),
            Ok(inv) => prefix_ok(seq![inv], batch(r.0, cs.drop_first())),
        }
    }
}

/// `r` with `pre` in front of its inverses.
pub open spec fn prefix_ok(
    pre: Seq<CommandView>,
    r: (StateView, Result<Seq<CommandView>, EditError>),
) -> (StateView, Result<Seq<CommandView>, EditError>) {
    (
        r.0,
        match r.1 {
            Ok(v) => Ok(pre + v),
            Err(e) => Err(e),
        },
    )
}

/// The abstract form of a command result.
pub open spec fn result_view(r: Result<EditCommand, EditError>) -> Result<CommandView, EditError> {
    match r {
        Ok(c) => Ok(c@),
        Err(e) => Err(e),
    }
}

/// `ids` as runtime ids of entity type `t`.
fn to_runtime_ids(ids: &Vec<NonNilUuid>, t: &'static str) -> (r: Vec<RuntimeEntityId>)
    ensures
        r@ == runtime_ids(ids@, t),
        ids_of(r@) == ids@,
{
    let mut r: Vec<RuntimeEntityId> = Vec::new();
    let mut i: usize = 0;
    while i < ids.len()
        invariant
            i <= ids.len(),
            r@ == runtime_ids(ids@.take(i as int), t),
        decreases ids.len() - i,
    {
        r.push(RuntimeEntityId::new_unchecked(ids[i], t));
        i = i + 1;
        assert(r@ =~= runtime_ids(ids@.take(i as int), t));
    }
    assert(ids@.take(ids.len() as int) =~= ids@);
    assert(ids_of(r@) =~= ids@);
    r
}

/// The edge on the sibling field that `edge` is exclusive with.
///
/// Only the field keys of an edge take part in edge storage, so the sibling
/// edge reuses the near descriptor of `edge` under the sibling's key.
fn exclusive_edge(edge: &FullEdge) -> (r: Option<FullEdge>)
    ensures
        match r {
            Some(x) => exclusive_view(*edge) == Some(x@),
            None => exclusive_view(*edge) is None,
        },
{
    match edge.near.edge_kind {
        EdgeKind::Owner { exclusive_with: Some(k), .. } => {
            let mut near = edge.near;
            near.entity_name = k.entity_type;
            near.data.name = k.name;
            Some(FullEdge { near, far: edge.far })
        },
        _ => None,
    }
}

/// The first position of a field named `name`, if any.
fn find_field(fields: &Vec<(&'static str, FieldValue)>, name: &str) -> (r: Option<usize>)
    ensures
        match r {
            Some(i) => first_field(fields_view(fields@), name@, i as int),
            None => !has_field(fields_view(fields@), name@),
        },
{
    let ghost fv = fields_view(fields@);
    let mut i: usize = 0;
    while i < fields.len()
        invariant
            i <= fields.len(),
            fv == fields_view(fields@),
            forall|j: int| 0 <= j < i ==> (#[trigger] fv[j]).0@ != name@,
        decreases fields.len() - i,
    {
        if str_eq(fields[i].0, name) {
            return Some(i);
        }
        i = i + 1;
    }
    None
}

impl EntityState {
    /// Well-formedness: the edge map is well formed.
    pub closed spec fn wf(&self) -> bool {
        self.edges.wf()
    }

    /// The stored edges are linked in both directions.
    pub proof fn lemma_wf_edges(&self)
        requires
            self.wf(),
        ensures
            edges_both_ways(self@.edges),
    {
        assert forall|u: NonNilUuid, e: EdgeView, v: NonNilUuid| #[trigger]
            (self@.edges)(u, e).contains(v) implies (self@.edges)(v, flip_view(e)).contains(u) by {
            crate::edge::map::lemma_edges_symmetric(self.edges, u, e, v);
        }
    }

    /// An empty store with the given entity types registered.
    pub fn new(types: Vec<&'static str>) -> (r: EntityState)
        ensures
            r.wf(),
            r@.types == types@,
            r@.entities == Map::<u128, EntityView>::empty(),
            forall|x: NonNilUuid, f: EdgeView| #[trigger] (r@.edges)(x, f) == Seq::<
                NonNilUuid,
            >::empty(),
    {
        let r = EntityState { types, entities: HashMap::new(), edges: RawEdgeMap::new() };
        assert(r@.entities =~= Map::<u128, EntityView>::empty());
        r
    }

    /// Whether the entity type `t` is registered.
    pub fn is_registered(&self, t: &str) -> (r: bool)
        ensures
            r == exists|i: int| 0 <= i < self@.types.len() && (#[trigger] self@.types[i])@ == t@,
    {
        let mut i: usize = 0;
        while i < self.types.len()
            invariant
                i <= self.types.len(),
                self@.types == self.types@,
                forall|j: int| 0 <= j < i ==> (#[trigger] self@.types[j])@ != t@,
            decreases self.types.len() - i,
        {
            if str_eq(self.types[i], t) {
                return true;
            }
            i = i + 1;
        }
        false
    }

    /// The store holds finitely many entities.
    pub proof fn lemma_entities_finite(&self)
        ensures
            self@.entities.dom().finite(),
    {
        assert(self@.entities.dom() =~= self.entities@.dom());
    }

    /// The number of entities in the store.
    pub fn entity_count(&self) -> (r: usize)
        ensures
            r == self@.entities.len(),
    {
        assert(self@.entities.dom() =~= self.entities@.dom());
        self.entities.len()
    }

    /// Whether some entity of the store has UUID `u`.
    pub fn holds_uuid(&self, u: NonNilUuid) -> (r: bool)
        ensures
            r == self@.entities.contains_key(u@),
    {
        self.entities.contains_key(&u.get())
    }

    /// Whether the store holds `id` with `id`'s entity type.
    pub fn contains(&self, id: RuntimeEntityId) -> (r: bool)
        ensures
            r == holds(self@, id),
    {
        let key = id.entity_uuid().get();
        match self.entities.get(&key) {
            Some(rec) => str_eq(rec.entity_type, id.entity_type_name()),
            None => false,
        }
    }

    /// The value of field `name` of entity `id`, if the store holds the
    /// entity and the entity has the field.
    pub fn field_value(&self, id: RuntimeEntityId, name: &str) -> (r: Option<FieldValue>)
        ensures
            match r {
                Some(v) => holds(self@, id) && has_field(self@.entities[key_of(id)].fields, name@)
                    && v@ == self@.entities[key_of(id)].fields[field_pos(
                    self@.entities[key_of(id)].fields,
                    name@,
                )].1,
                None => !holds(self@, id) || !has_field(self@.entities[key_of(id)].fields, name@),
            },
    {
        if !self.contains(id) {
            return None;
        }
        let key = id.entity_uuid().get();
        let rec = self.entities.get(&key).unwrap();
        match find_field(&rec.fields, name) {
            Some(i) => {
                proof {
                    lemma_field_pos(fields_view(rec.fields@), name@, i as int);
                }
                Some(rec.fields[i].1.duplicate())
            },
            None => None,
        }
    }

    /// The entities linked to `near` along `edge`, in link order.
    pub fn neighbors(&self, near: RuntimeEntityId, edge: FullEdge) -> (r: Vec<RuntimeEntityId>)
        requires
            self.wf(),
        ensures
            ids_of(r@) == (self@.edges)(near.spec_uuid(), edge@),
            forall|i: int| 0 <= i < r@.len() ==> (#[trigger] r@[i]).spec_type_name() == edge.far.entity_name,
    {
        let r = self.edges.neighbors(near, edge);
        assert forall|i: int| 0 <= i < r@.len() implies (#[trigger] r@[i]).spec_type_name()
            == edge.far.entity_name by {
            assert(r@[i].spec_uuid() == self.edges.nbrs(near.spec_uuid(), edge@)[i]);
        }
        assert(ids_of(r@) =~= (self@.edges)(near.spec_uuid(), edge@));
        r
    }
}

/// Every listed link is also listed in the other direction.
pub open spec fn edges_both_ways(g: EdgeLists) -> bool {
    forall|u: NonNilUuid, e: EdgeView, v: NonNilUuid| #[trigger]
        g(u, e).contains(v) ==> g(v, flip_view(e)).contains(u)
}

impl EditCommand {
    /// Apply this command to the store, returning its inverse.
    #[verifier::loop_isolation(false)]
    pub fn execute(self, state: &mut EntityState) -> (r: Result<EditCommand, EditError>)
        requires
            old(state).wf(),
        ensures
            final(state).wf(),
            final(state)@ == step(old(state)@, self@).0,
            result_view(r) == step(old(state)@, self@).1,
        decreases self,
    {
        let ghost s0 = state@;
        let ghost me = self;
        let ghost cmds_copy = batch_parts(self);
        match self {
            EditCommand::UpdateField { entity, field, old_value, new_value } => {
                if !state.is_registered(entity.entity_type_name()) {
                    return Err(EditError::UnknownEntityType(entity.entity_type_name()));
                }
                let key = entity.entity_uuid().get();
                let ghost m0 = state.entities@;
                match state.entities.remove(&key) {
                    None => Err(EditError::FieldWrite { entity, field }),
                    Some(mut rec) => {
                        if !str_eq(rec.entity_type, entity.entity_type_name()) {
                            state.entities.insert(key, rec);
                            assert(state.entities@ =~= m0);
                            assert(state@ =~= s0);
                            return Err(EditError::FieldWrite { entity, field });
                        }
                        match find_field(&rec.fields, field) {
                            None => {
                                state.entities.insert(key, rec);
                                assert(state.entities@ =~= m0);
                                assert(state@ =~= s0);
                                Err(EditError::FieldWrite { entity, field })
                            },
                            Some(i) => {
                                proof {
                                    lemma_field_pos(fields_view(rec.fields@), field@, i as int);
                                }
                                let ghost f0 = rec.fields@;
                                let name = rec.fields[i].0;
                                let stored = new_value.duplicate();
                                rec.fields.set(i, (name, stored));
                                assert(fields_view(rec.fields@) =~= fields_view(f0).update(
                                    i as int,
                                    (name, new_value@),
                                ));
                                state.entities.insert(key, rec);
                                assert(state@.entities =~= s0.entities.insert(
                                    key,
                                    EntityView {
                                        entity_type: s0.entities[key].entity_type,
                                        fields: fields_view(f0).update(i as int, (name, new_value@)),
                                    },
                                ));
                                assert(state@ =~= step(s0, command_view(
                                    EditCommand::UpdateField { entity, field, old_value, new_value },
                                )).0);
                                Ok(
                                    EditCommand::UpdateField {
                                        entity,
                                        field,
                                        old_value: new_value,
                                        new_value: old_value,
                                    },
                                )
                            },
                        }
                    },
                }
            },
            EditCommand::AddEntity { entity, fields } => {
                if !state.is_registered(entity.entity_type_name()) {
                    return Err(EditError::UnknownEntityType(entity.entity_type_name()));
                }
                let key = entity.entity_uuid().get();
                if state.entities.contains_key(&key) {
                    return Err(EditError::Build { entity });
                }
                let snapshot = copy_fields(&fields);
                state.entities.insert(key, EntityRecord { entity_type: entity.entity_type_name(), fields });
                assert(state@ =~= step(s0, command_view(EditCommand::AddEntity { entity, fields: snapshot })).0);
                Ok(EditCommand::RemoveEntity { entity, fields: snapshot })
            },
            EditCommand::RemoveEntity { entity, fields } => {
                if !state.is_registered(entity.entity_type_name()) {
                    return Err(EditError::UnknownEntityType(entity.entity_type_name()));
                }
                if state.contains(entity) {
                    let key = entity.entity_uuid().get();
                    let ghost m0 = state.edges;
                    let _ = state.entities.remove(&key);
                    state.edges.clear_all(entity.entity_uuid());
                    assert(state@.edges =~= cleared(edge_lists(m0), entity.spec_uuid()));
                    assert(state@ =~= step(s0, command_view(EditCommand::RemoveEntity { entity, fields })).0);
                }
                Ok(EditCommand::AddEntity { entity, fields })
            },
            EditCommand::MovePanel(inner) => {
                match (*inner).execute(state) {
                    Ok(inv) => Ok(EditCommand::MovePanel(Box::new(inv))),
                    Err(e) => Err(e),
                }
            },
            EditCommand::BatchEdit(cmds) => {
                let ghost orig = cmds@;
                let ghost ov = command_views(orig);
                proof {
                    lemma_command_views(orig);
                }
                let mut rest = cmds;
                let mut invs: Vec<EditCommand> = Vec::new();
                let ghost mut k: int = 0;
                proof {
                    assert(orig.subrange(0, orig.len() as int) =~= orig);
                    assert(command_views(invs@) =~= Seq::<CommandView>::empty());
                    lemma_prefix_empty(batch(s0, ov));
                }
                while rest.len() > 0
                    invariant
                        state.wf(),
                        me == EditCommand::BatchEdit(cmds_copy),
                        orig == cmds_copy@,
                        0 <= k <= orig.len(),
                        rest@ == orig.subrange(k, orig.len() as int),
                        prefix_ok(command_views(invs@), batch(state@, command_views(rest@)))
                            == batch(s0, ov),
                    decreases rest.len(),
                {
                    let ghost rest0 = rest@;
                    let ghost rv = command_views(rest0);
                    let c = rest.remove(0);
                    proof {
                        lemma_command_views(rest0);
                        lemma_command_views(rest@);
                        assert(rest@ =~= rest0.drop_first());
                        assert(command_views(rest@) =~= rv.drop_first());
                        assert(c == orig[k]);
                        assert(me->BatchEdit_0 == cmds_copy);
                        assert(decreases_to!(me => me->BatchEdit_0));
                        assert(decreases_to!(cmds_copy => cmds_copy@));
                        assert(decreases_to!(cmds_copy@ => cmds_copy@[k]));
                        assert(decreases_to!(me => cmds_copy@[k]));
                    }
                    let ghost st = state@;
                    let ghost iv0 = command_views(invs@);
                    match c.execute(state) {
                        Err(e) => {
                            proof {
                                assert(rv[0] == c@);
                                assert(batch(st, rv) == (state@, Err::<Seq<CommandView>, EditError>(e)));
                                assert(me@ == CommandView::BatchEdit(ov));
                            }
                            return Err(e);
                        },
                        Ok(inv) => {
                            let ghost invs0 = invs@;
                            invs.push(inv);
                            proof {
                                k = k + 1;
                                lemma_command_views(invs0);
                                lemma_command_views(invs@);
                                assert(command_views(invs@) =~= iv0 + seq![inv@]);
                                lemma_prefix_twice(iv0, seq![inv@], batch(state@, command_views(rest@)));
                                assert(orig.subrange(k, orig.len() as int) =~= rest@);
                            }
                        },
                    }
                }
                proof {
                    assert(command_views(rest@) =~= Seq::<CommandView>::empty());
                    assert(command_views(invs@) + Seq::<CommandView>::empty() =~= command_views(invs@));
                }
                let ghost all = invs@;
                let ghost n = all.len();
                let mut rev: Vec<EditCommand> = Vec::new();
                while invs.len() > 0
                    invariant
                        invs@ == all.take(invs@.len() as int),
                        rev@.len() + invs@.len() == n,
                        n == all.len(),
                        forall|i: int| 0 <= i < rev@.len() ==> #[trigger] rev@[i] == all[n - 1 - i],
                    decreases invs.len(),
                {
                    let c = invs.pop().unwrap();
                    rev.push(c);
                    proof {
                        assert(invs@ =~= all.take(invs@.len() as int));
                    }
                }
                proof {
                    lemma_command_views(rev@);
                    lemma_command_views(all);
                    assert(command_views(rev@) =~= command_views(all).reverse());
                }
                Ok(EditCommand::BatchEdit(rev))
            },
            EditCommand::AddToField { near, edge, items } => {
                match items {
                    FieldValue::Entities(targets) => {
                        let ghost m0 = state.edges;
                        let ghost t = targets@;
                        match state.edges.add_edge(near, edge, targets) {
                            Err(_) => {
                                assert(state@ =~= s0);
                                Err(EditError::EdgeAdd { near })
                            },
                            Ok(added) => {
                                let ghost m1 = state.edges;
                                assert(edge_lists(m1) =~= linked(edge_lists(m0), near.spec_uuid(), edge@, added@));
                                let added_ids = to_runtime_ids(&added, edge.far.entity_name);
                                match exclusive_edge(&edge) {
                                    Some(ex) => {
                                        let again = to_runtime_ids(&added, edge.far.entity_name);
                                        let _ = state.edges.remove_edge(near, ex, again);
                                        assert(edge_lists(state.edges) =~= unlinked(
                                            edge_lists(m1),
                                            near.spec_uuid(),
                                            ex@,
                                            added@.filter(is_in(m1.nbrs(near.spec_uuid(), ex@))),
                                        ));
                                    },
                                    None => {},
                                }
                                assert(state@ =~= step(s0, CommandView::AddToField { near, edge, items: FieldValueView::Entities(t) }).0);
                                Ok(
                                    EditCommand::RemoveFromField {
                                        near,
                                        edge,
                                        items: FieldValue::Entities(added_ids),
                                    },
                                )
                            },
                        }
                    },
                    _ => Err(EditError::EdgeAdd { near }),
                }
            },
            EditCommand::RemoveFromField { near, edge, items } => {
                match items {
                    FieldValue::Entities(targets) => {
                        let ghost m0 = state.edges;
                        let ghost t = targets@;
                        let removed = state.edges.remove_edge(near, edge, targets);
                        assert(edge_lists(state.edges) =~= unlinked(
                            edge_lists(m0),
                            near.spec_uuid(),
                            edge@,
                            removed@,
                        ));
                        assert(state@ =~= step(s0, CommandView::RemoveFromField { near, edge, items: FieldValueView::Entities(t) }).0);
                        let removed_ids = to_runtime_ids(&removed, edge.far.entity_name);
                        Ok(
                            EditCommand::AddToField {
                                near,
                                edge,
                                items: FieldValue::Entities(removed_ids),
                            },
                        )
                    },
                    _ => Err(EditError::EdgeAdd { near }),
                }
            },
        }
    }
}

/// A result with no inverses put in front is unchanged.
pub proof fn lemma_prefix_empty(r: (StateView, Result<Seq<CommandView>, EditError>))
    ensures
        prefix_ok(Seq::empty(), r) == r,
{
    match r.1 {
        Ok(v) => {
            assert(Seq::<CommandView>::empty() + v =~= v);
        },
        Err(_) => {},
    }
}

/// Putting `b` and then `a` in front is putting `a + b` in front.
pub proof fn lemma_prefix_twice(
    a: Seq<CommandView>,
    b: Seq<CommandView>,
    r: (StateView, Result<Seq<CommandView>, EditError>),
)
    ensures
        prefix_ok(a, prefix_ok(b, r)) == prefix_ok(a + b, r),
{
    match r.1 {
        Ok(v) => {
            assert(a + (b + v) =~= (a + b) + v);
        },
        Err(_) => {},
    }
}

/// The field values of entity `id` in `s`: an error for an unregistered
/// type, otherwise the entity's fields, none when `s` does not hold it.
pub open spec fn snapshot_spec(s: StateView, id: RuntimeEntityId) -> Result<
    Seq<(&'static str, FieldValueView)>,
    EditError,
> {
    if !registered(s, id.spec_type_name()) {
        Err(EditError::UnknownEntityType(id.spec_type_name()))
    } else if !holds(s, id) {
        Ok(Seq::empty())
    } else {
        Ok(s.entities[key_of(id)].fields)
    }
}

/// The abstract form of a snapshot result.
pub open spec fn snapshot_view(r: Result<Vec<(&'static str, FieldValue)>, EditError>) -> Result<
    Seq<(&'static str, FieldValueView)>,
    EditError,
> {
    match r {
        Ok(v) => Ok(fields_view(v@)),
        Err(e) => Err(e),
    }
}

/// Snapshot the field values of an entity, for an
/// [`EditCommand::AddEntity`] that recreates it.
pub fn snapshot_entity(state: &EntityState, id: RuntimeEntityId) -> (r: Result<
    Vec<(&'static str, FieldValue)>,
    EditError,
>)
    ensures
        snapshot_view(r) == snapshot_spec(state@, id),
{
    if !state.is_registered(id.entity_type_name()) {
        return Err(EditError::UnknownEntityType(id.entity_type_name()));
    }
    if !state.contains(id) {
        let empty: Vec<(&'static str, FieldValue)> = Vec::new();
        proof {
            assert(fields_view(empty@) =~= Seq::<(&'static str, FieldValueView)>::empty());
        }
        return Ok(empty);
    }
    let key = id.entity_uuid().get();
    let rec = state.entities.get(&key).unwrap();
    Ok(copy_fields(&rec.fields))
}

/// The [`EditCommand::AddEntity`] that recreates entity `id` as it stands
/// in the store.
pub fn add_entity_cmd(state: &EntityState, id: RuntimeEntityId) -> (r: Result<EditCommand, EditError>)
    ensures
        match snapshot_spec(state@, id) {
            Ok(fields) => r is Ok && r->Ok_0@ == (CommandView::AddEntity { entity: id, fields }),
            Err(e) => r == Err::<EditCommand, EditError>(e),
        },
{
    match snapshot_entity(state, id) {
        Ok(fields) => Ok(EditCommand::AddEntity { entity: id, fields }),
        Err(e) => Err(e),
    }
}

/// The field update for `entity` that captures the current value.
pub(crate) fn build_update_field(
    state: &EntityState,
    entity: RuntimeEntityId,
    field: &'static str,
    new_value: FieldValue,
) -> (r: Result<EditCommand, EditError>)
    ensures
        result_view(r) == update_field_view(state@, entity, field, new_value@),
{
    if !state.is_registered(entity.entity_type_name()) {
        return Err(EditError::UnknownEntityType(entity.entity_type_name()));
    }
    if !state.contains(entity) {
        return Err(EditError::EntityNotFound(entity));
    }
    match state.field_value(entity, field) {
        Some(old_value) => Ok(EditCommand::UpdateField { entity, field, old_value, new_value }),
        None => Err(EditError::FieldRead { entity, field }),
    }
}

/// The removal of `entity` with its current fields as the snapshot.
pub(crate) fn build_remove_entity(state: &EntityState, entity: RuntimeEntityId) -> (r: Result<EditCommand, EditError>)
    ensures
        result_view(r) == remove_entity_view(state@, entity),
{
    if !state.is_registered(entity.entity_type_name()) {
        return Err(EditError::UnknownEntityType(entity.entity_type_name()));
    }
    if !state.contains(entity) {
        let empty: Vec<(&'static str, FieldValue)> = Vec::new();
        proof {
            assert(fields_view(empty@) =~= Seq::<(&'static str, FieldValueView)>::empty());
        }
        return Ok(EditCommand::RemoveEntity { entity, fields: empty });
    }
    let key = entity.entity_uuid().get();
    let rec = state.entities.get(&key).unwrap();
    Ok(EditCommand::RemoveEntity { entity, fields: copy_fields(&rec.fields) })
}

/// The batch of time and room updates that moves `panel`.
pub(crate) fn build_move_panel(
    state: &EntityState,
    panel: RuntimeEntityId,
    time_field: &'static str,
    new_time: FieldValue,
    room_field: &'static str,
    new_room: FieldValue,
) -> (r: Result<EditCommand, EditError>)
    ensures
        result_view(r) == move_panel_view(
            state@,
            panel,
            time_field,
            new_time@,
            room_field,
            new_room@,
        ),
{
    let ghost nt = new_time@;
    let ghost nr = new_room@;
    let time_cmd = match build_update_field(state, panel, time_field, new_time) {
        Ok(c) => c,
        Err(e) => return Err(e),
    };
    let room_cmd = match build_update_field(state, panel, room_field, new_room) {
        Ok(c) => c,
        Err(e) => return Err(e),
    };
    let ghost tv = time_cmd@;
    let ghost rv = room_cmd@;
    let mut cmds: Vec<EditCommand> = Vec::new();
    cmds.push(time_cmd);
    cmds.push(room_cmd);
    proof {
        lemma_command_views(cmds@);
        assert(command_views(cmds@) =~= seq![tv, rv]);
    }
    let out = EditCommand::MovePanel(Box::new(EditCommand::BatchEdit(cmds)));
    proof {
        reveal_with_fuel(command_view, 2);
    }
    assert(out@ == CommandView::MovePanel(Box::new(CommandView::BatchEdit(seq![tv, rv]))));
    Ok(out)
}

impl EditContext<EntityState> {
    /// The [`EditCommand::UpdateField`] that writes `new_value` into
    /// `field` of `entity`, with the value the field holds now as its old
    /// value.  Fails with `UnknownEntityType` for an unregistered type,
    /// `EntityNotFound` when the store does not hold the entity, and
    /// `FieldRead` when the entity has no such field.
    pub fn update_field_cmd(
        &self,
        entity: RuntimeEntityId,
        field: &'static str,
        new_value: FieldValue,
    ) -> (r: Result<EditCommand, EditError>)
        ensures
            result_view(r) == update_field_view(self.spec_schedule()@, entity, field, new_value@),
    {
        build_update_field(self.schedule(), entity, field, new_value)
    }

    /// The [`EditCommand::RemoveEntity`] for `entity`, with its current
    /// field values as the snapshot (none when the store does not hold it).
    pub fn remove_entity_cmd(&self, entity: RuntimeEntityId) -> (r: Result<EditCommand, EditError>)
        ensures
            result_view(r) == remove_entity_view(self.spec_schedule()@, entity),
    {
        build_remove_entity(self.schedule(), entity)
    }

    /// A [`EditCommand::MovePanel`]: a batch of the two field updates that
    /// set the panel's time and room, each capturing the value it replaces.
    pub fn move_panel_cmd(
        &self,
        panel: RuntimeEntityId,
        time_field: &'static str,
        new_time: FieldValue,
        room_field: &'static str,
        new_room: FieldValue,
    ) -> (r: Result<EditCommand, EditError>)
        ensures
            result_view(r) == move_panel_view(
                self.spec_schedule()@,
                panel,
                time_field,
                new_time@,
                room_field,
                new_room@,
            ),
    {
        build_move_panel(self.schedule(), panel, time_field, new_time, room_field, new_room)
    }

    /// An [`EditCommand::AddToField`] linking `near` to `items` along `edge`.
    pub fn add_to_field_cmd(&self, near: RuntimeEntityId, edge: FullEdge, items: FieldValue) -> (r:
        EditCommand)
        ensures
            r@ == (CommandView::AddToField { near, edge, items: items@ }),
    {
        EditCommand::AddToField { near, edge, items }
    }

    /// An [`EditCommand::RemoveFromField`] unlinking `near` from `items`
    /// along `edge`.
    pub fn remove_from_field_cmd(&self, near: RuntimeEntityId, edge: FullEdge, items: FieldValue) -> (r:
        EditCommand)
        ensures
            r@ == (CommandView::RemoveFromField { near, edge, items: items@ }),
    {
        EditCommand::RemoveFromField { near, edge, items }
    }
}

/// What [`EditContext::remove_entity_cmd`] gives for these arguments.
pub open spec fn remove_entity_view(s: StateView, entity: RuntimeEntityId) -> Result<CommandView, EditError> {
    if !registered(s, entity.spec_type_name()) {
        Err(EditError::UnknownEntityType(entity.spec_type_name()))
    } else {
        Ok(
            CommandView::RemoveEntity {
                entity,
                fields: if holds(s, entity) {
                    s.entities[key_of(entity)].fields
                } else {
                    Seq::empty()
                },
            },
        )
    }
}

/// What [`EditContext::move_panel_cmd`] gives for these arguments.
pub open spec fn move_panel_view(
    s: StateView,
    panel: RuntimeEntityId,
    time_field: &'static str,
    new_time: FieldValueView,
    room_field: &'static str,
    new_room: FieldValueView,
) -> Result<CommandView, EditError> {
    match (update_field_view(s, panel, time_field, new_time), update_field_view(
        s,
        panel,
        room_field,
        new_room,
    )) {
        (Ok(t), Ok(m)) => Ok(CommandView::MovePanel(Box::new(CommandView::BatchEdit(seq![t, m])))),
        (Err(e), _) => Err(e),
        (Ok(_), Err(e)) => Err(e),
    }
}

/// What [`EditContext::update_field_cmd`] gives for these arguments.
pub open spec fn update_field_view(
    s: StateView,
    entity: RuntimeEntityId,
    field: &'static str,
    new_value: FieldValueView,
) -> Result<CommandView, EditError> {
    if !registered(s, entity.spec_type_name()) {
        Err(EditError::UnknownEntityType(entity.spec_type_name()))
    } else if !holds(s, entity) {
        Err(EditError::EntityNotFound(entity))
    } else if !has_field(s.entities[key_of(entity)].fields, field@) {
        Err(EditError::FieldRead { entity, field })
    } else {
        Ok(
            CommandView::UpdateField {
                entity,
                field,
                old_value: s.entities[key_of(entity)].fields[field_pos(
                    s.entities[key_of(entity)].fields,
                    field@,
                )].1,
                new_value,
            },
        )
    }
}

/// The commands of a batch.
pub open spec fn batch_parts(c: EditCommand) -> Vec<EditCommand> {
    match c {
        EditCommand::BatchEdit(v) => v,
        _ => vstd::pervasive::arbitrary(),
    }
}

} // verus!
