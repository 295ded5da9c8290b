//! [`FieldSet`]: per-entity-type field registry with name and alias lookup.
//!
//! Plain fields and half-edges are kept in separate lists, in declaration
//! order.  Lookup matches a query exactly against canonical names and
//! aliases; when several fields register the same name, the one registered
//! last wins (half-edges are registered after plain fields).

use vstd::prelude::*;
use vstd::string::*;
use crate::edge::descriptor::HalfEdgeDescriptor;
use crate::field::CommonFieldData;
use crate::text::str_eq;
use crate::value::{CrdtFieldType, FieldType};

verus! {

/// Descriptor of a plain (non-edge) field of an entity type.
#[derive(Debug, Clone, Copy)]
pub struct FieldDescriptor {
    /// Name, display text, aliases, type and order of the field.
    pub data: CommonFieldData,
    /// CRDT storage type annotation.
    pub crdt_type: CrdtFieldType,
    /// Whether the field is required (must be non-empty).
    pub required: bool,
    /// Whether the field has a read callback.
    pub readable: bool,
    /// Whether the field has a write callback.
    pub writable: bool,
}

impl FieldDescriptor {
    /// Canonical field name.
    pub fn name(&self) -> (r: &'static str)
        ensures
            r == self.data.name,
    {
        self.data.name
    }
}

/// Position of a registered field: in the plain-field list or the
/// half-edge list.
#[derive(Debug, Clone, Copy, PartialEq, Eq, Structural)]
pub enum FieldIndex {
    /// Index into the plain fields.
    Field(usize),
    /// Index into the half-edges.
    HalfEdge(usize),
}

/// Operation type of a field update.
#[derive(Debug, Clone, Copy, PartialEq, Eq, Structural)]
pub enum FieldOp {
    /// Set/replace the field value.
    Replace,
    /// Add items to a list field.
    Add,
    /// Remove items from a list field.
    Remove,
}

/// Errors returned when resolving or applying a batch of field updates.
#[derive(Debug, Clone)]
pub enum FieldSetError {
    /// A name did not resolve to any canonical name or alias.
    UnknownField(String),
    /// The same field was set twice, or set after another operation on it,
    /// in one batch.
    DuplicateField(&'static str),
    /// A write failed mid-batch; earlier writes remain applied.
    WriteError {
        /// Canonical name of the field whose write failed.
        field: &'static str,
    },
}

/// The name table entries of one field: its canonical name, then its
/// aliases, all pointing at `ix`.
pub open spec fn names_of(d: CommonFieldData, ix: FieldIndex) -> Seq<(&'static str, FieldIndex)> {
    seq![(d.name, ix)] + d.aliases@.map_values(|a: &'static str| (a, ix))
}

/// Name table entries of the plain fields, in registration order.
pub open spec fn field_entries(fs: Seq<FieldDescriptor>) -> Seq<(&'static str, FieldIndex)>
    decreases fs.len(),
{
    if fs.len() == 0 {
        Seq::empty()
    } else {
        field_entries(fs.drop_last()) + names_of(
            fs.last().data,
            FieldIndex::Field((fs.len() - 1) as usize),
        )
    }
}

/// Name table entries of the half-edges, in registration order.
pub open spec fn edge_entries(es: Seq<HalfEdgeDescriptor>) -> Seq<(&'static str, FieldIndex)>
    decreases es.len(),
{
    if es.len() == 0 {
        Seq::empty()
    } else {
        edge_entries(es.drop_last()) + names_of(
            es.last().data,
            FieldIndex::HalfEdge((es.len() - 1) as usize),
        )
    }
}

/// The index registered last under `name` in `entries`, if any.
pub open spec fn lookup(entries: Seq<(&'static str, FieldIndex)>, name: Seq<char>) -> Option<
    FieldIndex,
>
    decreases entries.len(),
{
    if entries.len() == 0 {
        None
    } else if entries.last().0@ == name {
        Some(entries.last().1)
    } else {
        lookup(entries.drop_last(), name)
    }
}

/// `ix` points into lists of `nf` plain fields and `ne` half-edges.
pub open spec fn index_in_range(ix: FieldIndex, nf: nat, ne: nat) -> bool {
    match ix {
        FieldIndex::Field(i) => i < nf,
        FieldIndex::HalfEdge(i) => i < ne,
    }
}

proof fn lemma_field_entries_in_range(fs: Seq<FieldDescriptor>, ne: nat)
    ensures
        forall|k: int|
            0 <= k < field_entries(fs).len() ==> index_in_range(
                #[trigger] field_entries(fs)[k].1,
                fs.len(),
                ne,
            ),
    decreases fs.len(),
{
    if fs.len() > 0 {
        lemma_field_entries_in_range(fs.drop_last(), ne);
        let ix = FieldIndex::Field((fs.len() - 1) as usize);
        let tail = names_of(fs.last().data, ix);
        assert forall|k: int| 0 <= k < tail.len() implies #[trigger] tail[k].1 == ix by {
            if k > 0 {
                assert(tail[k] == fs.last().data.aliases@.map_values(|a: &'static str| (a, ix))[k
                    - 1]);
            }
        }
        let all = field_entries(fs);
        let head = field_entries(fs.drop_last());
        assert forall|k: int| 0 <= k < all.len() implies index_in_range(
            #[trigger] all[k].1,
            fs.len(),
            ne,
        ) by {
            if k < head.len() {
                assert(all[k] == head[k]);
            } else {
                assert(all[k] == tail[k - head.len()]);
            }
        }
    }
}

proof fn lemma_edge_entries_in_range(es: Seq<HalfEdgeDescriptor>, nf: nat)
    ensures
        forall|k: int|
            0 <= k < edge_entries(es).len() ==> index_in_range(
                #[trigger] edge_entries(es)[k].1,
                nf,
                es.len(),
            ),
    decreases es.len(),
{
    if es.len() > 0 {
        lemma_edge_entries_in_range(es.drop_last(), nf);
        let ix = FieldIndex::HalfEdge((es.len() - 1) as usize);
        let tail = names_of(es.last().data, ix);
        assert forall|k: int| 0 <= k < tail.len() implies #[trigger] tail[k].1 == ix by {
            if k > 0 {
                assert(tail[k] == es.last().data.aliases@.map_values(|a: &'static str| (a, ix))[k
                    - 1]);
            }
        }
        let all = edge_entries(es);
        let head = edge_entries(es.drop_last());
        assert forall|k: int| 0 <= k < all.len() implies index_in_range(
            #[trigger] all[k].1,
            nf,
            es.len(),
        ) by {
            if k < head.len() {
                assert(all[k] == head[k]);
            } else {
                assert(all[k] == tail[k - head.len()]);
            }
        }
    }
}

/// Fields with `required` set.
pub open spec fn is_required() -> spec_fn(FieldDescriptor) -> bool {
    |d: FieldDescriptor| d.required
}

/// Fields with a read callback.
pub open spec fn is_readable() -> spec_fn(FieldDescriptor) -> bool {
    |d: FieldDescriptor| d.readable
}

/// Fields with a write callback.
pub open spec fn is_writable() -> spec_fn(FieldDescriptor) -> bool {
    |d: FieldDescriptor| d.writable
}

/// `(name, storage)` of every field backed by CRDT storage (scalar, text or
/// list; derived fields are left out), in order.
pub open spec fn crdt_entries(fs: Seq<FieldDescriptor>) -> Seq<(&'static str, CrdtFieldType)>
    decreases fs.len(),
{
    if fs.len() == 0 {
        Seq::empty()
    } else if fs.last().crdt_type == CrdtFieldType::Derived {
        crdt_entries(fs.drop_last())
    } else {
        crdt_entries(fs.drop_last()).push((fs.last().data.name, fs.last().crdt_type))
    }
}

#[derive(Clone, Copy)]
enum Partition {
    Required,
    Readable,
    Writable,
}

spec fn partition_pred(p: Partition) -> spec_fn(FieldDescriptor) -> bool {
    match p {
        Partition::Required => is_required(),
        Partition::Readable => is_readable(),
        Partition::Writable => is_writable(),
    }
}

fn select_fields(fs: &Vec<FieldDescriptor>, p: Partition) -> (r: Vec<FieldDescriptor>)
    ensures
        r@ == fs@.filter(partition_pred(p)),
{
    let mut r: Vec<FieldDescriptor> = Vec::new();
    let mut i: usize = 0;
    while i < fs.len()
        invariant
            i <= fs@.len(),
            r@ == fs@.take(i as int).filter(partition_pred(p)),
        decreases fs@.len() - i,
    {
        proof {
            reveal(Seq::filter);
            assert(fs@.take(i + 1).drop_last() =~= fs@.take(i as int));
        }
        let d = fs[i];
        let keep = match p {
            Partition::Required => d.required,
            Partition::Readable => d.readable,
            Partition::Writable => d.writable,
        };
        if keep {
            r.push(d);
        }
        i = i + 1;
    }
    assert(fs@.take(fs@.len() as int) =~= fs@);
    r
}

/// A name resolves exactly when some entry registers it, and then to the
/// entry registered last under that name.
pub proof fn lemma_lookup_last_entry(entries: Seq<(&'static str, FieldIndex)>, name: Seq<char>)
    ensures
        lookup(entries, name) is Some <==> exists|k: int|
            0 <= k < entries.len() && (#[trigger] entries[k]).0@ == name,
        lookup(entries, name) matches Some(ix) ==> exists|k: int|
            0 <= k < entries.len() && (#[trigger] entries[k]).0@ == name && entries[k].1 == ix
                && forall|j: int| k < j < entries.len() ==> (#[trigger] entries[j]).0@ != name,
    decreases entries.len(),
{
    if entries.len() > 0 {
        let init = entries.drop_last();
        lemma_lookup_last_entry(init, name);
        let last = entries.len() - 1;
        if entries.last().0@ == name {
            assert(entries[last].0@ == name);
        } else {
            if exists|k: int| 0 <= k < entries.len() && (#[trigger] entries[k]).0@ == name {
                let k = choose|k: int| 0 <= k < entries.len() && (#[trigger] entries[k]).0@ == name;
                assert(k != last);
                assert(init[k] == entries[k]);
            }
            if lookup(init, name) is Some {
                let k = choose|k: int|
                    0 <= k < init.len() && (#[trigger] init[k]).0@ == name && init[k].1 == lookup(
                        init,
                        name,
                    )->0 && forall|j: int| k < j < init.len() ==> (#[trigger] init[j]).0@ != name;
                assert(entries[k] == init[k]);
                assert forall|j: int| k < j < entries.len() implies (#[trigger] entries[j]).0@
                    != name by {
                    if j < last {
                        assert(entries[j] == init[j]);
                    }
                }
            }
        }
    }
}

/// Every plain field registers its canonical name and each of its aliases,
/// pointing at its own position.
pub proof fn lemma_field_names_registered(fs: Seq<FieldDescriptor>, i: int)
    requires
        0 <= i < fs.len(),
    ensures
        field_entries(fs).contains((fs[i].data.name, FieldIndex::Field(i as usize))),
        forall|a: int|
            0 <= a < fs[i].data.aliases@.len() ==> field_entries(fs).contains(
                (#[trigger] fs[i].data.aliases@[a], FieldIndex::Field(i as usize)),
            ),
    decreases fs.len(),
{
    let head = field_entries(fs.drop_last());
    let all = field_entries(fs);
    if i < fs.len() - 1 {
        lemma_field_names_registered(fs.drop_last(), i);
        assert(fs.drop_last()[i] == fs[i]);
        let x = (fs[i].data.name, FieldIndex::Field(i as usize));
        let k = choose|k: int| 0 <= k < head.len() && head[k] == x;
        assert(all[k] == head[k]);
        assert forall|a: int| 0 <= a < fs[i].data.aliases@.len() implies all.contains(
            (#[trigger] fs[i].data.aliases@[a], FieldIndex::Field(i as usize)),
        ) by {
            let y = (fs[i].data.aliases@[a], FieldIndex::Field(i as usize));
            assert(head.contains(y));
            let k = choose|k: int| 0 <= k < head.len() && head[k] == y;
            assert(all[k] == head[k]);
        }
    } else {
        let ix = FieldIndex::Field(i as usize);
        let tail = names_of(fs[i].data, ix);
        assert(fs.last() == fs[i]);
        assert(all[head.len() as int] == tail[0]);
        assert forall|a: int| 0 <= a < fs[i].data.aliases@.len() implies all.contains(
            (#[trigger] fs[i].data.aliases@[a], ix),
        ) by {
            assert(tail[a + 1] == fs[i].data.aliases@.map_values(|s: &'static str| (s, ix))[a]);
            assert(all[head.len() + a + 1] == tail[a + 1]);
        }
    }
}

/// Result of a name or descriptor lookup in a [`FieldSet`].
#[derive(Debug, Clone, Copy)]
pub enum ResolvedRef {
    /// A plain (non-edge) field.
    Field(FieldDescriptor),
    /// A half-edge.
    HalfEdge(HalfEdgeDescriptor),
}

impl ResolvedRef {
    /// Canonical field name.
    pub fn name(&self) -> (r: &'static str)
        ensures
            r == match *self {
                ResolvedRef::Field(d) => d.data.name,
                ResolvedRef::HalfEdge(d) => d.data.name,
            },
    {
        match self {
            ResolvedRef::Field(d) => d.data.name,
            ResolvedRef::HalfEdge(d) => d.data.name,
        }
    }

    /// Logical field type (value type and cardinality).
    pub fn field_type(&self) -> (r: FieldType)
        ensures
            r == match *self {
                ResolvedRef::Field(d) => d.data.field_type,
                ResolvedRef::HalfEdge(d) => d.data.field_type,
            },
    {
        match self {
            ResolvedRef::Field(d) => d.data.field_type,
            ResolvedRef::HalfEdge(d) => d.data.field_type,
        }
    }
}

fn push_names(names: &mut Vec<(&'static str, FieldIndex)>, d: &CommonFieldData, ix: FieldIndex)
    ensures
        final(names)@ == old(names)@ + names_of(*d, ix),
{
    let ghost start = names@;
    names.push((d.name, ix));
    let mut j: usize = 0;
    while j < d.aliases.len()
        invariant
            j <= d.aliases@.len(),
            names@ == start + seq![(d.name, ix)] + d.aliases@.take(j as int).map_values(
                |a: &'static str| (a, ix),
            ),
        decreases d.aliases@.len() - j,
    {
        let ghost before = names@;
        names.push((d.aliases[j], ix));
        proof {
            let f = |a: &'static str| (a, ix);
            assert(d.aliases@.take(j + 1).map_values(f) =~= d.aliases@.take(j as int).map_values(
                f,
            ).push(f(d.aliases@[j as int])));
        }
        j = j + 1;
    }
    proof {
        assert(d.aliases@.take(d.aliases@.len() as int) =~= d.aliases@);
        assert(names@ =~= start + names_of(*d, ix));
    }
}

/// Reference to a field: by canonical name or alias, or directly by
/// descriptor.
#[derive(Debug, Clone, Copy)]
pub enum FieldRef {
    /// Canonical name or alias of a field registered in the set.
    Name(&'static str),
    /// A plain field descriptor, used as is.
    Field(FieldDescriptor),
    /// A half-edge descriptor, used as is.
    HalfEdge(HalfEdgeDescriptor),
}

/// `p` is a prefix of `s`.
pub open spec fn has_prefix(s: Seq<char>, p: Seq<char>) -> bool {
    p.len() <= s.len() && s.subrange(0, p.len() as int) == p
}

/// Two resolved references denote the same field: both plain fields with
/// the same name, or both half-edges of the same entity type and name.
pub open spec fn same_target(a: ResolvedRef, b: ResolvedRef) -> bool {
    match (a, b) {
        (ResolvedRef::Field(x), ResolvedRef::Field(y)) => x.data.name@ == y.data.name@,
        (ResolvedRef::HalfEdge(x), ResolvedRef::HalfEdge(y)) => x.spec_key()@ == y.spec_key()@,
        _ => false,
    }
}

/// Outcome of resolving a batch of updates, in terms of views.
pub enum PlanOutcome {
    /// Every update resolved; the resolved targets and operations, in order.
    Planned(Seq<(ResolvedRef, FieldOp)>),
    /// A name resolved to nothing.
    Unknown(Seq<char>),
    /// A field was set after an earlier update of the same field.
    Duplicate(&'static str),
}

/// Canonical name of a resolved field.
pub open spec fn target_name(d: ResolvedRef) -> &'static str {
    match d {
        ResolvedRef::Field(x) => x.data.name,
        ResolvedRef::HalfEdge(x) => x.data.name,
    }
}

fn same_target_exec(a: &ResolvedRef, b: &ResolvedRef) -> (r: bool)
    ensures
        r == same_target(*a, *b),
{
    match (a, b) {
        (ResolvedRef::Field(x), ResolvedRef::Field(y)) => str_eq(x.data.name, y.data.name),
        (ResolvedRef::HalfEdge(x), ResolvedRef::HalfEdge(y)) => x.key().same_as(&y.key()),
        _ => false,
    }
}

fn strip_prefix<'a>(s: &'a str, prefix: &str) -> (r: Option<&'a str>)
    ensures
        r is Some <==> has_prefix(s@, prefix@),
        r matches Some(t) ==> t@ == s@.subrange(prefix@.len() as int, s@.len() as int),
{
    let n = s.unicode_len();
    let p = prefix.unicode_len();
    if p > n {
        return None;
    }
    let mut i: usize = 0;
    while i < p
        invariant
            n == s@.len(),
            p == prefix@.len(),
            p <= n,
            i <= p,
            forall|j: int| 0 <= j < i ==> s@[j] == prefix@[j],
        decreases p - i,
    {
        if s.get_char(i) != prefix.get_char(i) {
            assert(s@.subrange(0, p as int)[i as int] != prefix@[i as int]);
            return None;
        }
        i = i + 1;
    }
    assert(s@.subrange(0, p as int) =~= prefix@);
    Some(s.substring_char(p, n))
}

/// Static registry of the plain fields and half-edges of an entity type.
#[derive(Debug, Clone)]
pub struct FieldSet {
    fields: Vec<FieldDescriptor>,
    edges: Vec<HalfEdgeDescriptor>,
    names: Vec<(&'static str, FieldIndex)>,
}

impl FieldSet {
    /// The plain fields, in declaration order.
    pub closed spec fn spec_fields(&self) -> Seq<FieldDescriptor> {
        self.fields@
    }

    /// The half-edges, in declaration order.
    pub closed spec fn spec_edges(&self) -> Seq<HalfEdgeDescriptor> {
        self.edges@
    }

    /// The name table: canonical names and aliases of the plain fields, then
    /// of the half-edges.
    pub closed spec fn entries(&self) -> Seq<(&'static str, FieldIndex)> {
        self.names@
    }

    /// Well-formedness: the name table is the one the descriptors define.
    pub closed spec fn wf(&self) -> bool {
        self.names@ == field_entries(self.fields@) + edge_entries(self.edges@)
    }

    /// The descriptor that `ix` points at.
    pub open spec fn resolved(&self, ix: FieldIndex) -> ResolvedRef {
        match ix {
            FieldIndex::Field(i) => ResolvedRef::Field(self.spec_fields()[i as int]),
            FieldIndex::HalfEdge(i) => ResolvedRef::HalfEdge(self.spec_edges()[i as int]),
        }
    }

    /// What looking `name` up finds, if anything.
    pub open spec fn spec_get(&self, name: Seq<char>) -> Option<ResolvedRef> {
        match lookup(self.entries(), name) {
            Some(ix) => Some(self.resolved(ix)),
            None => None,
        }
    }

    proof fn lemma_entries_in_range(&self)
        requires
            self.wf(),
        ensures
            forall|k: int|
                0 <= k < self.entries().len() ==> index_in_range(
                    #[trigger] self.entries()[k].1,
                    self.spec_fields().len(),
                    self.spec_edges().len(),
                ),
    {
        lemma_field_entries_in_range(self.fields@, self.edges@.len());
        lemma_edge_entries_in_range(self.edges@, self.fields@.len());
        let a = field_entries(self.fields@);
        let b = edge_entries(self.edges@);
        assert forall|k: int| 0 <= k < self.entries().len() implies index_in_range(
            #[trigger] self.entries()[k].1,
            self.spec_fields().len(),
            self.spec_edges().len(),
        ) by {
            if k < a.len() {
                assert(self.entries()[k] == a[k]);
            } else {
                assert(self.entries()[k] == b[k - a.len()]);
            }
        }
    }

    fn find_name(&self, name: &str) -> (r: Option<FieldIndex>)
        requires
            self.wf(),
        ensures
            r == lookup(self.entries(), name@),
            r matches Some(ix) ==> index_in_range(
                ix,
                self.spec_fields().len(),
                self.spec_edges().len(),
            ),
    {
        proof {
            self.lemma_entries_in_range();
        }
        let ghost es = self.names@;
        let mut i: usize = self.names.len();
        assert(es.take(i as int) =~= es);
        while i > 0
            invariant
                es == self.names@,
                es == self.entries(),
                i <= es.len(),
                lookup(es, name@) == lookup(es.take(i as int), name@),
                forall|k: int|
                    0 <= k < es.len() ==> index_in_range(
                        #[trigger] es[k].1,
                        self.spec_fields().len(),
                        self.spec_edges().len(),
                    ),
            decreases i,
        {
            let entry = self.names[i - 1];
            proof {
                let t = es.take(i as int);
                assert(t.last() == entry);
                assert(t.drop_last() =~= es.take(i - 1));
            }
            if str_eq(entry.0, name) {
                return Some(entry.1);
            }
            i = i - 1;
        }
        None
    }

    /// Look up a descriptor by canonical name or alias (exact match).
    ///
    /// Returns `None` if neither the name nor any alias matches.
    pub fn get_by_name(&self, name: &str) -> (r: Option<ResolvedRef>)
        requires
            self.wf(),
        ensures
            r == self.spec_get(name@),
    {
        match self.find_name(name) {
            Some(ix) => Some(self.resolve_index(ix)),
            None => None,
        }
    }

    fn resolve_index(&self, ix: FieldIndex) -> (r: ResolvedRef)
        requires
            index_in_range(ix, self.spec_fields().len(), self.spec_edges().len()),
        ensures
            r == self.resolved(ix),
    {
        match ix {
            FieldIndex::Field(i) => ResolvedRef::Field(self.fields[i]),
            FieldIndex::HalfEdge(i) => ResolvedRef::HalfEdge(self.edges[i]),
        }
    }

    /// What resolving `field_ref` for operation `op` comes to: the target
    /// and the effective operation, or `None` for an unknown name.  A name
    /// that is not registered may still resolve through an `add_` prefix
    /// (to an add) or a `remove_` prefix (to a remove).
    pub open spec fn spec_resolve(&self, field_ref: FieldRef, op: FieldOp) -> Option<
        (ResolvedRef, FieldOp),
    > {
        match field_ref {
            FieldRef::Field(d) => Some((ResolvedRef::Field(d), op)),
            FieldRef::HalfEdge(d) => Some((ResolvedRef::HalfEdge(d), op)),
            FieldRef::Name(n) => {
                let add = "add_"@;
                let remove = "remove_"@;
                if self.spec_get(n@) is Some {
                    Some((self.spec_get(n@)->0, op))
                } else if op != FieldOp::Remove && has_prefix(n@, add) && self.spec_get(
                    n@.subrange(add.len() as int, n@.len() as int),
                ) is Some {
                    Some(
                        (
                            self.spec_get(n@.subrange(add.len() as int, n@.len() as int))->0,
                            FieldOp::Add,
                        ),
                    )
                } else if op != FieldOp::Add && has_prefix(n@, remove) && self.spec_get(
                    n@.subrange(remove.len() as int, n@.len() as int),
                ) is Some {
                    Some(
                        (
                            self.spec_get(n@.subrange(remove.len() as int, n@.len() as int))->0,
                            FieldOp::Remove,
                        ),
                    )
                } else {
                    None
                }
            },
        }
    }

    /// Resolve a field reference for an operation.
    ///
    /// Descriptors resolve to themselves.  A name resolves to the field
    /// registered under it; failing that, `add_<field>` resolves to an add
    /// on `<field>` (for a set or add) and `remove_<field>` to a remove on
    /// `<field>` (for a set or remove).  Anything else is an unknown field.
    pub fn resolve(&self, field_ref: &FieldRef, op: FieldOp) -> (r: Result<
        (ResolvedRef, FieldOp),
        FieldSetError,
    >)
        requires
            self.wf(),
        ensures
            r is Ok <==> self.spec_resolve(*field_ref, op) is Some,
            r matches Ok(x) ==> self.spec_resolve(*field_ref, op) == Some(x),
            r matches Err(e) ==> (field_ref is Name && (e matches FieldSetError::UnknownField(s)
                && s@ == field_ref->Name_0@)),
    {
        match field_ref {
            FieldRef::Field(d) => Ok((ResolvedRef::Field(*d), op)),
            FieldRef::HalfEdge(d) => Ok((ResolvedRef::HalfEdge(*d), op)),
            FieldRef::Name(name) => {
                proof {
                    reveal_strlit("add_");
                    reveal_strlit("remove_");
                }
                if let Some(resolved) = self.get_by_name(name) {
                    return Ok((resolved, op));
                }
                let set_or_add = match op {
                    FieldOp::Remove => false,
                    _ => true,
                };
                if set_or_add {
                    if let Some(stripped) = strip_prefix(name, "add_") {
                        if let Some(resolved) = self.get_by_name(stripped) {
                            return Ok((resolved, FieldOp::Add));
                        }
                    }
                }
                let set_or_remove = match op {
                    FieldOp::Add => false,
                    _ => true,
                };
                if set_or_remove {
                    if let Some(stripped) = strip_prefix(name, "remove_") {
                        if let Some(resolved) = self.get_by_name(stripped) {
                            return Ok((resolved, FieldOp::Remove));
                        }
                    }
                }
                Err(FieldSetError::UnknownField(String::from_str(*name)))
            },
        }
    }

    /// What resolving a batch of updates comes to: updates are resolved in
    /// order; the first unknown name, or the first set of a field that an
    /// earlier update already targets, ends the batch.
    pub open spec fn plan(&self, ups: Seq<(FieldRef, FieldOp)>) -> PlanOutcome
        decreases ups.len(),
    {
        if ups.len() == 0 {
            PlanOutcome::Planned(Seq::empty())
        } else {
            match self.plan(ups.drop_last()) {
                PlanOutcome::Planned(acc) => match self.spec_resolve(ups.last().0, ups.last().1) {
                    None => PlanOutcome::Unknown(ups.last().0->Name_0@),
                    Some(x) => if x.1 == FieldOp::Replace && exists|k: int|
                        0 <= k < acc.len() && same_target(#[trigger] acc[k].0, x.0) {
                        PlanOutcome::Duplicate(target_name(x.0))
                    } else {
                        PlanOutcome::Planned(acc.push(x))
                    },
                },
                other => other,
            }
        }
    }

    proof fn lemma_plan_failure_sticks(&self, ups: Seq<(FieldRef, FieldOp)>, i: int)
        requires
            0 <= i <= ups.len(),
            !(self.plan(ups.take(i)) is Planned),
        ensures
            self.plan(ups) == self.plan(ups.take(i)),
        decreases ups.len(),
    {
        if ups.len() == i {
            assert(ups.take(i) =~= ups);
        } else {
            assert(ups.drop_last().take(i) =~= ups.take(i));
            self.lemma_plan_failure_sticks(ups.drop_last(), i);
        }
    }

    /// Every canonical name and alias of a registered plain field resolves.
    pub proof fn lemma_registered_names_resolve(&self, i: int)
        requires
            self.wf(),
            0 <= i < self.spec_fields().len(),
        ensures
            self.spec_get(self.spec_fields()[i].data.name@) is Some,
            forall|a: int|
                0 <= a < self.spec_fields()[i].data.aliases@.len() ==> self.spec_get(
                    (#[trigger] self.spec_fields()[i].data.aliases@[a])@,
                ) is Some,
    {
        let fs = self.fields@;
        let all = self.names@;
        let head = field_entries(fs);
        lemma_field_names_registered(fs, i);
        let x = (fs[i].data.name, FieldIndex::Field(i as usize));
        let k = choose|k: int| 0 <= k < head.len() && head[k] == x;
        assert(all[k] == head[k]);
        lemma_lookup_last_entry(all, fs[i].data.name@);
        assert forall|a: int| 0 <= a < fs[i].data.aliases@.len() implies self.spec_get(
            (#[trigger] fs[i].data.aliases@[a])@,
        ) is Some by {
            let y = (fs[i].data.aliases@[a], FieldIndex::Field(i as usize));
            assert(head.contains(y));
            let k = choose|k: int| 0 <= k < head.len() && head[k] == y;
            assert(all[k] == head[k]);
            lemma_lookup_last_entry(all, fs[i].data.aliases@[a]@);
        }
    }

    /// A batch of adds and removes whose references all resolve never
    /// fails: any number of adds and removes may target the same field.
    pub proof fn lemma_adds_and_removes_never_conflict(&self, ups: Seq<(FieldRef, FieldOp)>)
        requires
            forall|k: int|
                0 <= k < ups.len() ==> (#[trigger] ups[k]).1 != FieldOp::Replace
                    && self.spec_resolve(ups[k].0, ups[k].1) is Some,
        ensures
            self.plan(ups) is Planned,
            self.plan(ups)->Planned_0.len() == ups.len(),
        decreases ups.len(),
    {
        if ups.len() > 0 {
            let init = ups.drop_last();
            assert forall|k: int| 0 <= k < init.len() implies (#[trigger] init[k]).1
                != FieldOp::Replace && self.spec_resolve(init[k].0, init[k].1) is Some by {
                assert(init[k] == ups[k]);
            }
            self.lemma_adds_and_removes_never_conflict(init);
            let last = ups[ups.len() - 1];
            assert(last == ups.last());
        }
    }

    /// Resolve every update of a batch before anything is written.
    ///
    /// Two sets of the same field, or a set after any earlier update of
    /// that field, fail with [`FieldSetError::DuplicateField`]; several adds
    /// and removes of one field are allowed.  An unknown name fails with
    /// [`FieldSetError::UnknownField`].
    pub fn resolve_batch(&self, updates: &[(FieldRef, FieldOp)]) -> (r: Result<
        Vec<(ResolvedRef, FieldOp)>,
        FieldSetError,
    >)
        requires
            self.wf(),
        ensures
            match r {
                Ok(v) => self.plan(updates@) == PlanOutcome::Planned(v@),
                Err(FieldSetError::UnknownField(s)) => self.plan(updates@) == PlanOutcome::Unknown(
                    s@,
                ),
                Err(FieldSetError::DuplicateField(n)) => self.plan(updates@)
                    == PlanOutcome::Duplicate(n),
                Err(FieldSetError::WriteError { .. }) => false,
            },
    {
        let ghost ups = updates@;
        let mut resolved: Vec<(ResolvedRef, FieldOp)> = Vec::new();
        let mut i: usize = 0;
        assert(ups.take(0) =~= Seq::<(FieldRef, FieldOp)>::empty());
        while i < updates.len()
            invariant
                self.wf(),
                ups == updates@,
                i <= ups.len(),
                self.plan(ups.take(i as int)) == PlanOutcome::Planned(resolved@),
            decreases ups.len() - i,
        {
            let (field_ref, op) = updates[i];
            proof {
                let t = ups.take(i + 1);
                assert(t.drop_last() =~= ups.take(i as int));
                assert(t.last() == (field_ref, op));
            }
            let (desc, resolved_op) = match self.resolve(&field_ref, op) {
                Ok(x) => x,
                Err(e) => {
                    proof {
                        self.lemma_plan_failure_sticks(ups, i + 1);
                    }
                    return Err(e);
                },
            };
            let is_set = match resolved_op {
                FieldOp::Replace => true,
                _ => false,
            };
            if is_set {
                let mut k: usize = 0;
                while k < resolved.len()
                    invariant
                        ups == updates@,
                        i < ups.len(),
                        self.plan(ups.take(i as int)) == PlanOutcome::Planned(resolved@),
                        ups.take(i + 1).drop_last() == ups.take(i as int),
                        ups.take(i + 1).last() == (field_ref, op),
                        self.spec_resolve(field_ref, op) == Some((desc, resolved_op)),
                        resolved_op == FieldOp::Replace,
                        k <= resolved@.len(),
                        forall|j: int| 0 <= j < k ==> !same_target(#[trigger] resolved@[j].0, desc),
                    decreases resolved@.len() - k,
                {
                    if same_target_exec(&resolved[k].0, &desc) {
                        proof {
                            assert(same_target(resolved@[k as int].0, desc));
                            self.lemma_plan_failure_sticks(ups, i + 1);
                        }
                        return Err(FieldSetError::DuplicateField(desc.name()));
                    }
                    k = k + 1;
                }
            }
            resolved.push((desc, resolved_op));
            i = i + 1;
        }
        assert(ups.take(ups.len() as int) =~= ups);
        Ok(resolved)
    }

    /// Build a field set from plain field descriptors and half-edge
    /// descriptors, each in declaration order.
    pub fn from_slices(
        field_descs: &[FieldDescriptor],
        edge_descs: &[HalfEdgeDescriptor],
    ) -> (r: FieldSet)
        ensures
            r.wf(),
            r.spec_fields() == field_descs@,
            r.spec_edges() == edge_descs@,
    {
        let mut fields: Vec<FieldDescriptor> = Vec::new();
        let mut names: Vec<(&'static str, FieldIndex)> = Vec::new();
        let mut i: usize = 0;
        while i < field_descs.len()
            invariant
                i <= field_descs@.len(),
                fields@ == field_descs@.take(i as int),
                names@ == field_entries(field_descs@.take(i as int)),
            decreases field_descs@.len() - i,
        {
            let d = field_descs[i];
            proof {
                let t = field_descs@.take(i + 1);
                assert(t.drop_last() =~= field_descs@.take(i as int));
                assert(t.last() == d);
            }
            push_names(&mut names, &d.data, FieldIndex::Field(i));
            fields.push(d);
            i = i + 1;
            assert(fields@ =~= field_descs@.take(i as int));
        }
        assert(field_descs@.take(field_descs@.len() as int) =~= field_descs@);
        let ghost field_part = names@;
        let mut edges: Vec<HalfEdgeDescriptor> = Vec::new();
        let mut k: usize = 0;
        assert(names@ =~= field_part + edge_entries(edge_descs@.take(0)));
        while k < edge_descs.len()
            invariant
                k <= edge_descs@.len(),
                field_part == field_entries(field_descs@),
                edges@ == edge_descs@.take(k as int),
                names@ == field_part + edge_entries(edge_descs@.take(k as int)),
            decreases edge_descs@.len() - k,
        {
            let e = edge_descs[k];
            proof {
                let t = edge_descs@.take(k + 1);
                assert(t.drop_last() =~= edge_descs@.take(k as int));
                assert(t.last() == e);
            }
            let ghost before = names@;
            push_names(&mut names, &e.data, FieldIndex::HalfEdge(k));
            edges.push(e);
            k = k + 1;
            assert(edges@ =~= edge_descs@.take(k as int));
            assert(names@ =~= field_part + edge_entries(edge_descs@.take(k as int)));
        }
        assert(edge_descs@.take(edge_descs@.len() as int) =~= edge_descs@);
        FieldSet { fields, edges, names }
    }

    /// Plain (non-edge) descriptors in declaration order.
    pub fn fields(&self) -> (r: Vec<FieldDescriptor>)
        ensures
            r@ == self.spec_fields(),
    {
        self.fields.clone()
    }

    /// Half-edge descriptors in declaration order.
    pub fn half_edges(&self) -> (r: Vec<HalfEdgeDescriptor>)
        ensures
            r@ == self.spec_edges(),
    {
        self.edges.clone()
    }

    /// Descriptors where `required` is set, in declaration order.
    pub fn required_fields(&self) -> (r: Vec<FieldDescriptor>)
        ensures
            r@ == self.spec_fields().filter(is_required()),
    {
        select_fields(&self.fields, Partition::Required)
    }

    /// Descriptors that have a read callback, in declaration order.
    pub fn readable_fields(&self) -> (r: Vec<FieldDescriptor>)
        ensures
            r@ == self.spec_fields().filter(is_readable()),
    {
        select_fields(&self.fields, Partition::Readable)
    }

    /// Descriptors that have a write callback, in declaration order.
    pub fn writable_fields(&self) -> (r: Vec<FieldDescriptor>)
        ensures
            r@ == self.spec_fields().filter(is_writable()),
    {
        select_fields(&self.fields, Partition::Writable)
    }

    /// `(name, CrdtFieldType)` pairs for every plain field with CRDT backing
    /// (`Scalar`, `Text` or `List`); derived fields are excluded.
    pub fn crdt_fields(&self) -> (r: Vec<(&'static str, CrdtFieldType)>)
        ensures
            r@ == crdt_entries(self.spec_fields()),
    {
        let mut r: Vec<(&'static str, CrdtFieldType)> = Vec::new();
        let mut i: usize = 0;
        while i < self.fields.len()
            invariant
                i <= self.fields@.len(),
                r@ == crdt_entries(self.fields@.take(i as int)),
            decreases self.fields@.len() - i,
        {
            let d = self.fields[i];
            proof {
                assert(self.fields@.take(i + 1).drop_last() =~= self.fields@.take(i as int));
                assert(self.fields@.take(i + 1).last() == d);
            }
            match d.crdt_type {
                CrdtFieldType::Derived => {},
                _ => {
                    r.push((d.data.name, d.crdt_type));
                },
            }
            i = i + 1;
        }
        assert(self.fields@.take(self.fields@.len() as int) =~= self.fields@);
        r
    }

    /// Build a field set of plain fields only.
    pub fn new(descriptors: &[FieldDescriptor]) -> (r: FieldSet)
        ensures
            r.wf(),
            r.spec_fields() == descriptors@,
            r.spec_edges() == Seq::<HalfEdgeDescriptor>::empty(),
    {
        let no_edges: Vec<HalfEdgeDescriptor> = Vec::new();
        FieldSet::from_slices(descriptors, no_edges.as_slice())
    }
}

} // verus!
