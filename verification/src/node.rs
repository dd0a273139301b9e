//! The mask of a type: which of its fields and variants are selected.

use vstd::prelude::*;
use crate::schema::{core_rank, MessageType, Schema, TypeRef};

verus! {

/// One node of a mask.
///
/// A leaf has no slots. A record has one slot for each field and a union
/// one for each variant, in declaration order. An absent slot leaves the
/// field alone; a present slot holds the mask of the field. The slot of a
/// flattened field is always present. Optional wrappers add no node: the
/// mask of an optional is the mask of what it wraps.
///
/// A node that is `whole` selects everything of its record or union: each
/// of its slots is present and holds the mask that selects everything of
/// the slot's type. It writes none of them down, so that a type that holds
/// itself has such a mask too. A mask is written in one way only: where
/// every slot is selected as a whole, the node is the whole node, so that
/// the selection of every field one by one and the mask that selects
/// everything are one value.
#[derive(Debug, PartialEq, Eq)]
pub struct MaskNode {
    pub whole: bool,
    pub slots: Vec<Option<MaskNode>>,
}

/// The mathematical model of a [`MaskNode`].
pub struct MaskView {
    pub whole: bool,
    pub slots: Seq<Option<MaskView>>,
}

pub open spec fn node_view(node: MaskNode) -> MaskView
    decreases node, 0int,
{
    MaskView { whole: node.whole, slots: slot_views_of(node.slots@) }
}

/// The models of a sequence of slots, one for one.
pub open spec fn slot_views_of(slots: Seq<Option<MaskNode>>) -> Seq<Option<MaskView>>
    decreases slots, 1int,
{
    Seq::new(
        slots.len(),
        |i: int|
            if 0 <= i < slots.len() {
                match slots[i] {
                    Some(child) => Some(node_view(child)),
                    None => None,
                }
            } else {
                None
            },
    )
}

impl View for MaskNode {
    type V = MaskView;

    open spec fn view(&self) -> MaskView {
        node_view(*self)
    }
}

/// The model of one slot.
pub open spec fn slot_view(slot: Option<MaskNode>) -> Option<MaskView> {
    match slot {
        Some(child) => Some(child@),
        None => None,
    }
}

/// `slot_views_of` maps position by position.
pub broadcast proof fn lemma_slot_views_of(slots: Seq<Option<MaskNode>>)
    ensures
        (#[trigger] slot_views_of(slots)).len() == slots.len(),
        forall|i: int|
            0 <= i < slots.len() ==> (#[trigger] slot_views_of(slots)[i]) == slot_view(slots[i]),
{
}

/// The model of a node holds the models of its slots.
pub broadcast proof fn lemma_node_view(node: MaskNode)
    ensures
        #[trigger] node_view(node) == (MaskView {
            whole: node.whole,
            slots: slot_views_of(node.slots@),
        }),
{
}

pub broadcast group group_mask_views {
    lemma_slot_views_of,
    lemma_node_view,
}

/// The mask without slots: the mask of every leaf.
pub open spec fn leaf_mask() -> MaskView {
    MaskView { whole: false, slots: Seq::empty() }
}

/// The mask of a record or a union that selects everything.
pub open spec fn whole_mask() -> MaskView {
    MaskView { whole: true, slots: Seq::empty() }
}

/// Whether masks of `ty` have slots: its core is a record with a field
/// or a union with a variant.
pub open spec fn has_slots(schema: &Schema, ty: TypeRef) -> bool {
    core_rank(ty) > 0 && core_rank(ty) <= schema.len() && schema.kind(core_rank(ty) - 1)
        != MessageType::UnitEnum && schema.arity(core_rank(ty) - 1) > 0
}

/// The registry index of the core of a type whose masks have slots.
pub open spec fn core_index(ty: TypeRef) -> int {
    core_rank(ty) - 1
}

/// The mask of `ty` that selects nothing: the slots of plain fields and of
/// variants are absent, the slot of a flattened field holds the mask of its
/// type that selects nothing.
pub open spec fn empty_mask(schema: &Schema, ty: TypeRef) -> MaskView
    decreases core_rank(ty),
{
    if has_slots(schema, ty) {
        let i = core_index(ty);
        MaskView {
            whole: false,
            slots: Seq::new(
                schema.arity(i),
                |j: int|
                    if 0 <= j < schema.arity(i) && schema.field(i, j).is_flatten && core_rank(
                        schema.field(i, j).ty,
                    ) <= i {
                        Some(empty_mask(schema, schema.field(i, j).ty))
                    } else {
                        None
                    },
            ),
        }
    } else {
        leaf_mask()
    }
}

/// The mask of `ty` that selects everything: the whole record or union,
/// and for a leaf the only mask that it has.
pub open spec fn full_mask(schema: &Schema, ty: TypeRef) -> MaskView {
    if has_slots(schema, ty) {
        whole_mask()
    } else {
        leaf_mask()
    }
}

/// The slot of field (or variant) `j` in the mask `m` of `ty`: in a whole
/// mask every slot is present and holds the mask that selects everything
/// of its type.
pub open spec fn slot_at(schema: &Schema, ty: TypeRef, m: MaskView, j: int) -> Option<MaskView> {
    if m.whole {
        Some(full_mask(schema, schema.field(core_index(ty), j).ty))
    } else if 0 <= j < m.slots.len() {
        m.slots[j]
    } else {
        None
    }
}

/// Whether every one of `slots`, the slots of a mask of `ty`, is present
/// and holds the mask that selects everything of its type.
pub open spec fn all_full(schema: &Schema, ty: TypeRef, slots: Seq<Option<MaskView>>) -> bool {
    forall|j: int|
        0 <= j < schema.arity(core_index(ty)) ==> (#[trigger] slots[j]) == Some(
            full_mask(schema, schema.field(core_index(ty), j).ty),
        )
}

/// The mask of `ty` with the slots `slots`, written in the one way in
/// which it is written: where every slot is present and holds the mask
/// that selects everything of its type, it is the whole mask.
pub open spec fn tidy(schema: &Schema, ty: TypeRef, slots: Seq<Option<MaskView>>) -> MaskView {
    if has_slots(schema, ty) && all_full(schema, ty, slots) {
        whole_mask()
    } else {
        MaskView { whole: false, slots }
    }
}

/// Whether `m` is a mask of `ty`: it has the shape of the type, and
/// selecting everything is written as the whole mask, here and in every
/// slot.
pub open spec fn fits(schema: &Schema, ty: TypeRef, m: MaskView) -> bool
    decreases m,
{
    if has_slots(schema, ty) {
        if m.whole {
            m.slots.len() == 0
        } else {
            let i = core_index(ty);
            &&& m.slots.len() == schema.arity(i)
            &&& !all_full(schema, ty, m.slots)
            &&& forall|j: int|
                0 <= j < schema.arity(i) ==> {
                    &&& schema.field(i, j).is_flatten ==> (#[trigger] m.slots[j]) is Some
                    &&& m.slots[j] is Some ==> fits(schema, schema.field(i, j).ty, m.slots[j]->0)
                }
        }
    } else {
        !m.whole && m.slots.len() == 0
    }
}

/// An optional wrapper changes nothing about the masks of a type.
pub proof fn lemma_optional_mask(schema: &Schema, inner: TypeRef, m: MaskView)
    ensures
        has_slots(schema, TypeRef::Optional(Box::new(inner))) == has_slots(schema, inner),
        core_index(TypeRef::Optional(Box::new(inner))) == core_index(inner),
        fits(schema, TypeRef::Optional(Box::new(inner)), m) == fits(schema, inner, m),
        empty_mask(schema, TypeRef::Optional(Box::new(inner))) == empty_mask(schema, inner),
        full_mask(schema, TypeRef::Optional(Box::new(inner))) == full_mask(schema, inner),
        forall|j: int|
            slot_at(schema, TypeRef::Optional(Box::new(inner)), m, j) == slot_at(
                schema,
                inner,
                m,
                j,
            ),
{
    assert(core_rank(TypeRef::Optional(Box::new(inner))) == core_rank(inner));
    assert(empty_mask(schema, TypeRef::Optional(Box::new(inner))).slots =~= empty_mask(
        schema,
        inner,
    ).slots);
}

/// A type that is known where a union may stand is known where none may.
pub proof fn lemma_type_ok_weakens(schema: &Schema, ty: TypeRef)
    requires
        schema.type_ok(ty, true),
    ensures
        schema.type_ok(ty, false),
{
}

impl Schema {
    /// The registry index of the record or union whose fields the slots of
    /// a mask of `ty` stand for, if masks of `ty` have slots.
    pub fn slot_owner(&self, ty: &TypeRef) -> (r: Option<usize>)
        requires
            self.type_ok(*ty, false),
        ensures
            r is Some <==> has_slots(self, *ty),
            r is Some ==> r->0 == core_index(*ty) && r->0 < self.len(),
        decreases *ty,
    {
        match ty {
            TypeRef::Optional(inner) => self.slot_owner(&**inner),
            TypeRef::Message(i) => match self.types[*i].message_type {
                MessageType::UnitEnum => None,
                _ => if self.types[*i].fields.len() > 0 {
                    Some(*i)
                } else {
                    None
                },
            },
            _ => None,
        }
    }
}

/// The mask of `ty` that selects nothing.
pub fn empty_node(schema: &Schema, ty: &TypeRef) -> (r: MaskNode)
    requires
        schema.wf(),
        schema.type_ok(*ty, false),
    ensures
        r@ == empty_mask(schema, *ty),
        fits(schema, *ty, r@),
    decreases core_rank(*ty),
{
    broadcast use group_mask_views;

    let mut slots: Vec<Option<MaskNode>> = Vec::new();
    match schema.slot_owner(ty) {
        None => {
            let r = MaskNode { whole: false, slots };
            assert(r@.slots =~= leaf_mask().slots);
            r
        },
        Some(i) => {
            let info = &schema.types[i];
            let n = info.fields.len();
            let mut j: usize = 0;
            while j < n
                invariant
                    schema.wf(),
                    has_slots(schema, *ty),
                    i == core_index(*ty),
                    i < schema.len(),
                    info == schema.types@[i as int],
                    n == schema.arity(i as int),
                    j <= n,
                    slots.len() == j,
                    forall|k: int|
                        0 <= k < j ==> slot_view(#[trigger] slots@[k]) == empty_mask(
                            schema,
                            *ty,
                        ).slots[k],
                    forall|k: int|
                        0 <= k < j ==> ((#[trigger] slots@[k]) is Some ==> fits(
                            schema,
                            schema.field(i as int, k).ty,
                            slots@[k]->0@,
                        )),
                decreases n - j,
            {
                assert(schema.info_ok(i as int));
                assert(schema.field_ok(i as int, j as int));
                let field = &info.fields[j];
                if field.is_flatten {
                    proof {
                        lemma_type_ok_weakens(schema, field.ty);
                    }
                    let child = empty_node(schema, &field.ty);
                    slots.push(Some(child));
                } else {
                    slots.push(None);
                }
                j += 1;
            }
            let r = MaskNode { whole: false, slots };
            proof {
                let e = empty_mask(schema, *ty);
                assert(r@.slots.len() == e.slots.len());
                assert forall|k: int| 0 <= k < n implies r@.slots[k] == e.slots[k] by {
                    assert(r@.slots[k] == slot_view(slots@[k]));
                }
                assert(r@.slots =~= e.slots);
                assert forall|k: int| 0 <= k < n implies {
                    &&& schema.field(i as int, k).is_flatten ==> (#[trigger] r@.slots[k]) is Some
                    &&& r@.slots[k] is Some ==> fits(
                        schema,
                        schema.field(i as int, k).ty,
                        r@.slots[k]->0,
                    )
                } by {
                    assert(schema.info_ok(i as int));
                    assert(schema.field_ok(i as int, k));
                    assert(r@.slots[k] == slot_view(slots@[k]));
                }
                lemma_empty_is_not_full(schema, *ty);
            }
            r
        },
    }
}

/// In the mask of a type with slots that selects nothing, not every slot
/// holds the mask that selects everything.
pub proof fn lemma_empty_is_not_full(schema: &Schema, ty: TypeRef)
    requires
        schema.wf(),
        has_slots(schema, ty),
    ensures
        !all_full(schema, ty, empty_mask(schema, ty).slots),
        empty_mask(schema, ty) != full_mask(schema, ty),
{
    let i = core_index(ty);
    let e = empty_mask(schema, ty);
    assert(schema.info_ok(i));
    assert(schema.field_ok(i, 0));
    let f = schema.field(i, 0);
    if f.is_flatten {
        assert(has_slots(schema, f.ty));
        assert(e.slots[0] == Some(empty_mask(schema, f.ty)));
        assert(!empty_mask(schema, f.ty).whole);
    } else {
        assert(e.slots[0] is None);
    }
}

/// The mask of `ty` that selects everything.
pub fn full_node(schema: &Schema, ty: &TypeRef) -> (r: MaskNode)
    requires
        schema.type_ok(*ty, false),
    ensures
        r@ == full_mask(schema, *ty),
        fits(schema, *ty, r@),
{
    broadcast use group_mask_views;

    let slots: Vec<Option<MaskNode>> = Vec::new();
    let whole = schema.slot_owner(ty).is_some();
    let r = MaskNode { whole, slots };
    assert(r@.slots =~= Seq::<Option<MaskView>>::empty());
    r
}

/// Whether `node` is the mask of `ty` that selects nothing.
pub fn node_is_empty(schema: &Schema, ty: &TypeRef, node: &MaskNode) -> (b: bool)
    requires
        schema.wf(),
        schema.type_ok(*ty, false),
        fits(schema, *ty, node@),
    ensures
        b == (node@ == empty_mask(schema, *ty)),
    decreases core_rank(*ty),
{
    broadcast use group_mask_views;

    match schema.slot_owner(ty) {
        None => {
            assert(node@.slots =~= leaf_mask().slots);
            true
        },
        Some(i) => {
            if node.whole {
                return false;
            }
            let info = &schema.types[i];
            let n = info.fields.len();
            let mut j: usize = 0;
            while j < n
                invariant
                    schema.wf(),
                    has_slots(schema, *ty),
                    fits(schema, *ty, node@),
                    i == core_index(*ty),
                    i < schema.len(),
                    info == schema.types@[i as int],
                    n == schema.arity(i as int),
                    n == node.slots.len(),
                    j <= n,
                    forall|k: int|
                        0 <= k < j ==> (#[trigger] node@.slots[k]) == empty_mask(
                            schema,
                            *ty,
                        ).slots[k],
                decreases n - j,
            {
                assert(schema.info_ok(i as int));
                assert(schema.field_ok(i as int, j as int));
                assert(node@.slots[j as int] == slot_view(node.slots@[j as int]));
                let field = &info.fields[j];
                match &node.slots[j] {
                    Some(child) => {
                        if !field.is_flatten {
                            return false;
                        }
                        proof {
                            lemma_type_ok_weakens(schema, field.ty);
                        }
                        if !node_is_empty(schema, &field.ty, child) {
                            return false;
                        }
                    },
                    None => {},
                }
                j += 1;
            }
            assert(node@.slots =~= empty_mask(schema, *ty).slots);
            true
        },
    }
}

impl MaskNode {
    /// A copy of this node.
    pub fn duplicate(&self) -> (r: MaskNode)
        ensures
            r@ == self@,
        decreases *self,
    {
        broadcast use group_mask_views;

        let n = self.slots.len();
        let mut slots: Vec<Option<MaskNode>> = Vec::new();
        let mut j: usize = 0;
        while j < n
            invariant
                n == self.slots.len(),
                j <= n,
                slots.len() == j,
                forall|k: int|
                    0 <= k < j ==> slot_view(#[trigger] slots@[k]) == slot_view(self.slots@[k]),
            decreases n - j,
        {
            match &self.slots[j] {
                Some(child) => {
                    assert(decreases_to!(*self => self.slots));
                    assert(decreases_to!(self.slots => self.slots@));
                    assert(decreases_to!(self.slots@ => self.slots@[j as int]));
                    assert(decreases_to!(self.slots@[j as int] => self.slots@[j as int]->0));
                    slots.push(Some(child.duplicate()));
                },
                None => {
                    slots.push(None);
                },
            }
            j += 1;
        }
        let r = MaskNode { whole: self.whole, slots };
        assert(r@.slots =~= self@.slots);
        r
    }

    /// Whether this node and `other` select the same.
    pub fn equals(&self, other: &MaskNode) -> (b: bool)
        ensures
            b == (self@ == other@),
        decreases *self,
    {
        broadcast use group_mask_views;

        let n = self.slots.len();
        if self.whole != other.whole {
            return false;
        }
        if other.slots.len() != n {
            assert(self@.slots.len() != other@.slots.len());
            return false;
        }
        let mut j: usize = 0;
        while j < n
            invariant
                n == self.slots.len(),
                n == other.slots.len(),
                j <= n,
                forall|k: int| 0 <= k < j ==> (#[trigger] self@.slots[k]) == other@.slots[k],
            decreases n - j,
        {
            assert(self@.slots[j as int] == slot_view(self.slots@[j as int]));
            assert(other@.slots[j as int] == slot_view(other.slots@[j as int]));
            match (&self.slots[j], &other.slots[j]) {
                (Some(a), Some(b)) => {
                    assert(decreases_to!(*self => self.slots));
                    assert(decreases_to!(self.slots => self.slots@));
                    assert(decreases_to!(self.slots@ => self.slots@[j as int]));
                    assert(decreases_to!(self.slots@[j as int] => self.slots@[j as int]->0));
                    if !a.equals(b) {
                        return false;
                    }
                },
                (None, None) => {},
                _ => {
                    return false;
                },
            }
            j += 1;
        }
        assert(self@.slots =~= other@.slots);
        true
    }
}

/// The mask of `ty` that selects what `a` selects and what `b` selects:
/// whole where either is whole; else, slot by slot, a slot is present
/// where it is present in either, and where it is present in both it
/// holds the union of the two masks.
pub open spec fn union_mask(schema: &Schema, ty: TypeRef, a: MaskView, b: MaskView) -> MaskView
    decreases a, 1int,
{
    if a.whole || b.whole {
        whole_mask()
    } else {
        tidy(schema, ty, union_slots(schema, ty, a, b))
    }
}

/// The slots of the union of two masks of `ty` of which neither is whole.
pub open spec fn union_slots(schema: &Schema, ty: TypeRef, a: MaskView, b: MaskView) -> Seq<
    Option<MaskView>,
>
    decreases a, 0int,
{
    Seq::new(
        a.slots.len(),
        |j: int|
            if 0 <= j < a.slots.len() {
                if j < b.slots.len() {
                    match (a.slots[j], b.slots[j]) {
                        (Some(x), Some(y)) => Some(
                            union_mask(schema, schema.field(core_index(ty), j).ty, x, y),
                        ),
                        (Some(x), None) => Some(x),
                        (None, y) => y,
                    }
                } else {
                    a.slots[j]
                }
            } else {
                None
            },
    )
}

/// The union of two masks of one type is a mask of that type.
pub proof fn lemma_union_fits(schema: &Schema, ty: TypeRef, a: MaskView, b: MaskView)
    requires
        fits(schema, ty, a),
        fits(schema, ty, b),
    ensures
        fits(schema, ty, union_mask(schema, ty, a, b)),
    decreases a,
{
    if has_slots(schema, ty) && !a.whole && !b.whole {
        let i = core_index(ty);
        let u = union_mask(schema, ty, a, b);
        if !u.whole {
            assert forall|j: int| 0 <= j < schema.arity(i) implies {
                &&& schema.field(i, j).is_flatten ==> (#[trigger] u.slots[j]) is Some
                &&& u.slots[j] is Some ==> fits(schema, schema.field(i, j).ty, u.slots[j]->0)
            } by {
                if a.slots[j] is Some && b.slots[j] is Some {
                    lemma_union_fits(schema, schema.field(i, j).ty, a.slots[j]->0, b.slots[j]->0);
                }
            }
        }
    }
}

/// The union of two masks of one type does not depend on their order.
pub proof fn lemma_union_commutes(schema: &Schema, ty: TypeRef, a: MaskView, b: MaskView)
    requires
        fits(schema, ty, a),
        fits(schema, ty, b),
    ensures
        union_mask(schema, ty, a, b) == union_mask(schema, ty, b, a),
    decreases a,
{
    if !a.whole && !b.whole {
        let ab = union_slots(schema, ty, a, b);
        let ba = union_slots(schema, ty, b, a);
        if has_slots(schema, ty) {
            let i = core_index(ty);
            assert forall|j: int| 0 <= j < ab.len() implies ab[j] == ba[j] by {
                if a.slots[j] is Some && b.slots[j] is Some {
                    lemma_union_commutes(
                        schema,
                        schema.field(i, j).ty,
                        a.slots[j]->0,
                        b.slots[j]->0,
                    );
                }
            }
        }
        assert(ab =~= ba);
    }
}

/// The union of a mask of a type with itself is the mask.
pub proof fn lemma_union_is_idempotent(schema: &Schema, ty: TypeRef, a: MaskView)
    requires
        fits(schema, ty, a),
    ensures
        union_mask(schema, ty, a, a) == a,
    decreases a,
{
    if a.whole {
        assert(a.slots =~= whole_mask().slots);
    } else {
        let aa = union_slots(schema, ty, a, a);
        if has_slots(schema, ty) {
            let i = core_index(ty);
            assert forall|j: int| 0 <= j < a.slots.len() implies aa[j] == a.slots[j] by {
                if a.slots[j] is Some {
                    lemma_union_is_idempotent(schema, schema.field(i, j).ty, a.slots[j]->0);
                }
            }
        }
        assert(aa =~= a.slots);
    }
}

/// Whether every one of `slots`, the slots of a mask of the type with
/// index `i`, is present and holds the mask that selects everything.
pub fn slots_are_full(schema: &Schema, ty: &TypeRef, i: usize, slots: &Vec<Option<MaskNode>>) -> (b:
    bool)
    requires
        schema.wf(),
        has_slots(schema, *ty),
        i == core_index(*ty),
        slots.len() == schema.arity(i as int),
        forall|j: int|
            0 <= j < slots.len() && (#[trigger] slots@[j]) is Some ==> fits(
                schema,
                schema.field(i as int, j).ty,
                slots@[j]->0@,
            ),
    ensures
        b == all_full(schema, *ty, slot_views_of(slots@)),
{
    broadcast use group_mask_views;

    let info = &schema.types[i];
    let n = slots.len();
    let mut j: usize = 0;
    while j < n
        invariant
            schema.wf(),
            has_slots(schema, *ty),
            i == core_index(*ty),
            i < schema.len(),
            info == schema.types@[i as int],
            n == slots.len(),
            n == schema.arity(i as int),
            j <= n,
            forall|k: int|
                0 <= k < slots.len() && (#[trigger] slots@[k]) is Some ==> fits(
                    schema,
                    schema.field(i as int, k).ty,
                    slots@[k]->0@,
                ),
            forall|k: int|
                0 <= k < j ==> (#[trigger] slot_views_of(slots@)[k]) == Some(
                    full_mask(schema, schema.field(i as int, k).ty),
                ),
        decreases n - j,
    {
        assert(schema.info_ok(i as int));
        assert(schema.field_ok(i as int, j as int));
        assert(slot_views_of(slots@)[j as int] == slot_view(slots@[j as int]));
        let field = &info.fields[j];
        proof {
            lemma_type_ok_weakens(schema, field.ty);
        }
        let full = match &slots[j] {
            Some(child) => {
                assert(fits(schema, field.ty, child@));
                match schema.slot_owner(&field.ty) {
                    Some(_) => {
                        if child.whole {
                            assert(child@.slots =~= whole_mask().slots);
                        }
                        child.whole
                    },
                    None => {
                        assert(child@.slots =~= leaf_mask().slots);
                        true
                    },
                }
            },
            None => false,
        };
        if !full {
            return false;
        }
        j += 1;
    }
    true
}

impl MaskNode {
    /// The mask of `ty` that selects what this mask selects and what
    /// `other` selects.
    pub fn union(&self, other: &MaskNode, schema: &Schema, ty: &TypeRef) -> (r: MaskNode)
        requires
            schema.wf(),
            schema.type_ok(*ty, false),
            fits(schema, *ty, self@),
            fits(schema, *ty, other@),
        ensures
            r@ == union_mask(schema, *ty, self@, other@),
            fits(schema, *ty, r@),
        decreases *self,
    {
        broadcast use group_mask_views;

        proof {
            lemma_union_fits(schema, *ty, self@, other@);
        }
        let mut slots: Vec<Option<MaskNode>> = Vec::new();
        if self.whole || other.whole {
            let r = MaskNode { whole: true, slots };
            assert(r@.slots =~= whole_mask().slots);
            return r;
        }
        match schema.slot_owner(ty) {
            None => {
                let r = MaskNode { whole: false, slots };
                assert(r@.slots =~= union_slots(schema, *ty, self@, other@));
                r
            },
            Some(i) => {
                let info = &schema.types[i];
                let n = self.slots.len();
                let ghost expected = union_slots(schema, *ty, self@, other@);
                let mut j: usize = 0;
                while j < n
                    invariant
                        schema.wf(),
                        has_slots(schema, *ty),
                        i == core_index(*ty),
                        i < schema.len(),
                        info == schema.types@[i as int],
                        n == self.slots.len(),
                        n == other.slots.len(),
                        n == schema.arity(i as int),
                        !self.whole,
                        !other.whole,
                        fits(schema, *ty, self@),
                        fits(schema, *ty, other@),
                        expected.len() == n,
                        forall|k: int|
                            0 <= k < n ==> (#[trigger] expected[k]) == match (
                                self@.slots[k],
                                other@.slots[k],
                            ) {
                                (Some(x), Some(y)) => Some(
                                    union_mask(schema, schema.field(i as int, k).ty, x, y),
                                ),
                                (Some(x), None) => Some(x),
                                (None, y) => y,
                            },
                        j <= n,
                        slots.len() == j,
                        forall|k: int| 0 <= k < j ==> slot_view(#[trigger] slots@[k]) == expected[k],
                        forall|k: int|
                            0 <= k < j && (#[trigger] slots@[k]) is Some ==> fits(
                                schema,
                                schema.field(i as int, k).ty,
                                slots@[k]->0@,
                            ),
                    decreases n - j,
                {
                    assert(schema.info_ok(i as int));
                    assert(schema.field_ok(i as int, j as int));
                    assert(self@.slots[j as int] == slot_view(self.slots@[j as int]));
                    assert(other@.slots[j as int] == slot_view(other.slots@[j as int]));
                    assert(decreases_to!(*self => self.slots));
                    assert(decreases_to!(self.slots => self.slots@));
                    assert(decreases_to!(self.slots@ => self.slots@[j as int]));
                    let field = &info.fields[j];
                    proof {
                        lemma_type_ok_weakens(schema, field.ty);
                    }
                    let slot = match (&self.slots[j], &other.slots[j]) {
                        (Some(x), Some(y)) => {
                            assert(decreases_to!(self.slots@[j as int] => self.slots@[j as int]->0));
                            Some(x.union(y, schema, &field.ty))
                        },
                        (Some(x), None) => Some(x.duplicate()),
                        (None, Some(y)) => Some(y.duplicate()),
                        (None, None) => None,
                    };
                    slots.push(slot);
                    j += 1;
                }
                assert(slot_views_of(slots@) =~= expected);
                if slots_are_full(schema, ty, i, &slots) {
                    let r = MaskNode { whole: true, slots: Vec::new() };
                    assert(r@.slots =~= whole_mask().slots);
                    r
                } else {
                    MaskNode { whole: false, slots }
                }
            },
        }
    }
}

} // verus!
