//! Paths: which slots of a mask a dotted path selects.

use vstd::prelude::*;
use vstd::string::StringExecFns;
use crate::error::{DeserializeMaskError, MaskErrorView};
use crate::node::{
    core_index, empty_mask, empty_node, fits, full_mask, full_node, group_mask_views, has_slots,
    lemma_type_ok_weakens, slot_view, slots_are_full, tidy, MaskNode, MaskView,
};
use crate::schema::{core_of, core_rank, ScalarKind, Schema, TypeRef};

verus! {

/// The name of a scalar type.
pub open spec fn scalar_name(kind: ScalarKind) -> Seq<char> {
    match kind {
        ScalarKind::Bool => "bool"@,
        ScalarKind::Char => "char"@,
        ScalarKind::I8 => "i8"@,
        ScalarKind::I16 => "i16"@,
        ScalarKind::I32 => "i32"@,
        ScalarKind::I64 => "i64"@,
        ScalarKind::I128 => "i128"@,
        ScalarKind::Isize => "isize"@,
        ScalarKind::U8 => "u8"@,
        ScalarKind::U16 => "u16"@,
        ScalarKind::U32 => "u32"@,
        ScalarKind::U64 => "u64"@,
        ScalarKind::U128 => "u128"@,
        ScalarKind::Usize => "usize"@,
        ScalarKind::F32 => "f32"@,
        ScalarKind::F64 => "f64"@,
    }
}

/// The name by which an error refers to `ty`: that of its core.
pub open spec fn name_of_type(schema: &Schema, ty: TypeRef) -> Seq<char> {
    match core_of(ty) {
        TypeRef::Scalar(kind) => scalar_name(kind),
        TypeRef::Text => "String"@,
        TypeRef::Bytes => "Bytes"@,
        TypeRef::List(_) => "Vec"@,
        TypeRef::Mapping(_, _) => "HashMap"@,
        TypeRef::Message(i) => schema.types@[i as int].ident@,
        TypeRef::Optional(_) => "Option"@,
    }
}

/// The slots that `path` selects in a mask of `ty`, outermost first, when
/// the fields of `ty` before `from` have been tried in vain.
///
/// An empty path selects the value itself. Otherwise the fields are tried
/// in declaration order. A plain field takes the path when its name is the
/// first segment; the rest of the path is then resolved in its type, and a
/// failure there is reported as a failure inside the field. A flattened
/// field is offered the whole path; when its type has no such field, the
/// next field is tried. When no field takes the path, the first segment is
/// reported as not found.
pub open spec fn resolve(schema: &Schema, ty: TypeRef, path: Seq<Seq<char>>, from: nat) -> Result<
    Seq<usize>,
    MaskErrorView,
>
    decreases path.len(), core_rank(ty), schema.arity(core_index(ty)) - from,
{
    if path.len() == 0 {
        Ok(Seq::empty())
    } else if !has_slots(schema, ty) {
        Err(MaskErrorView::FieldNotFound { field: path[0], type_ident: name_of_type(schema, ty) })
    } else {
        let i = core_index(ty);
        if from >= schema.arity(i) {
            Err(
                MaskErrorView::FieldNotFound {
                    field: path[0],
                    type_ident: name_of_type(schema, ty),
                },
            )
        } else {
            let f = schema.field(i, from as int);
            if f.is_flatten {
                if core_rank(f.ty) <= i {
                    match resolve(schema, f.ty, path, 0) {
                        Ok(route) => Ok(seq![from as usize] + route),
                        Err(MaskErrorView::FieldNotFound { .. }) => resolve(
                            schema,
                            ty,
                            path,
                            from + 1,
                        ),
                        Err(e) => Err(e),
                    }
                } else {
                    resolve(schema, ty, path, from + 1)
                }
            } else if f.name@ == path[0] {
                match resolve(schema, f.ty, path.drop_first(), 0) {
                    Ok(route) => Ok(seq![from as usize] + route),
                    Err(e) => Err(MaskErrorView::InvalidField { field: f.name@, err: Box::new(e) }),
                }
            } else {
                resolve(schema, ty, path, from + 1)
            }
        }
    }
}

/// Whether `route` names a slot of `ty`, then a slot of that slot's type,
/// and so on.
pub open spec fn route_ok(schema: &Schema, ty: TypeRef, route: Seq<usize>) -> bool
    decreases route.len(),
{
    route.len() > 0 ==> {
        &&& has_slots(schema, ty)
        &&& route[0] < schema.arity(core_index(ty))
        &&& route_ok(schema, schema.field(core_index(ty), route[0] as int).ty, route.drop_first())
    }
}

/// The mask `m` of `ty` with what `route` ends at selected as a whole.
///
/// At the end of the route the mask becomes the mask that selects
/// everything of the type. Before the end, a mask that is whole stays as it
/// is, since it selects what the route ends at already; any other mask has
/// the slot that the route names made present, with the rest of the route
/// included in the mask of that slot, which starts from the mask that
/// selects nothing where the slot was absent. Where every slot then holds
/// the mask that selects everything, the result is the whole mask: the
/// selection of every field one by one is the mask that selects
/// everything.
pub open spec fn include_route(schema: &Schema, ty: TypeRef, m: MaskView, route: Seq<usize>) -> MaskView
    decreases route.len(),
{
    if route.len() == 0 {
        full_mask(schema, ty)
    } else if !m.whole && route[0] < m.slots.len() {
        let child_ty = schema.field(core_index(ty), route[0] as int).ty;
        let child = match m.slots[route[0] as int] {
            Some(c) => c,
            None => empty_mask(schema, child_ty),
        };
        tidy(
            schema,
            ty,
            m.slots.update(
                route[0] as int,
                Some(include_route(schema, child_ty, child, route.drop_first())),
            ),
        )
    } else {
        m
    }
}

/// The mask `m` of `ty` with the selection of `path` added, or the reason
/// why `path` selects nothing of `ty`.
///
/// A path selects the whole of what it ends at: the empty path the value
/// itself, a path that ends at a field the whole field.
pub open spec fn include_path(schema: &Schema, ty: TypeRef, m: MaskView, path: Seq<Seq<char>>) -> Result<
    MaskView,
    MaskErrorView,
> {
    match resolve(schema, ty, path, 0) {
        Ok(route) => Ok(include_route(schema, ty, m, route)),
        Err(e) => Err(e),
    }
}

/// The segments of a path, as sequences of characters.
pub open spec fn segments(path: &[&str]) -> Seq<Seq<char>> {
    Seq::new(path@.len(), |i: int| path@[i]@)
}

/// The texts of a sequence of strings, one for one.
pub open spec fn texts(strings: Seq<String>) -> Seq<Seq<char>> {
    Seq::new(strings.len(), |i: int| strings[i]@)
}

/// The segments between the dots of `entry`.
pub open spec fn split_at_dots(entry: Seq<char>) -> Seq<Seq<char>>
    decreases entry.len(),
{
    if entry.len() == 0 {
        seq![Seq::empty()]
    } else if entry.last() == '.' {
        split_at_dots(entry.drop_last()).push(Seq::empty())
    } else {
        let init = split_at_dots(entry.drop_last());
        init.drop_last().push(init.last().push(entry.last()))
    }
}

/// The segments of the path that `entry` writes: none for the empty
/// string, which stands for the value itself; otherwise what stands
/// between its dots.
pub open spec fn path_segments(entry: Seq<char>) -> Seq<Seq<char>> {
    if entry.len() == 0 {
        Seq::empty()
    } else {
        split_at_dots(entry)
    }
}

/// The name of a scalar type.
pub fn scalar_type_name(kind: ScalarKind) -> (r: String)
    ensures
        r@ == scalar_name(kind),
{
    match kind {
        ScalarKind::Bool => String::from_str("bool"),
        ScalarKind::Char => String::from_str("char"),
        ScalarKind::I8 => String::from_str("i8"),
        ScalarKind::I16 => String::from_str("i16"),
        ScalarKind::I32 => String::from_str("i32"),
        ScalarKind::I64 => String::from_str("i64"),
        ScalarKind::I128 => String::from_str("i128"),
        ScalarKind::Isize => String::from_str("isize"),
        ScalarKind::U8 => String::from_str("u8"),
        ScalarKind::U16 => String::from_str("u16"),
        ScalarKind::U32 => String::from_str("u32"),
        ScalarKind::U64 => String::from_str("u64"),
        ScalarKind::U128 => String::from_str("u128"),
        ScalarKind::Usize => String::from_str("usize"),
        ScalarKind::F32 => String::from_str("f32"),
        ScalarKind::F64 => String::from_str("f64"),
    }
}

impl Schema {
    /// The name by which an error refers to `ty`.
    pub fn type_name_of(&self, ty: &TypeRef) -> (r: String)
        requires
            self.type_ok(*ty, false),
        ensures
            r@ == name_of_type(self, *ty),
        decreases *ty,
    {
        match ty {
            TypeRef::Scalar(kind) => scalar_type_name(*kind),
            TypeRef::Text => String::from_str("String"),
            TypeRef::Bytes => String::from_str("Bytes"),
            TypeRef::List(_) => String::from_str("Vec"),
            TypeRef::Mapping(_, _) => String::from_str("HashMap"),
            TypeRef::Message(i) => self.types[*i].ident.clone(),
            TypeRef::Optional(inner) => self.type_name_of(&**inner),
        }
    }
}

/// A string has at least one segment between its dots.
pub proof fn lemma_split_is_not_empty(entry: Seq<char>)
    ensures
        split_at_dots(entry).len() >= 1,
    decreases entry.len(),
{
    if entry.len() > 0 {
        lemma_split_is_not_empty(entry.drop_last());
    }
}

/// Splits a path at its dots.
pub fn split_entry(entry: &str) -> (r: Vec<String>)
    ensures
        texts(r@) == path_segments(entry@),
{
    let n = entry.unicode_len();
    let mut out: Vec<String> = Vec::new();
    if n == 0 {
        assert(texts(out@) =~= path_segments(entry@));
        return out;
    }
    let mut start: usize = 0;
    let mut i: usize = 0;
    assert(entry@.take(0) =~= Seq::<char>::empty());
    assert(texts(out@).push(entry@.subrange(0, 0)) =~= seq![Seq::<char>::empty()]);
    while i < n
        invariant
            n == entry@.len(),
            start <= i <= n,
            split_at_dots(entry@.take(i as int)) == texts(out@).push(
                entry@.subrange(start as int, i as int),
            ),
        decreases n - i,
    {
        let ghost before = texts(out@);
        let ghost prefix = entry@.take(i as int);
        let ghost next = entry@.take(i + 1);
        assert(next.drop_last() =~= prefix);
        assert(next.last() == entry@[i as int]);
        let c = entry.get_char(i);
        if c == '.' {
            out.push(String::from_str(entry.substring_char(start, i)));
            assert(texts(out@) =~= before.push(entry@.subrange(start as int, i as int)));
            start = i + 1;
            assert(entry@.subrange(start as int, i + 1) =~= Seq::<char>::empty());
        } else {
            let ghost init = before.push(entry@.subrange(start as int, i as int));
            assert(init.drop_last() =~= before);
            assert(init.last().push(c) =~= entry@.subrange(start as int, i + 1));
        }
        i += 1;
    }
    let ghost before = texts(out@);
    out.push(String::from_str(entry.substring_char(start, n)));
    assert(texts(out@) =~= before.push(entry@.subrange(start as int, n as int)));
    assert(entry@.take(n as int) =~= entry@);
    out
}

/// Resolves the segments of `path` from position `pos` on against `ty`.
pub fn resolve_path(schema: &Schema, ty: &TypeRef, path: &Vec<String>, pos: usize) -> (r: Result<
    Vec<usize>,
    DeserializeMaskError,
>)
    requires
        schema.wf(),
        schema.type_ok(*ty, false),
        pos <= path@.len(),
    ensures
        match r {
            Ok(route) => resolve(schema, *ty, texts(path@).skip(pos as int), 0) == Ok::<
                Seq<usize>,
                MaskErrorView,
            >(route@) && route_ok(schema, *ty, route@),
            Err(e) => resolve(schema, *ty, texts(path@).skip(pos as int), 0) == Err::<
                Seq<usize>,
                MaskErrorView,
            >(e@),
        },
    decreases path@.len() - pos, core_rank(*ty),
{
    let ghost p = texts(path@).skip(pos as int);
    let len = path.len();
    if pos == len {
        return Ok(Vec::new());
    }
    let segment = path[pos].clone();
    assert(segment@ == p[0]);
    match schema.slot_owner(ty) {
        None => Err(
            DeserializeMaskError::FieldNotFound {
                field: segment,
                type_ident: schema.type_name_of(ty),
            },
        ),
        Some(i) => {
            let info = &schema.types[i];
            let n = info.fields.len();
            let mut j: usize = 0;
            while j < n
                invariant
                    schema.wf(),
                    schema.type_ok(*ty, false),
                    has_slots(schema, *ty),
                    i == core_index(*ty),
                    i < schema.len(),
                    info == schema.types@[i as int],
                    n == schema.arity(i as int),
                    j <= n,
                    pos < len,
                    len == path@.len(),
                    p == texts(path@).skip(pos as int),
                    segment@ == p[0],
                    resolve(schema, *ty, p, 0) == resolve(schema, *ty, p, j as nat),
                decreases n - j,
            {
                assert(schema.info_ok(i as int));
                assert(schema.field_ok(i as int, j as int));
                let field = &info.fields[j];
                proof {
                    lemma_type_ok_weakens(schema, field.ty);
                }
                if field.is_flatten {
                    match resolve_path(schema, &field.ty, path, pos) {
                        Ok(route) => {
                            let mut route = route;
                            let ghost inner = route@;
                            route.insert(0, j);
                            proof {
                                assert(route@ =~= seq![j] + inner);
                                assert(route@.drop_first() =~= inner);
                            }
                            return Ok(route);
                        },
                        Err(e) => match e {
                            DeserializeMaskError::FieldNotFound { field, type_ident } => {},
                            DeserializeMaskError::InvalidField { field, err } => {
                                return Err(DeserializeMaskError::InvalidField { field, err });
                            },
                        },
                    }
                } else if field.name == segment {
                    proof {
                        assert(p.drop_first() =~= texts(path@).skip(pos + 1));
                    }
                    match resolve_path(schema, &field.ty, path, pos + 1) {
                        Ok(route) => {
                            let mut route = route;
                            let ghost inner = route@;
                            route.insert(0, j);
                            proof {
                                assert(route@ =~= seq![j] + inner);
                                assert(route@.drop_first() =~= inner);
                            }
                            return Ok(route);
                        },
                        Err(e) => {
                            return Err(
                                DeserializeMaskError::InvalidField {
                                    field: field.name.clone(),
                                    err: Box::new(e),
                                },
                            );
                        },
                    }
                }
                j += 1;
            }
            Err(
                DeserializeMaskError::FieldNotFound {
                    field: segment,
                    type_ident: schema.type_name_of(ty),
                },
            )
        },
    }
}

/// Includes `route`, from position `pos` on, in `node`.
pub fn include_slots(
    schema: &Schema,
    ty: &TypeRef,
    node: &mut MaskNode,
    route: &Vec<usize>,
    pos: usize,
)
    requires
        schema.wf(),
        schema.type_ok(*ty, false),
        fits(schema, *ty, old(node)@),
        pos <= route.len(),
        route_ok(schema, *ty, route@.skip(pos as int)),
    ensures
        final(node)@ == include_route(schema, *ty, old(node)@, route@.skip(pos as int)),
        fits(schema, *ty, final(node)@),
    decreases route.len() - pos,
{
    broadcast use group_mask_views;

    if pos == route.len() {
        *node = full_node(schema, ty);
        return ;
    }
    if node.whole {
        return ;
    }
    let ghost rest = route@.skip(pos as int);
    let ghost before = node@;
    let k = route[pos];
    assert(rest[0] == k);
    assert(rest.drop_first() =~= route@.skip(pos + 1));
    match schema.slot_owner(ty) {
        None => {},
        Some(i) => {
            assert(schema.info_ok(i as int));
            assert(schema.field_ok(i as int, k as int));
            let child_ty = &schema.types[i].fields[k].ty;
            proof {
                lemma_type_ok_weakens(schema, *child_ty);
                assert(before.slots[k as int] == slot_view(node.slots@[k as int]));
            }
            let mut slot: Option<MaskNode> = None;
            std::mem::swap(&mut slot, &mut node.slots[k]);
            let mut child = match slot {
                Some(c) => c,
                None => empty_node(schema, child_ty),
            };
            include_slots(schema, child_ty, &mut child, route, pos + 1);
            node.slots[k] = Some(child);
            let ghost slots = before.slots.update(
                k as int,
                Some(
                    include_route(
                        schema,
                        *child_ty,
                        match before.slots[k as int] {
                            Some(c) => c,
                            None => empty_mask(schema, *child_ty),
                        },
                        rest.drop_first(),
                    ),
                ),
            );
            proof {
                assert(node@.slots.len() == slots.len());
                assert forall|j: int| 0 <= j < node@.slots.len() implies node@.slots[j]
                    == slots[j] by {
                    assert(node@.slots[j] == slot_view(node.slots@[j]));
                    assert(before.slots[j] == slot_view(old(node).slots@[j]));
                }
                assert(node@.slots =~= slots);
                assert forall|j: int| 0 <= j < schema.arity(i as int) implies {
                    &&& schema.field(i as int, j).is_flatten ==> (#[trigger] node@.slots[j]) is Some
                    &&& node@.slots[j] is Some ==> fits(
                        schema,
                        schema.field(i as int, j).ty,
                        node@.slots[j]->0,
                    )
                } by {
                    assert(node@.slots[j] == slot_view(node.slots@[j]));
                    assert(before.slots[j] == slot_view(old(node).slots@[j]));
                }
                assert forall|j: int|
                    0 <= j < node.slots.len() && (#[trigger] node.slots@[j]) is Some implies fits(
                    schema,
                    schema.field(i as int, j).ty,
                    node.slots@[j]->0@,
                ) by {
                    assert(node@.slots[j] == slot_view(node.slots@[j]));
                }
            }
            if slots_are_full(schema, ty, i, &node.slots) {
                *node = full_node(schema, ty);
            }
        },
    }
}

} // verus!
