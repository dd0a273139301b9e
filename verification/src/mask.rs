//! Masks of a type of a schema, and the operations that take one.

use vstd::prelude::*;
use vstd::string::StringExecFns;
use crate::error::{DeserializeFieldMaskError, DeserializeMaskError, MaskErrorView};
use crate::merge::{merge_value, merge_view};
use crate::node::{
    empty_mask, empty_node, fits, full_mask, full_node,
    node_is_empty, union_mask, MaskNode, MaskView,
};
use crate::options::{ProjectOptions, UpdateOptions};
use crate::path::{
    include_path, include_slots, path_segments, resolve, resolve_path, segments, split_entry,
    texts,
};
use crate::project::{project_value, project_view};
use crate::schema::{Schema, TypeRef};
use crate::typing::conforms_view;
use crate::update::{update_value, update_view};
use crate::value::Value;

verus! {

/// A mask of one type of a schema.
#[derive(Debug)]
pub struct Mask<'a> {
    schema: &'a Schema,
    ty: TypeRef,
    node: MaskNode,
}

/// The paths from which a mask is built.
pub struct MaskInput<T>(pub T);

impl<'a> View for Mask<'a> {
    type V = MaskView;

    closed spec fn view(&self) -> MaskView {
        self.node@
    }
}

/// The mask `m` with the selection of each of `entries` added in turn, or
/// the error of the first entry that selects nothing of `ty`.
pub open spec fn include_all(
    schema: &Schema,
    ty: TypeRef,
    m: MaskView,
    entries: Seq<Seq<char>>,
) -> Result<MaskView, MaskErrorView>
    decreases entries.len(),
{
    if entries.len() == 0 {
        Ok(m)
    } else {
        match include_path(schema, ty, m, path_segments(entries[0])) {
            Ok(next) => include_all(schema, ty, next, entries.drop_first()),
            Err(e) => Err(e),
        }
    }
}

/// The mask of `ty` that the paths `entries` select, or the error of the
/// first of them that selects nothing of `ty`.
pub open spec fn build(schema: &Schema, ty: TypeRef, entries: Seq<Seq<char>>) -> Result<
    MaskView,
    MaskErrorView,
> {
    include_all(schema, ty, empty_mask(schema, ty), entries)
}

/// The mask that an update at the top level goes by: the mask that selects
/// everything in place of the mask that selects nothing.
pub open spec fn effective_mask(schema: &Schema, ty: TypeRef, m: MaskView) -> MaskView {
    if m == empty_mask(schema, ty) {
        full_mask(schema, ty)
    } else {
        m
    }
}

impl<'a> Mask<'a> {
    /// The schema that this mask belongs to.
    pub closed spec fn schema(&self) -> &'a Schema {
        self.schema
    }

    /// The type that this mask is a mask of.
    pub closed spec fn ty(&self) -> TypeRef {
        self.ty
    }

    /// The schema is well formed, the type is known to it, and the mask is
    /// a mask of the type.
    pub open spec fn wf(&self) -> bool {
        &&& self.schema().wf()
        &&& self.schema().type_ok(self.ty(), false)
        &&& fits(self.schema(), self.ty(), self@)
    }

    /// Returns the mask that selects no field.
    ///
    /// For a leaf this is also the mask that selects everything.
    pub fn empty(schema: &'a Schema, ty: TypeRef) -> (r: Mask<'a>)
        requires
            schema.wf(),
            schema.type_ok(ty, false),
        ensures
            r.wf(),
            r.schema() == schema,
            r.ty() == ty,
            r@ == empty_mask(schema, ty),
    {
        let node = empty_node(schema, &ty);
        Mask { schema, ty, node }
    }

    /// Returns the mask that selects every field.
    pub fn full(schema: &'a Schema, ty: TypeRef) -> (r: Mask<'a>)
        requires
            schema.wf(),
            schema.type_ok(ty, false),
        ensures
            r.wf(),
            r.schema() == schema,
            r.ty() == ty,
            r@ == full_mask(schema, ty),
    {
        let node = full_node(schema, &ty);
        Mask { schema, ty, node }
    }

    /// Whether this mask and `other` select the same. Only what they
    /// select is compared, not the types that they are masks of.
    pub fn equals(&self, other: &Mask) -> (b: bool)
        ensures
            b == (self@ == other@),
    {
        self.node.equals(&other.node)
    }

    /// The mask that selects what this mask selects and what `other`, a
    /// mask of the same type, selects.
    pub fn union(&self, other: &Mask<'a>) -> (r: Mask<'a>)
        requires
            self.wf(),
            other.wf(),
            other.schema() == self.schema(),
            other.ty() == self.ty(),
        ensures
            r@ == union_mask(self.schema(), self.ty(), self@, other@),
            r.wf(),
            r.schema() == self.schema(),
            r.ty() == self.ty(),
    {
        let node = self.node.union(&other.node, self.schema, &self.ty);
        Mask { schema: self.schema, ty: self.ty.duplicate(), node }
    }

    /// A copy of this mask.
    pub fn duplicate(&self) -> (r: Mask<'a>)
        ensures
            r@ == self@,
            r.schema() == self.schema(),
            r.ty() == self.ty(),
    {
        Mask { schema: self.schema, ty: self.ty.duplicate(), node: self.node.duplicate() }
    }

    /// Whether this is the mask that selects no field.
    pub fn is_empty(&self) -> (b: bool)
        requires
            self.wf(),
        ensures
            b == (self@ == empty_mask(self.schema(), self.ty())),
    {
        node_is_empty(self.schema, &self.ty, &self.node)
    }

    /// Adds the selection of the path with the segments `path`.
    fn include_segments(&mut self, path: &Vec<String>) -> (r: Result<(), DeserializeMaskError>)
        requires
            old(self).wf(),
        ensures
            final(self).wf(),
            final(self).schema() == old(self).schema(),
            final(self).ty() == old(self).ty(),
            match r {
                Ok(_) => include_path(old(self).schema(), old(self).ty(), old(self)@, texts(path@))
                    == Ok::<MaskView, MaskErrorView>(final(self)@),
                Err(e) => include_path(old(self).schema(), old(self).ty(), old(self)@, texts(path@))
                    == Err::<MaskView, MaskErrorView>(e@) && final(self)@ == old(self)@,
            },
    {
        proof {
            assert(texts(path@).skip(0) =~= texts(path@));
        }
        match resolve_path(self.schema, &self.ty, path, 0) {
            Ok(route) => {
                assert(route@.skip(0) =~= route@);
                include_slots(self.schema, &self.ty, &mut self.node, &route, 0);
                Ok(())
            },
            Err(e) => Err(e),
        }
    }

    /// Includes the field that `field_path` names: a path split at its
    /// dots.
    ///
    /// On success the mask selects what it selected before and the whole
    /// of the field. On failure the mask is unchanged. The empty path
    /// selects everything.
    pub fn include_field(&mut self, field_path: &[&str]) -> (r: Result<(), DeserializeMaskError>)
        requires
            old(self).wf(),
        ensures
            final(self).wf(),
            final(self).schema() == old(self).schema(),
            final(self).ty() == old(self).ty(),
            match r {
                Ok(_) => include_path(
                    old(self).schema(),
                    old(self).ty(),
                    old(self)@,
                    segments(field_path),
                ) == Ok::<MaskView, MaskErrorView>(final(self)@),
                Err(e) => include_path(
                    old(self).schema(),
                    old(self).ty(),
                    old(self)@,
                    segments(field_path),
                ) == Err::<MaskView, MaskErrorView>(e@) && final(self)@ == old(self)@,
            },
    {
        let mut path: Vec<String> = Vec::new();
        let n = field_path.len();
        let mut i: usize = 0;
        while i < n
            invariant
                n == field_path@.len(),
                i <= n,
                path.len() == i,
                forall|k: int| 0 <= k < i ==> (#[trigger] path@[k])@ == field_path@[k]@,
            decreases n - i,
        {
            path.push(String::from_str(field_path[i]));
            i += 1;
        }
        assert(texts(path@) =~= segments(field_path));
        self.include_segments(&path)
    }

    /// Builds the mask of `ty` that the paths of `value` select. Each path
    /// is split at its dots; the empty string is the empty path.
    pub fn try_from(schema: &'a Schema, ty: TypeRef, value: MaskInput<Vec<&str>>) -> (r: Result<
        Mask<'a>,
        DeserializeMaskError,
    >)
        requires
            schema.wf(),
            schema.type_ok(ty, false),
        ensures
            match r {
                Ok(mask) => {
                    &&& build(schema, ty, texts_of(value.0@)) == Ok::<MaskView, MaskErrorView>(mask@)
                    &&& mask.wf()
                    &&& mask.schema() == schema
                    &&& mask.ty() == ty
                },
                Err(e) => build(schema, ty, texts_of(value.0@)) == Err::<MaskView, MaskErrorView>(
                    e@,
                ),
            },
    {
        match Mask::try_from_entries(schema, ty, &value.0) {
            Ok(mask) => Ok(mask),
            Err(failure) => Err(failure.err),
        }
    }

    /// Builds the mask of `ty` that the paths `entries` select, as
    /// `try_from` does, and says which path failed where one does: the
    /// first that selects nothing of `ty`.
    pub fn try_from_entries(schema: &'a Schema, ty: TypeRef, entries: &Vec<&str>) -> (r: Result<
        Mask<'a>,
        DeserializeFieldMaskError,
    >)
        requires
            schema.wf(),
            schema.type_ok(ty, false),
        ensures
            match r {
                Ok(mask) => {
                    &&& build(schema, ty, texts_of(entries@)) == Ok::<MaskView, MaskErrorView>(mask@)
                    &&& mask.wf()
                    &&& mask.schema() == schema
                    &&& mask.ty() == ty
                },
                Err(e) => {
                    &&& build(schema, ty, texts_of(entries@)) == Err::<MaskView, MaskErrorView>(
                        e.err@,
                    )
                    &&& e.index < entries@.len()
                    &&& e.entry@ == entries@[e.index as int]@
                    &&& resolve(schema, ty, path_segments(entries@[e.index as int]@), 0) == Err::<
                        Seq<usize>,
                        MaskErrorView,
                    >(e.err@)
                    &&& forall|q: int|
                        0 <= q < e.index ==> resolve(
                            schema,
                            ty,
                            path_segments((#[trigger] entries@[q])@),
                            0,
                        ) is Ok
                },
            },
    {
        let mut mask = Mask::empty(schema, ty);
        let ghost all = texts_of(entries@);
        let n = entries.len();
        let mut i: usize = 0;
        assert(all.skip(0) =~= all);
        while i < n
            invariant
                n == entries.len(),
                i <= n,
                all == texts_of(entries@),
                mask.wf(),
                mask.schema() == schema,
                mask.ty() == ty,
                build(schema, ty, all) == include_all(schema, ty, mask@, all.skip(i as int)),
                forall|q: int|
                    0 <= q < i ==> resolve(
                        schema,
                        ty,
                        path_segments((#[trigger] entries@[q])@),
                        0,
                    ) is Ok,
            decreases n - i,
        {
            let path = split_entry(entries[i]);
            let ghost rest = all.skip(i as int);
            assert(all[i as int] == entries@[i as int]@);
            assert(rest[0] == entries@[i as int]@);
            assert(rest.drop_first() =~= all.skip(i + 1));
            let ghost before = mask@;
            assert(rest.len() > 0);
            match mask.include_segments(&path) {
                Ok(_) => {
                    assert(include_all(schema, ty, before, rest) == include_all(
                        schema,
                        ty,
                        mask@,
                        rest.drop_first(),
                    ));
                },
                Err(e) => {
                    assert(include_all(schema, ty, before, rest) == Err::<MaskView, MaskErrorView>(
                        e@,
                    ));
                    return Err(
                        DeserializeFieldMaskError {
                            index: i,
                            entry: String::from_str(entries[i]),
                            err: e,
                        },
                    );
                },
            }
            i += 1;
        }
        Ok(mask)
    }

    /// Projects the fields of `source` by this mask.
    ///
    /// The mask that selects no field keeps everything.
    pub fn project(&self, source: Value) -> (r: Value)
        requires
            self.wf(),
            self.schema().type_ok(self.ty(), true),
            conforms_view(self.schema(), source@, self.ty()),
        ensures
            r@ == project_view(self.schema(), self.ty(), source@, self@, false),
            conforms_view(self.schema(), r@, self.ty()),
    {
        project_value(self.schema, &self.ty, source, &self.node, false)
    }

    /// The same as `project`, with options.
    pub fn project_with_options(&self, source: Value, options: &ProjectOptions) -> (r: Value)
        requires
            self.wf(),
            self.schema().type_ok(self.ty(), true),
            conforms_view(self.schema(), source@, self.ty()),
        ensures
            r@ == project_view(self.schema(), self.ty(), source@, self@, options.normalize),
            conforms_view(self.schema(), r@, self.ty()),
    {
        project_value(self.schema, &self.ty, source, &self.node, options.normalize)
    }

    /// Updates the fields of `target` from those of `source` by this mask.
    ///
    /// The mask that selects no field is taken as the mask that selects
    /// every field.
    pub fn update(&self, target: &mut Value, source: Value)
        requires
            self.wf(),
            self.schema().type_ok(self.ty(), true),
            conforms_view(self.schema(), old(target)@, self.ty()),
            conforms_view(self.schema(), source@, self.ty()),
        ensures
            final(target)@ == update_view(
                self.schema(),
                self.ty(),
                old(target)@,
                source@,
                effective_mask(self.schema(), self.ty(), self@),
                (UpdateOptions { replace_repeated: false, replace_message: false }),
            ),
            conforms_view(self.schema(), final(target)@, self.ty()),
    {
        let options = UpdateOptions { replace_repeated: false, replace_message: false };
        self.update_with_options(target, source, &options);
    }

    /// The same as `update`, with options.
    pub fn update_with_options(&self, target: &mut Value, source: Value, options: &UpdateOptions)
        requires
            self.wf(),
            self.schema().type_ok(self.ty(), true),
            conforms_view(self.schema(), old(target)@, self.ty()),
            conforms_view(self.schema(), source@, self.ty()),
        ensures
            final(target)@ == update_view(
                self.schema(),
                self.ty(),
                old(target)@,
                source@,
                effective_mask(self.schema(), self.ty(), self@),
                *options,
            ),
            conforms_view(self.schema(), final(target)@, self.ty()),
    {
        let mut held = Value::Bool(false);
        std::mem::swap(&mut held, target);
        if node_is_empty(self.schema, &self.ty, &self.node) {
            let all = full_node(self.schema, &self.ty);
            *target = update_value(self.schema, &self.ty, held, source, &all, options);
        } else {
            *target = update_value(self.schema, &self.ty, held, source, &self.node, options);
        }
    }
}

/// The texts of a sequence of string slices, one for one.
pub open spec fn texts_of(entries: Seq<&str>) -> Seq<Seq<char>> {
    Seq::new(entries.len(), |i: int| entries[i]@)
}

impl Schema {
    /// Merges `source` into `target`, both of type `ty`.
    pub fn merge(&self, ty: &TypeRef, target: &mut Value, source: Value, options: &UpdateOptions)
        requires
            self.wf(),
            self.type_ok(*ty, true),
            conforms_view(self, old(target)@, *ty),
            conforms_view(self, source@, *ty),
        ensures
            final(target)@ == merge_view(self, *ty, old(target)@, source@, *options),
            conforms_view(self, final(target)@, *ty),
    {
        let mut held = Value::Bool(false);
        std::mem::swap(&mut held, target);
        *target = merge_value(self, ty, held, source, options);
    }
}

} // verus!
