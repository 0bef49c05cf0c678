use vstd::prelude::*;
use crate::parsed::PositionView;
use crate::shape_data::{ShapeDescription, ShapeDescriptionGut, SpecifiedGenericParam, SpecifiedShapeDefSignature, UnresolvedShape};
use crate::shape_errors::{
    ContentResolutionError, ContentResolutionErrorKind, ShapeDefinitionResolutionError,
    ShapeDefinitionResolutionErrorKind,
};
use crate::shape_keys::ShapeDescriptionKey;
use crate::shape_summary::GrandShapeContentSummaryAtWork;
use crate::type_description::param_names;

verus! {

/// Whether description `k` of `t` names a generic variable.
pub open spec fn is_generic_variable(t: Seq<ShapeDescription>, k: ShapeDescriptionKey) -> bool {
    t[k.0 as int].gut is Unresolved && t[k.0 as int].gut->Unresolved_0 is GenericVariable
}

/// The generic arguments a bound shape keeps of `args`: every argument that
/// is not a generic variable, as a specified argument, in order.
pub open spec fn specified_params(t: Seq<ShapeDescription>, args: Seq<ShapeDescriptionKey>) -> Seq<SpecifiedGenericParam>
    decreases args.len(),
{
    if args.len() == 0 {
        Seq::empty()
    } else {
        let before = specified_params(t, args.drop_last());
        if is_generic_variable(t, args.last()) {
            before
        } else {
            before.push(SpecifiedGenericParam::Specified(args.last()))
        }
    }
}

/// What binding to description `k` of `t` gives: an elementary shape as
/// itself; a shape defined at a route with the arguments it keeps
/// (`specified_params`); nothing for any other description.
pub open spec fn binds_as(t: Seq<ShapeDescription>, k: usize, res: Option<SpecifiedShapeDefSignature>) -> bool {
    match t[k as int].gut {
        ShapeDescriptionGut::Elementary(e) => res == Some(SpecifiedShapeDefSignature::Elementary(e)),
        ShapeDescriptionGut::Unresolved(UnresolvedShape::Specified(route, args)) => match res {
            Some(SpecifiedShapeDefSignature::Custom { route: r2, params }) => r2@ == route@ && params@
                == specified_params(t, args@),
            _ => false,
        },
        _ => res is None,
    }
}

/// The error that refuses description `k` of `t` as a bound shape: a
/// generic variable, or a description that is neither elementary nor a
/// defined shape.
pub open spec fn bind_refusal(t: Seq<ShapeDescription>, k: usize) -> Option<ContentResolutionErrorKind> {
    match t[k as int].gut {
        ShapeDescriptionGut::Elementary(_) => None,
        ShapeDescriptionGut::Unresolved(UnresolvedShape::Specified(_, _)) => None,
        ShapeDescriptionGut::Unresolved(UnresolvedShape::GenericVariable(_)) => Some(
            ContentResolutionErrorKind::InvalidBindGenericVariable,
        ),
        _ => Some(ContentResolutionErrorKind::InvalidBindType),
    }
}

/// Whether `new` is `old` with one error of content resolution of kind
/// `kind` at `pos` added.
pub open spec fn content_error_added(
    old: Seq<ShapeDefinitionResolutionError>,
    new: Seq<ShapeDefinitionResolutionError>,
    kind: ContentResolutionErrorKind,
    pos: PositionView,
) -> bool {
    &&& new.len() == old.len() + 1
    &&& new.take(old.len() as int) == old
    &&& new.last().position@ == pos
    &&& match new.last().kind {
        ShapeDefinitionResolutionErrorKind::ContentResolution(ce) => ce.kind == kind && ce.position@ == pos,
        _ => false,
    }
}

impl<'a> GrandShapeContentSummaryAtWork<'a> {
    /// Whether description `k` can be read as a bound shape: it and its
    /// context are stored, and where it is a defined shape, so is each of
    /// its arguments, and each argument that is a generic variable is a
    /// parameter of that context.
    pub open spec fn bindable(&self, k: usize) -> bool {
        let t = self.descriptions();
        let ctxs = self.gsc_summary.kv_tables.shape_description_context_table@;
        let gens = self.gsc_summary.kv_tables.generic_param_description_table@;
        &&& k < t.len()
        &&& t[k as int].context_key.0 < ctxs.len()
        &&& match t[k as int].gut {
            ShapeDescriptionGut::Unresolved(UnresolvedShape::Specified(_, args)) => forall|i: int|
                0 <= i < args@.len() ==> {
                    &&& (#[trigger] args@[i]).0 < t.len()
                    &&& match t[args@[i].0 as int].gut {
                        ShapeDescriptionGut::Unresolved(UnresolvedShape::GenericVariable(n)) => match ctxs[t[k as int].context_key.0 as int].generic_param_key {
                            Some(g) => g.0 < gens.len() && param_names(gens[g.0 as int].params@).contains(n@),
                            None => false,
                        },
                        _ => true,
                    }
                },
            _ => true,
        }
    }

    /// Adds an error of content resolution of kind `kind` at the position
    /// of description `k`.
    fn add_content_error(&mut self, k: ShapeDescriptionKey, kind: ContentResolutionErrorKind)
        requires
            k.0 < old(self).descriptions().len(),
            kind == ContentResolutionErrorKind::InvalidBindType
                || kind == ContentResolutionErrorKind::BindOperationTypeMismatch
                || kind == ContentResolutionErrorKind::InvalidBindGenericVariable,
        ensures
            final(self).same_but_errors(*old(self)),
            content_error_added(
                old(self).gsc_summary.errors@,
                final(self).gsc_summary.errors@,
                kind,
                old(self).descriptions()[k.0 as int].pos@,
            ),
    {
        let ghost before = self.gsc_summary.errors@;
        let pos = self.gsc_summary.kv_tables.shape_description_table[k.0].pos.duplicate();
        let ce = match kind {
            ContentResolutionErrorKind::InvalidBindType => ContentResolutionError::invalid_bind_type(pos),
            ContentResolutionErrorKind::BindOperationTypeMismatch => ContentResolutionError::bind_operation_type_mismatch(pos),
            _ => ContentResolutionError::invalid_bind_generic_variable(pos),
        };
        self.add_error(ShapeDefinitionResolutionError::from_content_resolution(ce));
        proof {
            assert(self.gsc_summary.errors@.take(before.len() as int) =~= before);
        }
    }

    /// The shape a definition binds to, read off description
    /// `shape_des_key` (see `binds_as`); a description that cannot be bound
    /// is reported in the errors (see `bind_refusal`), and nothing else
    /// changes.
    pub fn extract_specified_shape(&mut self, shape_des_key: ShapeDescriptionKey) -> (res: Option<SpecifiedShapeDefSignature>)
        requires
            old(self).bindable(shape_des_key.0),
        ensures
            binds_as(old(self).descriptions(), shape_des_key.0, res),
            match bind_refusal(old(self).descriptions(), shape_des_key.0) {
                Some(kind) => final(self).same_but_errors(*old(self)) && content_error_added(
                    old(self).gsc_summary.errors@,
                    final(self).gsc_summary.errors@,
                    kind,
                    old(self).descriptions()[shape_des_key.0 as int].pos@,
                ),
                None => *final(self) == *old(self),
            },
    {
        let ghost t = self.descriptions();
        let form: u8 = match &self.gsc_summary.kv_tables.shape_description_table[shape_des_key.0].gut {
            ShapeDescriptionGut::Elementary(e) => {
                return Some(SpecifiedShapeDefSignature::Elementary(*e));
            },
            ShapeDescriptionGut::Unresolved(UnresolvedShape::GenericVariable(_)) => 0,
            ShapeDescriptionGut::Unresolved(UnresolvedShape::Specified(route, args)) => {
                let r = route.duplicate();
                let mut params: Vec<SpecifiedGenericParam> = Vec::new();
                let mut i: usize = 0;
                while i < args.len()
                    invariant
                        t == self.descriptions(),
                        self.bindable(shape_des_key.0),
                        t[shape_des_key.0 as int].gut == ShapeDescriptionGut::Unresolved(UnresolvedShape::Specified(*route, *args)),
                        i <= args@.len(),
                        params@ == specified_params(t, args@.take(i as int)),
                    decreases args.len() - i,
                {
                    let k = args[i];
                    let generic = match &self.gsc_summary.kv_tables.shape_description_table[k.0].gut {
                        ShapeDescriptionGut::Unresolved(UnresolvedShape::GenericVariable(_)) => true,
                        _ => false,
                    };
                    if !generic {
                        params.push(SpecifiedGenericParam::Specified(k));
                    }
                    proof {
                        let s = args@.take(i + 1);
                        assert(s.drop_last() =~= args@.take(i as int));
                        assert(s.last() == k);
                    }
                    i = i + 1;
                }
                proof {
                    assert(args@.take(i as int) =~= args@);
                }
                return Some(SpecifiedShapeDefSignature::Custom { route: r, params });
            },
            _ => 1,
        };
        if form == 0 {
            self.add_content_error(shape_des_key, ContentResolutionErrorKind::InvalidBindGenericVariable);
        } else {
            self.add_content_error(shape_des_key, ContentResolutionErrorKind::InvalidBindType);
        }
        None
    }

    /// The shape a bind binds to, read off the function shape
    /// `closure_shape_des_key`: that of its one argument (see
    /// `extract_specified_shape`); a function shape with another number of
    /// arguments is reported in the errors.
    pub fn extract_binded_shape(&mut self, closure_shape_des_key: ShapeDescriptionKey) -> (res: Option<SpecifiedShapeDefSignature>)
        requires
            closure_shape_des_key.0 < old(self).descriptions().len(),
            old(self).descriptions()[closure_shape_des_key.0 as int].context_key.0
                < old(self).gsc_summary.kv_tables.shape_description_context_table@.len(),
            old(self).descriptions()[closure_shape_des_key.0 as int].gut is Function,
            old(self).descriptions()[closure_shape_des_key.0 as int].gut->Function_args@.len() == 1 ==> old(self).bindable(
                old(self).descriptions()[closure_shape_des_key.0 as int].gut->Function_args@[0].0,
            ),
        ensures
            ({
                let t = old(self).descriptions();
                let args = t[closure_shape_des_key.0 as int].gut->Function_args@;
                if args.len() == 1 {
                    &&& binds_as(t, args[0].0, res)
                    &&& match bind_refusal(t, args[0].0) {
                        Some(kind) => final(self).same_but_errors(*old(self)) && content_error_added(
                            old(self).gsc_summary.errors@,
                            final(self).gsc_summary.errors@,
                            kind,
                            t[args[0].0 as int].pos@,
                        ),
                        None => *final(self) == *old(self),
                    }
                } else {
                    &&& res is None
                    &&& final(self).same_but_errors(*old(self))
                    &&& content_error_added(
                        old(self).gsc_summary.errors@,
                        final(self).gsc_summary.errors@,
                        ContentResolutionErrorKind::BindOperationTypeMismatch,
                        t[closure_shape_des_key.0 as int].pos@,
                    )
                }
            }),
    {
        let first = match &self.gsc_summary.kv_tables.shape_description_table[closure_shape_des_key.0].gut {
            ShapeDescriptionGut::Function { args, ret: _ } => if args.len() == 1 {
                Some(args[0])
            } else {
                None
            },
            _ => None,
        };
        match first {
            Some(k) => self.extract_specified_shape(k),
            None => {
                self.add_content_error(closure_shape_des_key, ContentResolutionErrorKind::BindOperationTypeMismatch);
                None
            },
        }
    }
}

} // verus!
