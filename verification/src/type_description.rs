use vstd::prelude::*;
use crate::ast::{IdentifierType, StructCase, StructCaseValue, TemplateCall, TemplateDef, Type, TypeAnnotation, TypeGut};
use crate::def_signature::SkeletonDefSignatureKind;
use crate::elementary_shape::{core_type, core_type_from_name, ElementaryShape};
use crate::lookup_canonical_route::cell_tables;
use crate::keyed::KeyedMap;
use crate::lookup_route::{rid_kind, RidShapeView, RidToShapeRouteResult};
use crate::shape_errors::{ContentResolutionError, ContentResolutionErrorKind, LookUpRouteError, ShapeDefinitionResolutionError, ShapeDefinitionResolutionErrorKind, ShapeDescriptionResolutionError};
use crate::module_skeleton::SkeletonTableView;
use crate::parsed::{Identifier, ParsedBox};
use crate::route::{Route, RouteView};
use crate::shape_data::{
    GenericParamDef, GenericParamDescription, ShapeDescription, ShapeDescriptionContext, ShapeDescriptionGut,
    ShapeVarianceAnnotation, UnresolvedShape,
};
use crate::shape_keys::{GenericParamDescriptionKey, ShapeDescriptionContextKey, ShapeDescriptionKey};
use crate::shape_summary::{GrandShapeContentSummary, GrandShapeContentSummaryAtWork, KVTables};

verus! {

/// What reading a written type consults besides the descriptions: the
/// module it is read in, the pattern variables bound there (if the context
/// binds any), the names of the generic parameters in scope (if the context
/// has generic parameters), and the name tables of the cells.
pub struct Reading {
    pub module_route: RouteView,
    pub patterns: Option<Map<Seq<char>, ShapeDescriptionKey>>,
    pub param_names: Option<Seq<Seq<char>>>,
    pub tables: Map<Seq<char>, SkeletonTableView>,
}

/// The names of generic parameters, in order.
pub open spec fn param_names(params: Seq<GenericParamDef>) -> Seq<Seq<char>> {
    params.map_values(|p: GenericParamDef| p.name_of())
}

/// What `s` holds for reading written types in context `c`.
pub open spec fn reading_of(s: GrandShapeContentSummaryAtWork, c: usize) -> Reading {
    let ctx = s.gsc_summary.kv_tables.shape_description_context_table@[c as int];
    Reading {
        module_route: ctx.module_route@,
        patterns: match ctx.definition_pattern_variable_types {
            Some(m) => Some(m.as_map()),
            None => None,
        },
        param_names: match ctx.generic_param_key {
            Some(g) => Some(param_names(s.gsc_summary.kv_tables.generic_param_description_table@[g.0 as int].params@)),
            None => None,
        },
        tables: cell_tables(&s.grand_module_skeleton_table.cell_module_skeleton_table),
    }
}

/// The variance a type annotation stands for.
pub open spec fn variance_of(a: TypeAnnotation) -> ShapeVarianceAnnotation {
    match a {
        TypeAnnotation::Covariant => ShapeVarianceAnnotation::Covariant,
        TypeAnnotation::Contravariant => ShapeVarianceAnnotation::Contravariant,
        TypeAnnotation::Invariant => ShapeVarianceAnnotation::Invariant,
    }
}

/// The description the pattern variable `name` stands for, where the
/// reading binds pattern variables and `name` is one of them.
pub open spec fn pattern_type(r: Reading, name: Seq<char>) -> Option<usize> {
    match r.patterns {
        Some(m) => if m.dom().contains(name) {
            Some(m[name].0)
        } else {
            None
        },
        None => None,
    }
}

/// What a named type stands for.
pub enum NameReading {
    /// A pattern variable of the definition, bound to this description.
    PatternVariable(usize),
    /// A generic parameter in scope.
    GenericVariable,
    /// A generic parameter given generic arguments (refused).
    GenericTemplateCall,
    /// The shape defined at this route.
    Specified(RouteView),
    /// A definition of another kind than a shape (refused).
    KindDifferent,
    /// Nothing by that name (refused).
    NotFound,
    /// A core type.
    Core(ElementaryShape),
    /// A core type given generic arguments (refused).
    CoreTemplateCall,
    /// A route whose first name is no known root (refused).
    UnknownRoot,
    /// A route made of a cell name or a relative keyword alone (refused).
    NotAllowed,
}

/// How the named type `id` reads as `r`: a bare name without
/// generic arguments is first a pattern variable of the context; a bare
/// name is then a generic parameter in scope; otherwise the name is looked
/// up as a shape from the context's module, and a bare name that is no known
/// root is finally a core type.
pub open spec fn name_reading(r: Reading, id: IdentifierType) -> NameReading {
    let rid = id.rid.value;
    let name = rid.this_id.value.name@;
    let bare = rid.route.len() == 0;
    if bare && id.template_call is None && pattern_type(r, name) is Some {
        NameReading::PatternVariable(pattern_type(r, name).unwrap())
    } else if bare && r.param_names is Some && r.param_names.unwrap().contains(name) {
        if id.template_call is Some {
            NameReading::GenericTemplateCall
        } else {
            NameReading::GenericVariable
        }
    } else {
        match rid_kind(r.tables, rid.names(), SkeletonDefSignatureKind::Shape, r.module_route) {
            RidShapeView::Found(route) => NameReading::Specified(route),
            RidShapeView::RouteExistsButKindDifferent { .. } => NameReading::KindDifferent,
            RidShapeView::RouteNotFound => NameReading::NotFound,
            RidShapeView::UnknownRootRouteFraction => if bare && core_type(name) is Some {
                if id.template_call is Some {
                    NameReading::CoreTemplateCall
                } else {
                    NameReading::Core(core_type(name).unwrap())
                }
            } else {
                NameReading::UnknownRoot
            },
            RidShapeView::SingleCellOrRelativeKeywordRouteNotAllowed => NameReading::NotAllowed,
        }
    }
}

/// Whether context `c` of `s` can be read: it is stored, and so is its
/// generic parameter description where it names one.
pub open spec fn context_readable(s: GrandShapeContentSummaryAtWork, c: usize) -> bool {
    let t = s.gsc_summary.kv_tables;
    &&& c < t.shape_description_context_table@.len()
    &&& match t.shape_description_context_table@[c as int].generic_param_key {
        Some(g) => g.0 < t.generic_param_description_table@.len(),
        None => true,
    }
}

/// Whether the written type `pb` reads into a description, read as `r`:
/// every named type in it reads as a pattern variable, a generic parameter
/// without generic arguments, a core type without generic arguments, or a
/// shape with generic arguments that all read; a struct type reads where
/// `struct_refused` does not refuse its fields (a field whose own type does
/// not read is left out of the struct).
pub open spec fn type_reads(r: Reading, pb: ParsedBox<Type>) -> bool
    decreases pb,
{
    match pb.value.gut {
        TypeGut::Unit => true,
        TypeGut::Identifier(id) => match name_reading(r, id) {
            NameReading::PatternVariable(_) => true,
            NameReading::GenericVariable => true,
            NameReading::Core(_) => true,
            NameReading::Specified(_) => match id.template_call {
                Some(tc) => all_read(r, tc.value.args@),
                None => false,
            },
            _ => false,
        },
        TypeGut::ParenSingle(inner) => type_reads(r, *inner),
        TypeGut::Tuple(tt) => all_read(r, tt.entries@),
        TypeGut::Array(inner) => type_reads(r, *inner),
        TypeGut::Mapping(a, b) => type_reads(r, *a) && type_reads(r, *b),
        TypeGut::Struct(st) => !struct_refused(r, st.entries@),
        TypeGut::Function(args, ret) => all_read(r, args@) && type_reads(r, *ret),
        TypeGut::Union(a, b) => type_reads(r, *a) && type_reads(r, *b),
        TypeGut::Intersection(a, b) => type_reads(r, *a) && type_reads(r, *b),
    }
}

/// Whether every written type of `pbs` reads as `r`.
pub open spec fn all_read(r: Reading, pbs: Seq<ParsedBox<Type>>) -> bool
    decreases pbs,
{
    forall|i: int| 0 <= i < pbs.len() ==> type_reads(r, #[trigger] pbs[i])
}

/// Whether reading the struct field `case` enters it in the struct: a
/// written type that reads, or a known pattern variable.
pub open spec fn field_entered(r: Reading, case: ParsedBox<StructCase>) -> bool
    decreases case,
{
    match case.value.value {
        StructCaseValue::Typed(t) => type_reads(r, t),
        StructCaseValue::Assigned(pv) => pattern_type(r, pv.value.name@) is Some,
    }
}

/// The names of the fields of `cases` that reading enters in the struct.
pub open spec fn entered_names(r: Reading, cases: Seq<ParsedBox<StructCase>>) -> Set<Seq<char>>
    decreases cases,
{
    if cases.len() == 0 {
        Set::empty()
    } else {
        let before = entered_names(r, cases.drop_last());
        if field_entered(r, cases.last()) {
            before.insert(cases.last().value.id.value.name@)
        } else {
            before
        }
    }
}

/// Whether reading the struct fields `cases` is refused: a field is named
/// like a field entered before it, or is assigned from a pattern variable
/// that the context does not bind.
pub open spec fn struct_refused(r: Reading, cases: Seq<ParsedBox<StructCase>>) -> bool
    decreases cases,
{
    if cases.len() == 0 {
        false
    } else {
        let last = cases.last();
        ||| struct_refused(r, cases.drop_last())
        ||| entered_names(r, cases.drop_last()).contains(last.value.id.value.name@)
        ||| match last.value.value {
            StructCaseValue::Assigned(pv) => pattern_type(r, pv.value.name@) is None,
            StructCaseValue::Typed(_) => false,
        }
    }
}

/// Whether reading the written type `pb` as `r` reports no error: every
/// named type in it reads (a shape without generic arguments reads as
/// nothing, quietly), every generic argument reads quietly, and every
/// struct in it is not refused and has fields whose written types read
/// quietly.
pub open spec fn reads_quietly(r: Reading, pb: ParsedBox<Type>) -> bool
    decreases pb,
{
    match pb.value.gut {
        TypeGut::Unit => true,
        TypeGut::Identifier(id) => match name_reading(r, id) {
            NameReading::PatternVariable(_) => true,
            NameReading::GenericVariable => true,
            NameReading::Core(_) => true,
            NameReading::Specified(_) => match id.template_call {
                Some(tc) => all_quiet(r, tc.value.args@),
                None => true,
            },
            _ => false,
        },
        TypeGut::ParenSingle(inner) => reads_quietly(r, *inner),
        TypeGut::Tuple(tt) => all_quiet(r, tt.entries@),
        TypeGut::Array(inner) => reads_quietly(r, *inner),
        TypeGut::Mapping(a, b) => reads_quietly(r, *a) && reads_quietly(r, *b),
        TypeGut::Struct(st) => fields_quiet(r, st.entries@),
        TypeGut::Function(args, ret) => all_quiet(r, args@) && reads_quietly(r, *ret),
        TypeGut::Union(a, b) => reads_quietly(r, *a) && reads_quietly(r, *b),
        TypeGut::Intersection(a, b) => reads_quietly(r, *a) && reads_quietly(r, *b),
    }
}

/// Whether every written type of `pbs` reads quietly.
pub open spec fn all_quiet(r: Reading, pbs: Seq<ParsedBox<Type>>) -> bool
    decreases pbs,
{
    forall|i: int| 0 <= i < pbs.len() ==> reads_quietly(r, #[trigger] pbs[i])
}

/// Whether the struct fields `cases` read quietly: they are not refused
/// and every written field type reads quietly.
pub open spec fn fields_quiet(r: Reading, cases: Seq<ParsedBox<StructCase>>) -> bool
    decreases cases,
{
    &&& !struct_refused(r, cases)
    &&& forall|i: int| 0 <= i < cases.len() ==> field_quiet(r, #[trigger] cases[i])
}

/// Whether the struct field `case` reads quietly where its type is written.
pub open spec fn field_quiet(r: Reading, case: ParsedBox<StructCase>) -> bool
    decreases case,
{
    match case.value.value {
        StructCaseValue::Typed(t) => reads_quietly(r, t),
        StructCaseValue::Assigned(_) => true,
    }
}

/// Whether `e` is the error reported where a named type at `pos` reads as
/// the refusal `nr`.
pub open spec fn refusal_error(e: ShapeDefinitionResolutionError, nr: NameReading, pos: crate::parsed::PositionView) -> bool {
    &&& e.position@ == pos
    &&& match nr {
        NameReading::GenericTemplateCall => e.kind matches ShapeDefinitionResolutionErrorKind::ShapeDescription(d)
            && d.position@ == pos && d.kind is GenericVariableTemplateCallDetected,
        NameReading::CoreTemplateCall => e.kind matches ShapeDefinitionResolutionErrorKind::ShapeDescription(d)
            && d.position@ == pos && d.kind is CoreTypeTemplateCallDetected,
        NameReading::KindDifferent => e.kind matches ShapeDefinitionResolutionErrorKind::LookUpRoute(l) && l.position@
            == pos && l.kind is RouteExistsButKindDifferent,
        NameReading::NotFound => e.kind matches ShapeDefinitionResolutionErrorKind::LookUpRoute(l) && l.position@ == pos
            && l.kind is RouteNotFound,
        NameReading::UnknownRoot => e.kind matches ShapeDefinitionResolutionErrorKind::LookUpRoute(l) && l.position@
            == pos && l.kind is UnknownRootRouteFraction,
        NameReading::NotAllowed => e.kind matches ShapeDefinitionResolutionErrorKind::LookUpRoute(l) && l.position@
            == pos && l.kind is SingleCellOrRelativeKeywordRouteNotAllowed,
        _ => false,
    }
}

/// Whether a named type reads as a refusal.
pub open spec fn is_refusal(nr: NameReading) -> bool {
    !(nr is PatternVariable || nr is GenericVariable || nr is Core || nr is Specified)
}

/// Whether description `k` of table `t` is made for `pb` in context
/// `c`: stored, with that context, `pb`'s variance and `pb`'s position.
pub open spec fn made_for(t: Seq<ShapeDescription>, c: usize, pb: ParsedBox<Type>, k: usize) -> bool {
    &&& k < t.len()
    &&& t[k as int].context_key.0 == c
    &&& t[k as int].annotation == variance_of(pb.value.annotation)
    &&& t[k as int].pos@ == pb.position@
}

/// Whether key `k` stands, in table `t`, for the written type `pb` read as
/// `r` in context `c`: a pattern variable is the description it is bound to; every
/// other type is a description made for it, of the matching form, whose
/// parts stand for the parts of `pb`.
pub open spec fn describes(r: Reading, t: Seq<ShapeDescription>, c: usize, pb: ParsedBox<Type>, k: usize) -> bool
    decreases pb,
{
    match pb.value.gut {
        TypeGut::Identifier(id) => match name_reading(r, id) {
            NameReading::PatternVariable(key) => k == key,
            NameReading::GenericVariable => made_for(t, c, pb, k) && match t[k as int].gut {
                ShapeDescriptionGut::Unresolved(UnresolvedShape::GenericVariable(n)) => n@
                    == id.rid.value.this_id.value.name@,
                _ => false,
            },
            NameReading::Core(e) => made_for(t, c, pb, k) && t[k as int].gut == ShapeDescriptionGut::Elementary(e),
            NameReading::Specified(route) => made_for(t, c, pb, k) && match (t[k as int].gut, id.template_call) {
                (ShapeDescriptionGut::Unresolved(UnresolvedShape::Specified(rt, args)), Some(tc)) => rt@ == route
                    && all_describe(r, t, c, tc.value.args@, args@),
                _ => false,
            },
            _ => false,
        },
        TypeGut::Unit => made_for(t, c, pb, k) && t[k as int].gut == ShapeDescriptionGut::Elementary(
            ElementaryShape::Unit,
        ),
        TypeGut::ParenSingle(inner) => made_for(t, c, pb, k) && match t[k as int].gut {
            ShapeDescriptionGut::ParenSingle(k2) => describes(r, t, c, *inner, k2.0),
            _ => false,
        },
        TypeGut::Tuple(tt) => made_for(t, c, pb, k) && match t[k as int].gut {
            ShapeDescriptionGut::Tuple(ks) => all_describe(r, t, c, tt.entries@, ks@),
            _ => false,
        },
        TypeGut::Array(inner) => made_for(t, c, pb, k) && match t[k as int].gut {
            ShapeDescriptionGut::Array(k2) => describes(r, t, c, *inner, k2.0),
            _ => false,
        },
        TypeGut::Mapping(a, b) => made_for(t, c, pb, k) && match t[k as int].gut {
            ShapeDescriptionGut::Mapping { key, value } => describes(r, t, c, *a, key.0) && describes(
                r,
                t,
                c,
                *b,
                value.0,
            ),
            _ => false,
        },
        TypeGut::Struct(st) => made_for(t, c, pb, k) && match t[k as int].gut {
            ShapeDescriptionGut::Struct(m) => m.as_map().dom() == entered_names(r, st.entries@)
                && fields_describe(r, t, c, st.entries@, m.as_map()),
            _ => false,
        },
        TypeGut::Function(args, ret) => made_for(t, c, pb, k) && match t[k as int].gut {
            ShapeDescriptionGut::Function { args: ks, ret: k2 } => all_describe(r, t, c, args@, ks@) && describes(
                r,
                t,
                c,
                *ret,
                k2.0,
            ),
            _ => false,
        },
        TypeGut::Union(a, b) => made_for(t, c, pb, k) && match t[k as int].gut {
            ShapeDescriptionGut::Union(k1, k2) => describes(r, t, c, *a, k1.0) && describes(r, t, c, *b, k2.0),
            _ => false,
        },
        TypeGut::Intersection(a, b) => made_for(t, c, pb, k) && match t[k as int].gut {
            ShapeDescriptionGut::Intersection(k1, k2) => describes(r, t, c, *a, k1.0) && describes(r, t, c, *b, k2.0),
            _ => false,
        },
    }
}

/// Whether the keys `ks` stand, one for one, for the written types `pbs`.
pub open spec fn all_describe(
    r: Reading,
    t: Seq<ShapeDescription>,
    c: usize,
    pbs: Seq<ParsedBox<Type>>,
    ks: Seq<ShapeDescriptionKey>,
) -> bool
    decreases pbs,
{
    &&& pbs.len() == ks.len()
    &&& forall|i: int| 0 <= i < pbs.len() ==> describes(r, t, c, #[trigger] pbs[i], ks[i].0)
}

/// Whether the struct `m` holds, for every entered field of `cases`, what
/// the field stands for: the description of its written type, or the
/// description its pattern variable is bound to.
pub open spec fn fields_describe(
    r: Reading,
    t: Seq<ShapeDescription>,
    c: usize,
    cases: Seq<ParsedBox<StructCase>>,
    m: Map<Seq<char>, ShapeDescriptionKey>,
) -> bool
    decreases cases,
{
    forall|i: int| 0 <= i < cases.len() && field_entered(r, #[trigger] cases[i]) ==> field_describes(
        r,
        t,
        c,
        cases[i],
        m[cases[i].value.id.value.name@],
    )
}

/// Whether `k` stands for the struct field `case`.
pub open spec fn field_describes(r: Reading, t: Seq<ShapeDescription>, c: usize, case: ParsedBox<StructCase>, k: ShapeDescriptionKey) -> bool
    decreases case,
{
    match case.value.value {
        StructCaseValue::Typed(ty) => describes(r, t, c, ty, k.0),
        StructCaseValue::Assigned(pv) => pattern_type(r, pv.value.name@) == Some(k.0),
    }
}

/// The most descriptions reading `pb` can add: one per written type in it.
pub open spec fn type_size(pb: ParsedBox<Type>) -> nat
    decreases pb,
{
    1 + match pb.value.gut {
        TypeGut::Unit => 0,
        TypeGut::Identifier(id) => match id.template_call {
            Some(tc) => sizes(tc.value.args@),
            None => 0,
        },
        TypeGut::ParenSingle(inner) => type_size(*inner),
        TypeGut::Tuple(tt) => sizes(tt.entries@),
        TypeGut::Array(inner) => type_size(*inner),
        TypeGut::Mapping(a, b) => type_size(*a) + type_size(*b),
        TypeGut::Struct(st) => case_sizes(st.entries@),
        TypeGut::Function(args, ret) => sizes(args@) + type_size(*ret),
        TypeGut::Union(a, b) => type_size(*a) + type_size(*b),
        TypeGut::Intersection(a, b) => type_size(*a) + type_size(*b),
    }
}

/// The sizes of `pbs`, added up.
pub open spec fn sizes(pbs: Seq<ParsedBox<Type>>) -> nat
    decreases pbs,
{
    if pbs.len() == 0 {
        0
    } else {
        sizes(pbs.drop_last()) + type_size(pbs.last())
    }
}

/// The sizes of the written types of the struct fields `cases`, added up.
pub open spec fn case_sizes(cases: Seq<ParsedBox<StructCase>>) -> nat
    decreases cases,
{
    if cases.len() == 0 {
        0
    } else {
        case_sizes(cases.drop_last()) + match cases.last().value.value {
            StructCaseValue::Typed(ty) => type_size(ty),
            StructCaseValue::Assigned(_) => 0,
        }
    }
}

/// Table `t2` starts with table `t`.
pub open spec fn table_extends(t2: Seq<ShapeDescription>, t: Seq<ShapeDescription>) -> bool {
    t.len() <= t2.len() && t2.take(t.len() as int) == t
}

/// What a key stands for, read from a written type, stays so while the
/// table of descriptions grows: reading more types never changes what was
/// read before.
pub proof fn lemma_describes_grow(r: Reading, t: Seq<ShapeDescription>, t2: Seq<ShapeDescription>, c: usize, pb: ParsedBox<Type>, k: usize)
    requires
        describes(r, t, c, pb, k),
        table_extends(t2, t),
    ensures
        describes(r, t2, c, pb, k),
    decreases pb,
{
    if made_for(t, c, pb, k) {
        assert(t2.take(t.len() as int)[k as int] == t2[k as int]);
    }
    match pb.value.gut {
        TypeGut::Identifier(id) => {
            match name_reading(r, id) {
                NameReading::Specified(_) => {
                    match (t[k as int].gut, id.template_call) {
                        (ShapeDescriptionGut::Unresolved(UnresolvedShape::Specified(_, args)), Some(tc)) => {
                            lemma_all_describe_grow(r, t, t2, c, tc.value.args@, args@);
                        },
                        _ => {},
                    }
                },
                _ => {},
            }
        },
        TypeGut::ParenSingle(inner) => {
            match t[k as int].gut {
                ShapeDescriptionGut::ParenSingle(k2) => lemma_describes_grow(r, t, t2, c, *inner, k2.0),
                _ => {},
            }
        },
        TypeGut::Tuple(tt) => {
            match t[k as int].gut {
                ShapeDescriptionGut::Tuple(ks) => lemma_all_describe_grow(r, t, t2, c, tt.entries@, ks@),
                _ => {},
            }
        },
        TypeGut::Array(inner) => {
            match t[k as int].gut {
                ShapeDescriptionGut::Array(k2) => lemma_describes_grow(r, t, t2, c, *inner, k2.0),
                _ => {},
            }
        },
        TypeGut::Mapping(a, b) => {
            match t[k as int].gut {
                ShapeDescriptionGut::Mapping { key, value } => {
                    lemma_describes_grow(r, t, t2, c, *a, key.0);
                    lemma_describes_grow(r, t, t2, c, *b, value.0);
                },
                _ => {},
            }
        },
        TypeGut::Struct(st) => {
            match t[k as int].gut {
                ShapeDescriptionGut::Struct(m) => lemma_fields_grow(r, t, t2, c, st.entries@, m.as_map()),
                _ => {},
            }
        },
        TypeGut::Function(args, ret) => {
            match t[k as int].gut {
                ShapeDescriptionGut::Function { args: ks, ret: k2 } => {
                    lemma_all_describe_grow(r, t, t2, c, args@, ks@);
                    lemma_describes_grow(r, t, t2, c, *ret, k2.0);
                },
                _ => {},
            }
        },
        TypeGut::Union(a, b) => {
            match t[k as int].gut {
                ShapeDescriptionGut::Union(k1, k2) => {
                    lemma_describes_grow(r, t, t2, c, *a, k1.0);
                    lemma_describes_grow(r, t, t2, c, *b, k2.0);
                },
                _ => {},
            }
        },
        TypeGut::Intersection(a, b) => {
            match t[k as int].gut {
                ShapeDescriptionGut::Intersection(k1, k2) => {
                    lemma_describes_grow(r, t, t2, c, *a, k1.0);
                    lemma_describes_grow(r, t, t2, c, *b, k2.0);
                },
                _ => {},
            }
        },
        TypeGut::Unit => {},
    }
}

/// Keys standing for written types keep doing so while the table grows.
proof fn lemma_all_describe_grow(
    r: Reading,
    t: Seq<ShapeDescription>,
    t2: Seq<ShapeDescription>,
    c: usize,
    pbs: Seq<ParsedBox<Type>>,
    ks: Seq<ShapeDescriptionKey>,
)
    requires
        all_describe(r, t, c, pbs, ks),
        table_extends(t2, t),
    ensures
        all_describe(r, t2, c, pbs, ks),
    decreases pbs,
{
    assert forall|i: int| 0 <= i < pbs.len() implies describes(r, t2, c, #[trigger] pbs[i], ks[i].0) by {
        lemma_describes_grow(r, t, t2, c, pbs[i], ks[i].0);
    }
}

/// Struct fields keep standing for their cases while the table grows.
proof fn lemma_fields_grow(
    r: Reading,
    t: Seq<ShapeDescription>,
    t2: Seq<ShapeDescription>,
    c: usize,
    cases: Seq<ParsedBox<StructCase>>,
    m: Map<Seq<char>, ShapeDescriptionKey>,
)
    requires
        fields_describe(r, t, c, cases, m),
        table_extends(t2, t),
    ensures
        fields_describe(r, t2, c, cases, m),
    decreases cases,
{
    assert forall|i: int| 0 <= i < cases.len() && field_entered(r, #[trigger] cases[i]) implies field_describes(
        r,
        t2,
        c,
        cases[i],
        m[cases[i].value.id.value.name@],
    ) by {
        match cases[i].value.value {
            StructCaseValue::Typed(ty) => lemma_describes_grow(r, t, t2, c, ty, m[cases[i].value.id.value.name@].0),
            StructCaseValue::Assigned(_) => {},
        }
    }
}

/// `sizes` of a prefix one longer, and no more than `sizes` of the whole.
proof fn lemma_sizes_prefix(s: Seq<ParsedBox<Type>>, i: int)
    requires
        0 <= i < s.len(),
    ensures
        sizes(s.take(i + 1)) == sizes(s.take(i)) + type_size(s[i]),
        sizes(s.take(i + 1)) <= sizes(s),
    decreases s.len(),
{
    assert(s.take(i + 1).drop_last() =~= s.take(i));
    assert(s.take(i + 1).last() == s[i]);
    if i + 1 < s.len() {
        lemma_sizes_prefix(s.drop_last(), i);
        assert(s.drop_last().take(i + 1) =~= s.take(i + 1));
    } else {
        assert(s.take(i + 1) =~= s);
    }
}

/// `case_sizes` of a prefix one longer, and no more than `case_sizes` of the whole.
proof fn lemma_case_sizes_prefix(s: Seq<ParsedBox<StructCase>>, i: int)
    requires
        0 <= i < s.len(),
    ensures
        case_sizes(s.take(i + 1)) == case_sizes(s.take(i)) + match s[i].value.value {
            StructCaseValue::Typed(ty) => type_size(ty),
            StructCaseValue::Assigned(_) => 0,
        },
        case_sizes(s.take(i + 1)) <= case_sizes(s),
    decreases s.len(),
{
    assert(s.take(i + 1).drop_last() =~= s.take(i));
    assert(s.take(i + 1).last() == s[i]);
    if i + 1 < s.len() {
        lemma_case_sizes_prefix(s.drop_last(), i);
        assert(s.drop_last().take(i + 1) =~= s.take(i + 1));
    } else {
        assert(s.take(i + 1) =~= s);
    }
}

/// An entered field's name is among the entered names.
proof fn lemma_entered_in(r: Reading, cases: Seq<ParsedBox<StructCase>>, j: int)
    requires
        0 <= j < cases.len(),
        field_entered(r, cases[j]),
    ensures
        entered_names(r, cases).contains(cases[j].value.id.value.name@),
    decreases cases.len(),
{
    if j < cases.len() - 1 {
        lemma_entered_in(r, cases.drop_last(), j);
    }
}

/// A generic parameter as declared: its name, and the type guarding it
/// where one is written.
pub type TemplateArg = ParsedBox<(ParsedBox<Identifier>, Option<ParsedBox<Type>>)>;

/// The names of declared generic parameters, in order.
pub open spec fn arg_names(args: Seq<TemplateArg>) -> Seq<Seq<char>> {
    args.map_values(|a: TemplateArg| a.value.0.value.name@)
}

/// How a guard is read: in module `module_route`, with no pattern
/// variables, and with the generic parameters `names` in scope.
pub open spec fn guard_reading(module_route: RouteView, names: Seq<Seq<char>>, tables: Map<Seq<char>, SkeletonTableView>) -> Reading {
    Reading { module_route, patterns: None, param_names: Some(names), tables }
}

/// Whether the generic parameters `args` declare without error in module
/// `module_route`: no name is declared twice, and every guard reads with
/// the parameters declared before it in scope.
pub open spec fn template_def_reads(module_route: RouteView, tables: Map<Seq<char>, SkeletonTableView>, args: Seq<TemplateArg>) -> bool {
    &&& arg_names(args).no_duplicates()
    &&& forall|i: int| 0 <= i < args.len() && (#[trigger] args[i]).value.1 is Some ==> type_reads(
        guard_reading(module_route, arg_names(args).take(i), tables),
        args[i].value.1.unwrap(),
    )
}

/// The names among the first `i` of `names` that are declared: each one
/// not declared before it.
pub open spec fn declared_names(names: Seq<Seq<char>>, i: int) -> Seq<Seq<char>>
    decreases i,
{
    if i <= 0 {
        Seq::empty()
    } else {
        let d = declared_names(names, i - 1);
        if d.contains(names[i - 1]) {
            d
        } else {
            d.push(names[i - 1])
        }
    }
}

/// Whether the guard of every parameter before the `j`-th that is
/// declared (not a name declared before) reads, with the parameters
/// declared before it in scope.
pub open spec fn guards_before_read(module_route: RouteView, tables: Map<Seq<char>, SkeletonTableView>, args: Seq<TemplateArg>, j: int) -> bool {
    forall|i: int| 0 <= i < j && (#[trigger] args[i]).value.1 is Some && !declared_names(arg_names(args), i).contains(arg_names(args)[i])
        ==> type_reads(guard_reading(module_route, declared_names(arg_names(args), i), tables), args[i].value.1.unwrap())
}

/// Whether `e` is the error for the generic parameter `a` whose name was
/// declared before: the name declared twice, at the parameter's name.
pub open spec fn duplicate_error(e: ShapeDefinitionResolutionError, a: TemplateArg) -> bool {
    match e.kind {
        ShapeDefinitionResolutionErrorKind::ContentResolution(c) => c.position@ == a.value.0.position@ && match c.kind {
            ContentResolutionErrorKind::DuplicateGenericVariableDefinition(n) => n@ == a.value.0.value.name@,
            _ => false,
        },
        _ => false,
    }
}

/// The sizes of the guards of `args`, added up.
pub open spec fn guard_sizes(args: Seq<TemplateArg>) -> nat
    decreases args.len(),
{
    if args.len() == 0 {
        0
    } else {
        guard_sizes(args.drop_last()) + match args.last().value.1 {
            Some(g) => type_size(g),
            None => 0,
        }
    }
}

/// `guard_sizes` of a prefix one longer, and no more than of the whole.
proof fn lemma_guard_sizes_prefix(s: Seq<TemplateArg>, i: int)
    requires
        0 <= i < s.len(),
    ensures
        guard_sizes(s.take(i + 1)) == guard_sizes(s.take(i)) + match s[i].value.1 {
            Some(g) => type_size(g),
            None => 0,
        },
        guard_sizes(s.take(i + 1)) <= guard_sizes(s),
    decreases s.len(),
{
    assert(s.take(i + 1).drop_last() =~= s.take(i));
    assert(s.take(i + 1).last() == s[i]);
    if i + 1 < s.len() {
        lemma_guard_sizes_prefix(s.drop_last(), i);
        assert(s.drop_last().take(i + 1) =~= s.take(i + 1));
    } else {
        assert(s.take(i + 1) =~= s);
    }
}

/// `a` and `b` are the same generic parameter.
pub open spec fn same_param(a: GenericParamDef, b: GenericParamDef) -> bool {
    match (a, b) {
        (GenericParamDef::Variable(n1), GenericParamDef::Variable(n2)) => n1@ == n2@,
        (GenericParamDef::Guarded(n1, k1), GenericParamDef::Guarded(n2, k2)) => n1@ == n2@ && k1 == k2,
        _ => false,
    }
}

/// A copy of generic parameters.
fn copy_params(v: &Vec<GenericParamDef>) -> (res: Vec<GenericParamDef>)
    ensures
        res@.len() == v@.len(),
        forall|i: int| 0 <= i < v@.len() ==> same_param(#[trigger] res@[i], v@[i]),
{
    let mut res: Vec<GenericParamDef> = Vec::new();
    let mut i: usize = 0;
    while i < v.len()
        invariant
            i <= v@.len(),
            res@.len() == i,
            forall|j: int| 0 <= j < i ==> same_param(#[trigger] res@[j], v@[j]),
        decreases v.len() - i,
    {
        let p = match &v[i] {
            GenericParamDef::Variable(n) => GenericParamDef::Variable(n.clone()),
            GenericParamDef::Guarded(n, k) => GenericParamDef::Guarded(n.clone(), *k),
        };
        res.push(p);
        i = i + 1;
    }
    res
}

impl ShapeVarianceAnnotation {
    /// The variance a type annotation stands for.
    pub fn from_type_annotation(annotation: TypeAnnotation) -> (res: ShapeVarianceAnnotation)
        ensures
            res == variance_of(annotation),
    {
        match annotation {
            TypeAnnotation::Covariant => ShapeVarianceAnnotation::Covariant,
            TypeAnnotation::Contravariant => ShapeVarianceAnnotation::Contravariant,
            TypeAnnotation::Invariant => ShapeVarianceAnnotation::Invariant,
        }
    }
}

/// Whether one of `params` is named `name`.
fn declares_name(params: &Vec<GenericParamDef>, name: &String) -> (res: bool)
    ensures
        res == param_names(params@).contains(name@),
{
    let mut i: usize = 0;
    while i < params.len()
        invariant
            i <= params@.len(),
            forall|j: int| 0 <= j < i ==> (#[trigger] params@[j]).name_of() != name@,
        decreases params.len() - i,
    {
        let n = params[i].get_name();
        if n == *name {
            assert(param_names(params@)[i as int] == name@);
            return true;
        }
        i = i + 1;
    }
    assert forall|j: int| 0 <= j < param_names(params@).len() implies param_names(params@)[j] != name@ by {
        assert(param_names(params@)[j] == params@[j].name_of());
    }
    false
}

impl<'a> GrandShapeContentSummaryAtWork<'a> {
    /// Whether this summary is `old` with descriptions and errors added at
    /// the end of their tables, and nothing else changed.
    pub open spec fn grown_by_reading(&self, old: Self) -> bool {
        let t = self.gsc_summary.kv_tables;
        let o = old.gsc_summary.kv_tables;
        &&& self.grand_module_skeleton_table == old.grand_module_skeleton_table
        &&& self.grand_module_merge_table == old.grand_module_merge_table
        &&& t.shape_content_table == o.shape_content_table
        &&& t.operation_content_table == o.operation_content_table
        &&& t.bind_content_table == o.bind_content_table
        &&& t.operator_content_table == o.operator_content_table
        &&& t.coerce_content_table == o.coerce_content_table
        &&& t.generic_param_description_table == o.generic_param_description_table
        &&& t.shape_description_context_table == o.shape_description_context_table
        &&& t.function_description_table == o.function_description_table
        &&& t.function_description_context_table == o.function_description_context_table
        &&& t.closure_description_table == o.closure_description_table
        &&& t.in_closure_description_context_table == o.in_closure_description_context_table
        &&& t.computable_shape_table == o.computable_shape_table
        &&& self.gsc_summary.shape_content_heads == old.gsc_summary.shape_content_heads
        &&& self.gsc_summary.operation_content_heads == old.gsc_summary.operation_content_heads
        &&& self.gsc_summary.bind_content_heads == old.gsc_summary.bind_content_heads
        &&& self.gsc_summary.operator_content_heads == old.gsc_summary.operator_content_heads
        &&& self.gsc_summary.coerce_content_heads == old.gsc_summary.coerce_content_heads
        &&& self.gsc_summary.computable_shape_table == old.gsc_summary.computable_shape_table
        &&& self.gsc_summary.ecs_key_table == old.gsc_summary.ecs_key_table
        &&& self.gsc_summary.sub_shape_table_buffer == old.gsc_summary.sub_shape_table_buffer
        &&& self.gsc_summary.bind_name_table == old.gsc_summary.bind_name_table
        &&& self.gsc_summary.graph == old.gsc_summary.graph
        &&& table_extends(self.descriptions(), old.descriptions())
        &&& old.gsc_summary.errors@.len() <= self.gsc_summary.errors@.len()
        &&& self.gsc_summary.errors@.take(old.gsc_summary.errors@.len() as int) == old.gsc_summary.errors@
    }
}

/// A summary has grown from itself.
pub(crate) proof fn lemma_grown_by_reading_refl(a: GrandShapeContentSummaryAtWork)
    ensures
        a.grown_by_reading(a),
{
    assert(a.descriptions().take(a.descriptions().len() as int) =~= a.descriptions());
    assert(a.gsc_summary.errors@.take(a.gsc_summary.errors@.len() as int) =~= a.gsc_summary.errors@);
}

/// Growing twice is growing.
pub(crate) proof fn lemma_grown_by_reading_trans(a: GrandShapeContentSummaryAtWork, b: GrandShapeContentSummaryAtWork, c: GrandShapeContentSummaryAtWork)
    requires
        b.grown_by_reading(a),
        c.grown_by_reading(b),
    ensures
        c.grown_by_reading(a),
{
    assert(c.descriptions().take(a.descriptions().len() as int) =~= b.descriptions().take(a.descriptions().len() as int));
    assert(c.gsc_summary.errors@.take(a.gsc_summary.errors@.len() as int) =~= b.gsc_summary.errors@.take(
        a.gsc_summary.errors@.len() as int,
    ));
}

/// Adding a description, or an error, is growing.
pub(crate) proof fn lemma_grown_by_step(a: GrandShapeContentSummaryAtWork, b: GrandShapeContentSummaryAtWork)
    requires
        (b.same_but_descriptions(a) && b.descriptions().len() == a.descriptions().len() + 1
            && b.descriptions().take(a.descriptions().len() as int) == a.descriptions())
        || (b.same_but_errors(a) && b.gsc_summary.errors@ == a.gsc_summary.errors@.push(b.gsc_summary.errors@.last())),
    ensures
        b.grown_by_reading(a),
{
    if b.same_but_descriptions(a) && b.descriptions().len() == a.descriptions().len() + 1 {
        assert(b.gsc_summary.errors@.take(a.gsc_summary.errors@.len() as int) =~= a.gsc_summary.errors@);
    } else {
        assert(b.descriptions().take(a.descriptions().len() as int) =~= a.descriptions());
        assert(b.gsc_summary.errors@.take(a.gsc_summary.errors@.len() as int) =~= a.gsc_summary.errors@);
    }
}

/// `a` starts with `b`.
pub open spec fn seq_extends<T>(a: Seq<T>, b: Seq<T>) -> bool {
    b.len() <= a.len() && a.take(b.len() as int) == b
}

/// The name tables of the cells that `s` reads.
pub open spec fn tables_of(s: GrandShapeContentSummaryAtWork) -> Map<Seq<char>, SkeletonTableView> {
    cell_tables(&s.grand_module_skeleton_table.cell_module_skeleton_table)
}

impl<'a> GrandShapeContentSummaryAtWork<'a> {
    /// Whether this summary is `old` with generic parameter descriptions,
    /// description contexts, descriptions and errors added at the end of
    /// their tables, and nothing else changed.
    pub open spec fn grown_by_declaring(&self, old: Self) -> bool {
        let t = self.gsc_summary.kv_tables;
        let o = old.gsc_summary.kv_tables;
        &&& seq_extends(t.generic_param_description_table@, o.generic_param_description_table@)
        &&& seq_extends(t.shape_description_context_table@, o.shape_description_context_table@)
        &&& self.grown_by_reading(
            GrandShapeContentSummaryAtWork {
                gsc_summary: GrandShapeContentSummary {
                    kv_tables: KVTables {
                        generic_param_description_table: t.generic_param_description_table,
                        shape_description_context_table: t.shape_description_context_table,
                        ..o
                    },
                    ..old.gsc_summary
                },
                ..old
            },
        )
    }
}

/// Growing by reading is growing by declaring.
proof fn lemma_declaring_from_reading(a: GrandShapeContentSummaryAtWork, b: GrandShapeContentSummaryAtWork)
    requires
        b.grown_by_reading(a),
    ensures
        b.grown_by_declaring(a),
{
    let t = b.gsc_summary.kv_tables;
    assert(t.generic_param_description_table@.take(t.generic_param_description_table@.len() as int)
        =~= t.generic_param_description_table@);
    assert(t.shape_description_context_table@.take(t.shape_description_context_table@.len() as int)
        =~= t.shape_description_context_table@);
}

/// Growing by declaring twice is growing by declaring.
pub(crate) proof fn lemma_declaring_trans(a: GrandShapeContentSummaryAtWork, b: GrandShapeContentSummaryAtWork, c: GrandShapeContentSummaryAtWork)
    requires
        b.grown_by_declaring(a),
        c.grown_by_declaring(b),
    ensures
        c.grown_by_declaring(a),
{
    let ta = a.gsc_summary.kv_tables;
    let tb = b.gsc_summary.kv_tables;
    let tc = c.gsc_summary.kv_tables;
    assert(tc.generic_param_description_table@.take(ta.generic_param_description_table@.len() as int)
        =~= tb.generic_param_description_table@.take(ta.generic_param_description_table@.len() as int));
    assert(tc.shape_description_context_table@.take(ta.shape_description_context_table@.len() as int)
        =~= tb.shape_description_context_table@.take(ta.shape_description_context_table@.len() as int));
    assert(c.descriptions().take(a.descriptions().len() as int) =~= b.descriptions().take(a.descriptions().len() as int));
    assert(c.gsc_summary.errors@.take(a.gsc_summary.errors@.len() as int) =~= b.gsc_summary.errors@.take(
        a.gsc_summary.errors@.len() as int,
    ));
}

/// Growing by reading is growing by declaring.
pub(crate) proof fn lemma_declaring_from_reading_pub(a: GrandShapeContentSummaryAtWork, b: GrandShapeContentSummaryAtWork)
    requires
        b.grown_by_reading(a),
    ensures
        b.grown_by_declaring(a),
{
    lemma_declaring_from_reading(a, b);
}

/// A summary has grown from itself by declaring.
pub(crate) proof fn lemma_declaring_refl(a: GrandShapeContentSummaryAtWork)
    ensures
        a.grown_by_declaring(a),
{
    lemma_grown_by_reading_refl(a);
    lemma_declaring_from_reading(a, a);
}

/// Storing a description context is growing by declaring.
pub(crate) proof fn lemma_declaring_context_push(a: GrandShapeContentSummaryAtWork, b: GrandShapeContentSummaryAtWork)
    requires
        b.grand_module_skeleton_table == a.grand_module_skeleton_table,
        b.grand_module_merge_table == a.grand_module_merge_table,
        b.gsc_summary == (GrandShapeContentSummary {
            kv_tables: KVTables {
                shape_description_context_table: b.gsc_summary.kv_tables.shape_description_context_table,
                ..a.gsc_summary.kv_tables
            },
            ..a.gsc_summary
        }),
        b.gsc_summary.kv_tables.shape_description_context_table@ == a.gsc_summary.kv_tables.shape_description_context_table@.push(
            b.gsc_summary.kv_tables.shape_description_context_table@.last(),
        ),
    ensures
        b.grown_by_declaring(a),
{
    let t = b.gsc_summary.kv_tables;
    let o = a.gsc_summary.kv_tables;
    assert(t.shape_description_context_table@.take(o.shape_description_context_table@.len() as int)
        =~= o.shape_description_context_table@);
    assert(t.generic_param_description_table@.take(o.generic_param_description_table@.len() as int)
        =~= o.generic_param_description_table@);
    assert(b.descriptions().take(a.descriptions().len() as int) =~= a.descriptions());
    assert(b.gsc_summary.errors@.take(a.gsc_summary.errors@.len() as int) =~= a.gsc_summary.errors@);
}

/// A readable context reads the same while the tables grow.
proof fn lemma_reading_kept(a: GrandShapeContentSummaryAtWork, b: GrandShapeContentSummaryAtWork, c: usize)
    requires
        context_readable(a, c),
        b.grown_by_declaring(a),
    ensures
        context_readable(b, c),
        reading_of(b, c) == reading_of(a, c),
{
    let ta = a.gsc_summary.kv_tables;
    let tb = b.gsc_summary.kv_tables;
    assert(tb.shape_description_context_table@.take(ta.shape_description_context_table@.len() as int)[c as int]
        == tb.shape_description_context_table@[c as int]);
    match ta.shape_description_context_table@[c as int].generic_param_key {
        Some(g) => {
            assert(tb.generic_param_description_table@.take(ta.generic_param_description_table@.len() as int)[g.0 as int]
                == tb.generic_param_description_table@[g.0 as int]);
        },
        None => {},
    }
}

/// Parameter `p` is what the `i`-th of `args` declares in module
/// `module_route`, as stored in `s`: its name, with no guard where none is
/// written, and otherwise guarded by a description that stands for the
/// written guard, read with the parameters declared before it in scope.
pub open spec fn declared_param(s: GrandShapeContentSummaryAtWork, module_route: RouteView, args: Seq<TemplateArg>, i: int, p: GenericParamDef) -> bool {
    &&& p.name_of() == arg_names(args)[i]
    &&& match (p, args[i].value.1) {
        (GenericParamDef::Variable(_), None) => true,
        (GenericParamDef::Guarded(_, k), Some(g)) => exists|c: usize| {
            &&& context_readable(s, c)
            &&& #[trigger] reading_of(s, c) == guard_reading(module_route, arg_names(args).take(i), tables_of(s))
            &&& describes(reading_of(s, c), s.descriptions(), c, g, k.0)
        },
        _ => false,
    }
}

/// What a parameter declares stays so while the tables grow.
proof fn lemma_declared_kept(
    a: GrandShapeContentSummaryAtWork,
    b: GrandShapeContentSummaryAtWork,
    module_route: RouteView,
    args: Seq<TemplateArg>,
    i: int,
    p: GenericParamDef,
    q: GenericParamDef,
)
    requires
        declared_param(a, module_route, args, i, p),
        b.grown_by_declaring(a),
        same_param(q, p),
    ensures
        declared_param(b, module_route, args, i, q),
{
    match (p, args[i].value.1) {
        (GenericParamDef::Guarded(_, k), Some(g)) => {
            let c = choose|c: usize| {
                &&& context_readable(a, c)
                &&& #[trigger] reading_of(a, c) == guard_reading(module_route, arg_names(args).take(i), tables_of(a))
                &&& describes(reading_of(a, c), a.descriptions(), c, g, k.0)
            };
            lemma_reading_kept(a, b, c);
            lemma_describes_grow(reading_of(a, c), a.descriptions(), b.descriptions(), c, g, k.0);
            assert(context_readable(b, c) && reading_of(b, c) == guard_reading(module_route, arg_names(args).take(i), tables_of(b))
                && describes(reading_of(b, c), b.descriptions(), c, g, k.0));
        },
        _ => {},
    }
}

impl<'a> GrandShapeContentSummaryAtWork<'a> {
    /// Stores a description made for `pb` in context `c`, of form `gut`.
    fn add_description(&mut self, c: ShapeDescriptionContextKey, pb: &ParsedBox<Type>, gut: ShapeDescriptionGut) -> (res: ShapeDescriptionKey)
        requires
            old(self).descriptions().len() < usize::MAX,
        ensures
            final(self).grown_by_reading(*old(self)),
            final(self).descriptions() == old(self).descriptions().push(
                final(self).descriptions()[res.0 as int],
            ),
            res.0 == old(self).descriptions().len(),
            made_for(final(self).descriptions(), c.0, *pb, res.0),
            final(self).descriptions()[res.0 as int].gut == gut,
            final(self).gsc_summary.errors == old(self).gsc_summary.errors,
    {
        let ghost before = *self;
        let annotation = ShapeVarianceAnnotation::from_type_annotation(pb.value.annotation);
        let k = self.new_shape_description(ShapeDescription { context_key: c, annotation, gut, pos: pb.position.duplicate() });
        proof {
            assert(self.descriptions().take(before.descriptions().len() as int) =~= before.descriptions());
            lemma_grown_by_step(before, *self);
        }
        k
    }

    /// Reads the written type `pb` in context `c` into descriptions (see
    /// `type_reads` and `describes`), reporting what is refused as errors.
    pub(crate) fn read_type(&mut self, c: ShapeDescriptionContextKey, pb: &ParsedBox<Type>) -> (res: Option<ShapeDescriptionKey>)
        requires
            context_readable(*old(self), c.0),
            old(self).descriptions().len() + type_size(*pb) <= usize::MAX,
        ensures
            final(self).grown_by_reading(*old(self)),
            final(self).descriptions().len() <= old(self).descriptions().len() + type_size(*pb),
            res is Some == type_reads(reading_of(*old(self), c.0), *pb),
            res is Some ==> describes(reading_of(*old(self), c.0), final(self).descriptions(), c.0, *pb, res.unwrap().0),
            (final(self).gsc_summary.errors@.len() == old(self).gsc_summary.errors@.len()) == reads_quietly(
                reading_of(*old(self), c.0),
                *pb,
            ),
            pb.value.gut is Identifier && is_refusal(name_reading(reading_of(*old(self), c.0), pb.value.gut->Identifier_0))
                ==> final(self).gsc_summary.errors@ == old(self).gsc_summary.errors@.push(final(self).gsc_summary.errors@.last())
                && refusal_error(
                final(self).gsc_summary.errors@.last(),
                name_reading(reading_of(*old(self), c.0), pb.value.gut->Identifier_0),
                pb.position@,
            ),
        decreases *pb, 1nat,
    {
        let ghost r = reading_of(*self, c.0);
        let ghost start = *self;
        match &pb.value.gut {
            TypeGut::Unit => {
                let k = self.add_description(c, pb, ShapeDescriptionGut::Elementary(ElementaryShape::Unit));
                Some(k)
            },
            TypeGut::Identifier(id) => self.read_named_type(c, pb, id),
            TypeGut::ParenSingle(inner) => {
                match self.read_type(c, inner) {
                    Some(k2) => {
                        let ghost mid = *self;
                        let k = self.add_description(c, pb, ShapeDescriptionGut::ParenSingle(k2));
                        proof {
                            lemma_grown_by_reading_trans(start, mid, *self);
                            lemma_describes_grow(r, mid.descriptions(), self.descriptions(), c.0, **inner, k2.0);
                        }
                        Some(k)
                    },
                    None => None,
                }
            },
            TypeGut::Array(inner) => {
                match self.read_type(c, inner) {
                    Some(k2) => {
                        let ghost mid = *self;
                        let k = self.add_description(c, pb, ShapeDescriptionGut::Array(k2));
                        proof {
                            lemma_grown_by_reading_trans(start, mid, *self);
                            lemma_describes_grow(r, mid.descriptions(), self.descriptions(), c.0, **inner, k2.0);
                        }
                        Some(k)
                    },
                    None => None,
                }
            },
            TypeGut::Tuple(tt) => {
                match self.read_all(c, &tt.entries) {
                    Some(ks) => {
                        let ghost mid = *self;
                        let ghost ksv = ks@;
                        let k = self.add_description(c, pb, ShapeDescriptionGut::Tuple(ks));
                        proof {
                            lemma_grown_by_reading_trans(start, mid, *self);
                            lemma_all_describe_grow(r, mid.descriptions(), self.descriptions(), c.0, tt.entries@, ksv);
                        }
                        Some(k)
                    },
                    None => None,
                }
            },
            TypeGut::Mapping(a, b) => {
                let ka = self.read_type(c, a);
                let ghost s1 = *self;
                let kb = self.read_type(c, b);
                let ghost s2 = *self;
                proof {
                    lemma_grown_by_reading_trans(start, s1, s2);
                }
                match (ka, kb) {
                    (Some(key), Some(value)) => {
                        let k = self.add_description(c, pb, ShapeDescriptionGut::Mapping { key, value });
                        proof {
                            lemma_grown_by_reading_trans(start, s2, *self);
                            lemma_grown_by_reading_trans(s1, s2, *self);
                            lemma_describes_grow(r, s1.descriptions(), self.descriptions(), c.0, **a, key.0);
                            lemma_describes_grow(r, s2.descriptions(), self.descriptions(), c.0, **b, value.0);
                        }
                        Some(k)
                    },
                    _ => None,
                }
            },
            TypeGut::Union(a, b) => {
                let ka = self.read_type(c, a);
                let ghost s1 = *self;
                let kb = self.read_type(c, b);
                let ghost s2 = *self;
                proof {
                    lemma_grown_by_reading_trans(start, s1, s2);
                }
                match (ka, kb) {
                    (Some(k1), Some(k2)) => {
                        let k = self.add_description(c, pb, ShapeDescriptionGut::Union(k1, k2));
                        proof {
                            lemma_grown_by_reading_trans(start, s2, *self);
                            lemma_grown_by_reading_trans(s1, s2, *self);
                            lemma_describes_grow(r, s1.descriptions(), self.descriptions(), c.0, **a, k1.0);
                            lemma_describes_grow(r, s2.descriptions(), self.descriptions(), c.0, **b, k2.0);
                        }
                        Some(k)
                    },
                    _ => None,
                }
            },
            TypeGut::Intersection(a, b) => {
                let ka = self.read_type(c, a);
                let ghost s1 = *self;
                let kb = self.read_type(c, b);
                let ghost s2 = *self;
                proof {
                    lemma_grown_by_reading_trans(start, s1, s2);
                }
                match (ka, kb) {
                    (Some(k1), Some(k2)) => {
                        let k = self.add_description(c, pb, ShapeDescriptionGut::Intersection(k1, k2));
                        proof {
                            lemma_grown_by_reading_trans(start, s2, *self);
                            lemma_grown_by_reading_trans(s1, s2, *self);
                            lemma_describes_grow(r, s1.descriptions(), self.descriptions(), c.0, **a, k1.0);
                            lemma_describes_grow(r, s2.descriptions(), self.descriptions(), c.0, **b, k2.0);
                        }
                        Some(k)
                    },
                    _ => None,
                }
            },
            TypeGut::Function(args, ret) => {
                let ka = self.read_all(c, args);
                let ghost s1 = *self;
                let kr = self.read_type(c, ret);
                let ghost s2 = *self;
                proof {
                    lemma_grown_by_reading_trans(start, s1, s2);
                }
                match (ka, kr) {
                    (Some(ks), Some(k2)) => {
                        let ghost ksv = ks@;
                        let k = self.add_description(c, pb, ShapeDescriptionGut::Function { args: ks, ret: k2 });
                        proof {
                            lemma_grown_by_reading_trans(start, s2, *self);
                            lemma_grown_by_reading_trans(s1, s2, *self);
                            lemma_all_describe_grow(r, s1.descriptions(), self.descriptions(), c.0, args@, ksv);
                            lemma_describes_grow(r, s2.descriptions(), self.descriptions(), c.0, **ret, k2.0);
                        }
                        Some(k)
                    },
                    _ => None,
                }
            },
            TypeGut::Struct(st) => {
                let (fields, refused) = self.read_struct_fields(c, &st.entries);
                if refused {
                    None
                } else {
                    let ghost mid = *self;
                    let ghost fm = fields.as_map();
                    let k = self.add_description(c, pb, ShapeDescriptionGut::Struct(fields));
                    proof {
                        lemma_grown_by_reading_trans(start, mid, *self);
                        lemma_fields_grow(r, mid.descriptions(), self.descriptions(), c.0, st.entries@, fm);
                    }
                    Some(k)
                }
            },
        }
    }

    /// Reads the named type `id`, the form of `pb`, in context `c` (see
    /// `name_reading`).
    fn read_named_type(&mut self, c: ShapeDescriptionContextKey, pb: &ParsedBox<Type>, id: &IdentifierType) -> (res: Option<ShapeDescriptionKey>)
        requires
            pb.value.gut == TypeGut::Identifier(*id),
            context_readable(*old(self), c.0),
            old(self).descriptions().len() + type_size(*pb) <= usize::MAX,
        ensures
            final(self).grown_by_reading(*old(self)),
            final(self).descriptions().len() <= old(self).descriptions().len() + type_size(*pb),
            res is Some == type_reads(reading_of(*old(self), c.0), *pb),
            res is Some ==> describes(reading_of(*old(self), c.0), final(self).descriptions(), c.0, *pb, res.unwrap().0),
            (final(self).gsc_summary.errors@.len() == old(self).gsc_summary.errors@.len()) == reads_quietly(
                reading_of(*old(self), c.0),
                *pb,
            ),
            is_refusal(name_reading(reading_of(*old(self), c.0), *id)) ==> final(self).gsc_summary.errors@ == old(
                self,
            ).gsc_summary.errors@.push(final(self).gsc_summary.errors@.last()) && refusal_error(
                final(self).gsc_summary.errors@.last(),
                name_reading(reading_of(*old(self), c.0), *id),
                pb.position@,
            ),
        decreases *pb, 0nat,
    {
        let ghost r = reading_of(*self, c.0);
        let ghost start = *self;
        proof {
            lemma_grown_by_reading_refl(*self);
        }
        let name = &id.rid.value.this_id.value.name;
        let bare = id.rid.value.route.len() == 0;
        if bare && id.template_call.is_none() {
            let found = match &self.gsc_summary.kv_tables.shape_description_context_table[c.0].definition_pattern_variable_types {
                Some(m) => match m.get(name) {
                    Some(k) => Some(*k),
                    None => None,
                },
                None => None,
            };
            match found {
                Some(k) => {
                    return Some(k);
                },
                None => {},
            }
        }
        if bare {
            let gk = self.gsc_summary.kv_tables.shape_description_context_table[c.0].generic_param_key;
            match gk {
                Some(g) => {
                    if declares_name(&self.gsc_summary.kv_tables.generic_param_description_table[g.0].params, name) {
                        if id.template_call.is_some() {
                            let e = ShapeDefinitionResolutionError::from_shape_description(
                                ShapeDescriptionResolutionError::generic_variable_template_call_detected(pb.position.duplicate()),
                            );
                            self.add_error(e);
                            proof {
                                lemma_grown_by_step(start, *self);
                            }
                            return None;
                        } else {
                            let k = self.add_description(
                                c,
                                pb,
                                ShapeDescriptionGut::Unresolved(UnresolvedShape::GenericVariable(name.clone())),
                            );
                            return Some(k);
                        }
                    }
                },
                None => {},
            }
        }
        let module_route = self.gsc_summary.kv_tables.shape_description_context_table[c.0].module_route.duplicate();
        let rid = ParsedBox::new(id.rid.value.duplicate(), id.rid.position.duplicate());
        let looked = self.lookup_def_kind_from_rid(rid, SkeletonDefSignatureKind::Shape, module_route);
        match looked {
            RidToShapeRouteResult::Found(c_route) => match &id.template_call {
                Some(tc) => {
                    match self.read_all(c, &tc.value.args) {
                        Some(args) => {
                            let ghost mid = *self;
                            let ghost av = args@;
                            let k = self.add_description(
                                c,
                                pb,
                                ShapeDescriptionGut::Unresolved(UnresolvedShape::Specified(c_route, args)),
                            );
                            proof {
                                lemma_grown_by_reading_trans(start, mid, *self);
                                lemma_all_describe_grow(r, mid.descriptions(), self.descriptions(), c.0, tc.value.args@, av);
                            }
                            Some(k)
                        },
                        None => None,
                    }
                },
                None => None,
            },
            RidToShapeRouteResult::RouteExistsButKindDifferent { route, expected, found } => {
                let e = ShapeDefinitionResolutionError::from_lookup_route(
                    LookUpRouteError::route_exists_but_kind_different(pb.position.duplicate(), route, expected, found),
                );
                self.add_error(e);
                proof {
                    lemma_grown_by_step(start, *self);
                }
                None
            },
            RidToShapeRouteResult::RouteNotFound => {
                let e = ShapeDefinitionResolutionError::from_lookup_route(
                    LookUpRouteError::route_not_found(pb.position.duplicate()),
                );
                self.add_error(e);
                proof {
                    lemma_grown_by_step(start, *self);
                }
                None
            },
            RidToShapeRouteResult::UnknownRootRouteFraction => {
                let core = if bare {
                    core_type_from_name(name)
                } else {
                    None
                };
                match core {
                    Some(e) => {
                        if id.template_call.is_some() {
                            let err = ShapeDefinitionResolutionError::from_shape_description(
                                ShapeDescriptionResolutionError::core_type_template_call_detected(pb.position.duplicate()),
                            );
                            self.add_error(err);
                            proof {
                                lemma_grown_by_step(start, *self);
                            }
                            None
                        } else {
                            let k = self.add_description(c, pb, ShapeDescriptionGut::Elementary(e));
                            Some(k)
                        }
                    },
                    None => {
                        let err = ShapeDefinitionResolutionError::from_lookup_route(
                            LookUpRouteError::unknown_root_route_fraction(pb.position.duplicate()),
                        );
                        self.add_error(err);
                        proof {
                            lemma_grown_by_step(start, *self);
                        }
                        None
                    },
                }
            },
            RidToShapeRouteResult::SingleCellOrRelativeKeywordRouteNotAllowed => {
                let e = ShapeDefinitionResolutionError::from_lookup_route(
                    LookUpRouteError::single_cell_or_relative_keyword_route_not_allowed(pb.position.duplicate()),
                );
                self.add_error(e);
                proof {
                    lemma_grown_by_step(start, *self);
                }
                None
            },
        }
    }

    /// Reads the fields of a struct type in context `c`, one after the
    /// other: the fields entered, by name, and whether reading was refused
    /// (see `entered_names` and `struct_refused`).
    fn read_struct_fields(&mut self, c: ShapeDescriptionContextKey, cases: &Vec<ParsedBox<StructCase>>) -> (res: (
        KeyedMap<String, ShapeDescriptionKey>,
        bool,
    ))
        requires
            context_readable(*old(self), c.0),
            old(self).descriptions().len() + case_sizes(cases@) <= usize::MAX,
        ensures
            final(self).grown_by_reading(*old(self)),
            final(self).descriptions().len() <= old(self).descriptions().len() + case_sizes(cases@),
            res.0.as_map().dom() == entered_names(reading_of(*old(self), c.0), cases@),
            res.1 == struct_refused(reading_of(*old(self), c.0), cases@),
            !res.1 ==> fields_describe(reading_of(*old(self), c.0), final(self).descriptions(), c.0, cases@, res.0.as_map()),
            (final(self).gsc_summary.errors@.len() == old(self).gsc_summary.errors@.len()) == fields_quiet(
                reading_of(*old(self), c.0),
                cases@,
            ),
        decreases *cases, 0nat,
    {
        let ghost r = reading_of(*self, c.0);
        let ghost start = *self;
        let mut acc: KeyedMap<String, ShapeDescriptionKey> = KeyedMap::new();
        let mut is_err = false;
        let mut i: usize = 0;
        proof {
            lemma_grown_by_reading_refl(*self);
            assert(cases@.take(0) =~= Seq::<ParsedBox<StructCase>>::empty());
            assert(acc.as_map().dom() =~= Set::<Seq<char>>::empty());
        }
        while i < cases.len()
            invariant
                i <= cases@.len(),
                self.grown_by_reading(start),
                reading_of(start, c.0) == r,
                context_readable(*self, c.0),
                start.descriptions().len() + case_sizes(cases@) <= usize::MAX,
                self.descriptions().len() <= start.descriptions().len() + case_sizes(cases@.take(i as int)),
                acc.as_map().dom() == entered_names(r, cases@.take(i as int)),
                is_err == struct_refused(r, cases@.take(i as int)),
                !is_err ==> fields_describe(r, self.descriptions(), c.0, cases@.take(i as int), acc.as_map()),
                (self.gsc_summary.errors@.len() == start.gsc_summary.errors@.len()) == fields_quiet(r, cases@.take(i as int)),
            decreases cases.len() - i,
        {
            proof {
                lemma_case_sizes_prefix(cases@, i as int);
            }
            let ghost before = *self;
            let ghost acc0 = acc.as_map();
            let ghost prev = cases@.take(i as int);
            let ghost t = cases@.take(i + 1);
            let ghost nb = self.gsc_summary.errors@.len();
            let ghost step_quiet = match cases@[i as int].value.value {
                StructCaseValue::Typed(ty) => reads_quietly(r, ty),
                StructCaseValue::Assigned(pv) => pattern_type(r, pv.value.name@) is Some,
            };
            let case = &cases[i];
            let name = case.value.id.value.name.clone();
            let mut this_err = false;
            if acc.contains_key(&name) {
                let e = ShapeDefinitionResolutionError::from_shape_description(
                    ShapeDescriptionResolutionError::struct_field_name_duplication(case.value.id.position.duplicate(), name.clone()),
                );
                self.add_error(e);
                proof {
                    lemma_grown_by_step(before, *self);
                }
                this_err = true;
            }
            let ghost s1 = *self;
            proof {
                if !this_err {
                    lemma_grown_by_reading_refl(before);
                }
            }
            match &case.value.value {
                StructCaseValue::Typed(ty) => {
                    match self.read_type(c, ty) {
                        Some(k) => {
                            acc.insert(name, k);
                        },
                        None => {},
                    }
                    proof {
                        lemma_grown_by_reading_trans(before, s1, *self);
                        assert(reading_of(s1, c.0) == r);
                        assert(acc.as_map().dom() =~= if field_entered(r, cases@[i as int]) {
                            acc0.dom().insert(cases@[i as int].value.id.value.name@)
                        } else {
                            acc0.dom()
                        });
                    }
                },
                StructCaseValue::Assigned(pv) => {
                    let found = match &self.gsc_summary.kv_tables.shape_description_context_table[c.0].definition_pattern_variable_types {
                        Some(m) => Some(
                            match m.get(&pv.value.name) {
                                Some(k) => Some(*k),
                                None => None,
                            },
                        ),
                        None => None,
                    };
                    match found {
                        Some(Some(k)) => {
                            acc.insert(name, k);
                        },
                        Some(None) => {
                            let e = ShapeDefinitionResolutionError::from_shape_description(
                                ShapeDescriptionResolutionError::unknown_pattern_variable(
                                    case.value.id.position.duplicate(),
                                    pv.value.name.clone(),
                                ),
                            );
                            self.add_error(e);
                            proof {
                                lemma_grown_by_step(s1, *self);
                                lemma_grown_by_reading_trans(before, s1, *self);
                            }
                            this_err = true;
                        },
                        None => {
                            let e = ShapeDefinitionResolutionError::from_shape_description(
                                ShapeDescriptionResolutionError::unexpected_assignment_syntax_sugar_used(
                                    case.value.id.position.duplicate(),
                                ),
                            );
                            self.add_error(e);
                            proof {
                                lemma_grown_by_step(s1, *self);
                                lemma_grown_by_reading_trans(before, s1, *self);
                            }
                            this_err = true;
                        },
                    }
                    proof {
                        if found is Some && found.unwrap() is Some {
                            lemma_grown_by_reading_refl(*self);
                            lemma_grown_by_reading_trans(before, s1, *self);
                        }
                        assert(r.patterns == reading_of(s1, c.0).patterns);
                        assert(acc.as_map().dom() =~= if field_entered(r, cases@[i as int]) {
                            acc0.dom().insert(cases@[i as int].value.id.value.name@)
                        } else {
                            acc0.dom()
                        });
                    }
                },
            }
            is_err = this_err || is_err;
            proof {
                lemma_grown_by_reading_trans(start, before, *self);
                assert(t.drop_last() =~= prev);
                assert(t.last() == cases@[i as int]);
                let dup = acc0.dom().contains(cases@[i as int].value.id.value.name@);
                assert((self.gsc_summary.errors@.len() == nb) == (!dup && step_quiet));
                assert(fields_quiet(r, t) == (fields_quiet(r, prev) && !dup && step_quiet)) by {
                    if fields_quiet(r, t) {
                        assert(field_quiet(r, t[i as int]));
                        assert forall|j: int| 0 <= j < prev.len() implies field_quiet(r, #[trigger] prev[j]) by {
                            assert(t[j] == prev[j]);
                        }
                    }
                    if fields_quiet(r, prev) && !dup && step_quiet {
                        assert forall|j: int| 0 <= j < t.len() implies field_quiet(r, #[trigger] t[j]) by {
                            if j < i {
                                assert(t[j] == prev[j]);
                            }
                        }
                    }
                }
                assert(acc.as_map().dom() =~= entered_names(r, t));
                if !is_err {
                    lemma_fields_grow(r, before.descriptions(), self.descriptions(), c.0, prev, acc0);
                    assert forall|j: int| 0 <= j < t.len() && field_entered(r, #[trigger] t[j]) implies field_describes(
                        r,
                        self.descriptions(),
                        c.0,
                        t[j],
                        acc.as_map()[t[j].value.id.value.name@],
                    ) by {
                        if j < i {
                            assert(t[j] == prev[j]);
                            lemma_entered_in(r, prev, j);
                        }
                    }
                }
            }
            i = i + 1;
        }
        proof {
            assert(cases@.take(i as int) =~= cases@);
        }
        (acc, is_err)
    }

    /// Reads the written type `pb_type` into shape descriptions, in the
    /// description context stored under `shape_description_context_key`.
    /// Where the type reads (`type_reads`), the key returned stands for it
    /// (`describes`); where it does not, nothing is returned and what was
    /// refused is reported in the errors: none exactly where the type reads
    /// quietly (`reads_quietly`), and exactly one, of the matching kind at
    /// the type's position, where the type is a named type that is refused
    /// (`refusal_error`). Only descriptions and errors are added to the
    /// summary.
    pub fn shape_description_from_pb_type(
        &mut self,
        shape_description_context_key: ShapeDescriptionContextKey,
        pb_type: ParsedBox<Type>,
    ) -> (res: Option<ShapeDescriptionKey>)
        requires
            context_readable(*old(self), shape_description_context_key.0),
            old(self).descriptions().len() + type_size(pb_type) <= usize::MAX,
        ensures
            final(self).grown_by_reading(*old(self)),
            final(self).descriptions().len() <= old(self).descriptions().len() + type_size(pb_type),
            res is Some == type_reads(reading_of(*old(self), shape_description_context_key.0), pb_type),
            res is Some ==> describes(
                reading_of(*old(self), shape_description_context_key.0),
                final(self).descriptions(),
                shape_description_context_key.0,
                pb_type,
                res.unwrap().0,
            ),
            (final(self).gsc_summary.errors@ == old(self).gsc_summary.errors@) == reads_quietly(
                reading_of(*old(self), shape_description_context_key.0),
                pb_type,
            ),
            pb_type.value.gut is Identifier && is_refusal(
                name_reading(reading_of(*old(self), shape_description_context_key.0), pb_type.value.gut->Identifier_0),
            ) ==> final(self).gsc_summary.errors@ == old(self).gsc_summary.errors@.push(final(self).gsc_summary.errors@.last())
                && refusal_error(
                final(self).gsc_summary.errors@.last(),
                name_reading(reading_of(*old(self), shape_description_context_key.0), pb_type.value.gut->Identifier_0),
                pb_type.position@,
            ),
    {
        let ghost e0 = self.gsc_summary.errors@;
        let res = self.read_type(shape_description_context_key, &pb_type);
        proof {
            if self.gsc_summary.errors@.len() == e0.len() {
                assert(self.gsc_summary.errors@ =~= e0);
            }
        }
        res
    }

    /// Reads the generic arguments of `pb_template_call` into shape
    /// descriptions, in the description context stored under
    /// `shape_description_context_key`: their keys, in order, where every one
    /// reads; nothing otherwise, with what was refused reported in the errors.
    pub fn unresolved_shape_from_pb_template_call(
        &mut self,
        shape_description_context_key: ShapeDescriptionContextKey,
        pb_template_call: ParsedBox<TemplateCall>,
    ) -> (res: Option<Vec<ShapeDescriptionKey>>)
        requires
            context_readable(*old(self), shape_description_context_key.0),
            old(self).descriptions().len() + sizes(pb_template_call.value.args@) <= usize::MAX,
        ensures
            final(self).grown_by_reading(*old(self)),
            final(self).descriptions().len() <= old(self).descriptions().len() + sizes(pb_template_call.value.args@),
            res is Some == all_read(reading_of(*old(self), shape_description_context_key.0), pb_template_call.value.args@),
            res is Some ==> all_describe(
                reading_of(*old(self), shape_description_context_key.0),
                final(self).descriptions(),
                shape_description_context_key.0,
                pb_template_call.value.args@,
                res.unwrap()@,
            ),
            (final(self).gsc_summary.errors@ == old(self).gsc_summary.errors@) == all_quiet(
                reading_of(*old(self), shape_description_context_key.0),
                pb_template_call.value.args@,
            ),
    {
        let ghost e0 = self.gsc_summary.errors@;
        let res = self.read_all(shape_description_context_key, &pb_template_call.value.args);
        proof {
            if self.gsc_summary.errors@.len() == e0.len() {
                assert(self.gsc_summary.errors@ =~= e0);
            }
        }
        res
    }

    /// Stores the generic parameters `params` and a description context in
    /// module `module_route` that has them in scope and binds no pattern
    /// variables.
    fn declare(&mut self, params: Vec<GenericParamDef>, module_route: &Route) -> (res: (GenericParamDescriptionKey, ShapeDescriptionContextKey))
        requires
            old(self).gsc_summary.kv_tables.generic_param_description_table@.len() < usize::MAX,
            old(self).gsc_summary.kv_tables.shape_description_context_table@.len() < usize::MAX,
        ensures
            final(self).grown_by_declaring(*old(self)),
            final(self).gsc_summary.kv_tables.generic_param_description_table@.len()
                == old(self).gsc_summary.kv_tables.generic_param_description_table@.len() + 1,
            final(self).gsc_summary.kv_tables.shape_description_context_table@.len()
                == old(self).gsc_summary.kv_tables.shape_description_context_table@.len() + 1,
            final(self).descriptions() == old(self).descriptions(),
            context_readable(*final(self), res.1.0),
            final(self).gsc_summary.kv_tables.shape_description_context_table@[res.1.0 as int].generic_param_key == Some(res.0),
            final(self).gsc_summary.kv_tables.generic_param_description_table@[res.0.0 as int].params@ == params@,
            reading_of(*final(self), res.1.0) == guard_reading(module_route@, param_names(params@), tables_of(*old(self))),
    {
        let ghost start = *self;
        let ghost pv = params@;
        let gk = self.new_generic_param_description(GenericParamDescription { params });
        let ck = self.new_shape_description_context(
            ShapeDescriptionContext {
                module_route: module_route.duplicate(),
                generic_param_key: Some(gk),
                definition_pattern_variable_types: None,
            },
        );
        proof {
            let t = self.gsc_summary.kv_tables;
            let o = start.gsc_summary.kv_tables;
            assert(t.generic_param_description_table@.take(o.generic_param_description_table@.len() as int)
                =~= o.generic_param_description_table@);
            assert(t.shape_description_context_table@.take(o.shape_description_context_table@.len() as int)
                =~= o.shape_description_context_table@);
            assert(self.descriptions().take(start.descriptions().len() as int) =~= start.descriptions());
            assert(self.gsc_summary.errors@.take(start.gsc_summary.errors@.len() as int) =~= start.gsc_summary.errors@);
            assert(reading_of(*self, ck.0) =~= guard_reading(module_route@, param_names(pv), tables_of(start)));
        }
        (gk, ck)
    }

    /// Declares the generic parameters of `pb_template_call` in module
    /// `module_route`, one after the other, each with those before it in
    /// scope: a name declared before is reported in the errors; a guard is
    /// read into descriptions, and where it does not read, nothing is
    /// returned at once. Where every parameter declares
    /// (`template_def_reads`), the keys returned are those of the
    /// parameters' description and of a context that has them all in scope.
    #[verifier::rlimit(60)]
    pub fn unresolved_shape_from_pb_template_def(
        &mut self,
        module_route: Route,
        pb_template_call: ParsedBox<TemplateDef>,
    ) -> (res: Option<(GenericParamDescriptionKey, ShapeDescriptionContextKey)>)
        requires
            old(self).gsc_summary.kv_tables.generic_param_description_table@.len() + pb_template_call.value.args@.len()
                < usize::MAX,
            old(self).gsc_summary.kv_tables.shape_description_context_table@.len() + pb_template_call.value.args@.len()
                < usize::MAX,
            old(self).descriptions().len() + guard_sizes(pb_template_call.value.args@) <= usize::MAX,
        ensures
            final(self).grown_by_declaring(*old(self)),
            final(self).gsc_summary.kv_tables.generic_param_description_table@.len()
                <= old(self).gsc_summary.kv_tables.generic_param_description_table@.len() + pb_template_call.value.args@.len() + 1,
            final(self).gsc_summary.kv_tables.shape_description_context_table@.len()
                <= old(self).gsc_summary.kv_tables.shape_description_context_table@.len() + pb_template_call.value.args@.len() + 1,
            final(self).descriptions().len() <= old(self).descriptions().len() + guard_sizes(pb_template_call.value.args@),
            res is Some == template_def_reads(module_route@, tables_of(*old(self)), pb_template_call.value.args@),
            res is Some ==> ({
                let gk = res.unwrap().0;
                let ck = res.unwrap().1;
                let t = final(self).gsc_summary.kv_tables;
                let params = t.generic_param_description_table@[gk.0 as int].params@;
                let args = pb_template_call.value.args@;
                &&& context_readable(*final(self), ck.0)
                &&& t.shape_description_context_table@[ck.0 as int].generic_param_key == Some(gk)
                &&& reading_of(*final(self), ck.0) == guard_reading(module_route@, arg_names(args), tables_of(*old(self)))
                &&& params.len() == args.len()
                &&& forall|i: int| 0 <= i < params.len() ==> declared_param(*final(self), module_route@, args, i, #[trigger] params[i])
            }),
            forall|j: int| 0 <= j < pb_template_call.value.args@.len() && declared_names(arg_names(pb_template_call.value.args@), j).contains(
                arg_names(pb_template_call.value.args@)[j],
            ) && guards_before_read(module_route@, tables_of(*old(self)), pb_template_call.value.args@, j) ==> exists|k: int|
                old(self).gsc_summary.errors@.len() <= k < final(self).gsc_summary.errors@.len() && #[trigger] duplicate_error(
                final(self).gsc_summary.errors@[k],
                pb_template_call.value.args@[j],
            ),
    {
        let ghost start = *self;
        let ghost mr = module_route@;
        let ghost tables = tables_of(*self);
        let args = &pb_template_call.value.args;
        let ghost names = arg_names(args@);
        let (mut gk, mut ck) = self.declare(Vec::new(), &module_route);
        let mut is_err = false;
        let mut i: usize = 0;
        proof {
            assert(names.take(0) =~= Seq::<Seq<char>>::empty());
            assert(param_names(Seq::<GenericParamDef>::empty()) =~= Seq::<Seq<char>>::empty());
            assert(args@.take(0) =~= Seq::<TemplateArg>::empty());
            assert(declared_names(names, 0) =~= Seq::<Seq<char>>::empty());
        }
        while i < args.len()
            invariant
                i <= args@.len(),
                start == *old(self),
                mr == module_route@,
                tables == tables_of(start),
                args@ == pb_template_call.value.args@,
                names == arg_names(args@),
                self.grown_by_declaring(start),
                tables_of(*self) == tables,
                context_readable(*self, ck.0),
                gk.0 < self.gsc_summary.kv_tables.generic_param_description_table@.len(),
                self.gsc_summary.kv_tables.shape_description_context_table@[ck.0 as int].generic_param_key == Some(gk),
                reading_of(*self, ck.0) == guard_reading(
                    mr,
                    param_names(self.gsc_summary.kv_tables.generic_param_description_table@[gk.0 as int].params@),
                    tables,
                ),
                self.gsc_summary.kv_tables.generic_param_description_table@.len()
                    <= start.gsc_summary.kv_tables.generic_param_description_table@.len() + 1 + i,
                self.gsc_summary.kv_tables.shape_description_context_table@.len()
                    <= start.gsc_summary.kv_tables.shape_description_context_table@.len() + 1 + i,
                start.gsc_summary.kv_tables.generic_param_description_table@.len() + args@.len() < usize::MAX,
                start.gsc_summary.kv_tables.shape_description_context_table@.len() + args@.len() < usize::MAX,
                start.descriptions().len() + guard_sizes(args@) <= usize::MAX,
                self.descriptions().len() <= start.descriptions().len() + guard_sizes(args@.take(i as int)),
                is_err == !names.take(i as int).no_duplicates(),
                !is_err ==> param_names(self.gsc_summary.kv_tables.generic_param_description_table@[gk.0 as int].params@)
                    == names.take(i as int),
                !is_err ==> forall|j: int| 0 <= j < i ==> declared_param(
                    *self,
                    mr,
                    args@,
                    j,
                    #[trigger] self.gsc_summary.kv_tables.generic_param_description_table@[gk.0 as int].params@[j],
                ),
                !is_err ==> forall|j: int| 0 <= j < i && (#[trigger] args@[j]).value.1 is Some ==> type_reads(
                    guard_reading(mr, names.take(j), tables),
                    args@[j].value.1.unwrap(),
                ),
                param_names(self.gsc_summary.kv_tables.generic_param_description_table@[gk.0 as int].params@) == declared_names(names, i as int),
                guards_before_read(mr, tables, args@, i as int),
                forall|j: int| 0 <= j < i && declared_names(names, j).contains(names[j]) ==> exists|k: int|
                    start.gsc_summary.errors@.len() <= k < self.gsc_summary.errors@.len() && #[trigger] duplicate_error(
                    self.gsc_summary.errors@[k],
                    args@[j],
                ),
            decreases args.len() - i,
        {
            let ghost before = *self;
            let ghost old_params = self.gsc_summary.kv_tables.generic_param_description_table@[gk.0 as int].params@;
            proof {
                lemma_guard_sizes_prefix(args@, i as int);
                assert(names.take(i + 1) =~= names.take(i as int).push(names[i as int]));
                assert(names[i as int] == args@[i as int].value.0.value.name@);
                assert(param_names(old_params).len() == old_params.len());
            }
            let name = &args[i].value.0.value.name;
            if declares_name(&self.gsc_summary.kv_tables.generic_param_description_table[gk.0].params, name) {
                let e = ShapeDefinitionResolutionError::from_content_resolution(
                    ContentResolutionError::duplicate_generic_variable_definition(args[i].value.0.position.duplicate(), name.clone()),
                );
                self.add_error(e);
                proof {
                    lemma_grown_by_step(before, *self);
                    lemma_declaring_from_reading(before, *self);
                    lemma_declaring_trans(start, before, *self);
                    lemma_reading_kept(before, *self, ck.0);
                    assert(self.gsc_summary.kv_tables.generic_param_description_table == before.gsc_summary.kv_tables.generic_param_description_table);
                    assert(tables_of(*self) == tables);
                    if !is_err {
                        let k = param_names(old_params).index_of(names[i as int]);
                        assert(names.take(i + 1)[k] == names.take(i + 1)[i as int]);
                    }
                    assert(declared_names(names, i + 1) == declared_names(names, i as int));
                    let nb = before.gsc_summary.errors@.len();
                    assert(duplicate_error(self.gsc_summary.errors@[nb as int], args@[i as int]));
                    assert forall|l: int| 0 <= l < i + 1 && declared_names(names, l).contains(names[l]) implies exists|k: int|
                        start.gsc_summary.errors@.len() <= k < self.gsc_summary.errors@.len() && #[trigger] duplicate_error(
                        self.gsc_summary.errors@[k],
                        args@[l],
                    ) by {
                        if l < i {
                            let k = choose|k: int| start.gsc_summary.errors@.len() <= k < before.gsc_summary.errors@.len()
                                && #[trigger] duplicate_error(before.gsc_summary.errors@[k], args@[l]);
                            assert(self.gsc_summary.errors@[k] == before.gsc_summary.errors@[k]);
                        } else {
                            assert(duplicate_error(self.gsc_summary.errors@[nb as int], args@[l]));
                        }
                    }
                    assert forall|l: int| 0 <= l < i + 1 && (#[trigger] args@[l]).value.1 is Some && !declared_names(names, l).contains(
                        names[l],
                    ) implies type_reads(guard_reading(mr, declared_names(names, l), tables), args@[l].value.1.unwrap()) by {
                        assert(guards_before_read(mr, tables, args@, i as int));
                    }
                    assert(guards_before_read(mr, tables, args@, i + 1));
                }
                is_err = true;
            } else {
                let def = match &args[i].value.1 {
                    None => {
                        proof {
                            lemma_grown_by_reading_refl(before);
                        }
                        GenericParamDef::Variable(name.clone())
                    },
                    Some(g) => {
                        match self.read_type(ck, g) {
                            Some(k) => GenericParamDef::Guarded(name.clone(), k),
                            None => {
                                proof {
                                    lemma_declaring_from_reading(before, *self);
                                    lemma_declaring_trans(start, before, *self);
                                    assert(self.grown_by_declaring(start));
                                    if !is_err {
                                        assert(args@[i as int].value.1 is Some);
                                        assert(reading_of(before, ck.0) == guard_reading(mr, names.take(i as int), tables));
                                        assert(!type_reads(guard_reading(mr, names.take(i as int), tables), args@[i as int].value.1.unwrap()));
                                        assert(!template_def_reads(mr, tables, args@));
                                    } else {
                                        let a = choose|a: int, b: int| 0 <= a < names.take(i as int).len() && 0 <= b < names.take(i as int).len()
                                            && a != b && names.take(i as int)[a] == names.take(i as int)[b];
                                        assert(names[a.0] == names.take(i as int)[a.0]);
                                        assert(names[a.1] == names.take(i as int)[a.1]);
                                    }
                                    assert(!declared_names(names, i as int).contains(names[i as int]));
                                    assert(!type_reads(guard_reading(mr, declared_names(names, i as int), tables), args@[i as int].value.1.unwrap()));
                                    assert forall|l: int| 0 <= l < args@.len() && declared_names(names, l).contains(names[l])
                                        && guards_before_read(mr, tables, args@, l) implies exists|k: int|
                                        start.gsc_summary.errors@.len() <= k < self.gsc_summary.errors@.len() && #[trigger] duplicate_error(
                                        self.gsc_summary.errors@[k],
                                        args@[l],
                                    ) by {
                                        if l < i {
                                            let k = choose|k: int| start.gsc_summary.errors@.len() <= k < before.gsc_summary.errors@.len()
                                                && #[trigger] duplicate_error(before.gsc_summary.errors@[k], args@[l]);
                                            assert(self.gsc_summary.errors@.take(before.gsc_summary.errors@.len() as int)[k] == before.gsc_summary.errors@[k]);
                                        } else if l > i {
                                            assert(args@[i as int].value.1 is Some);
                                        }
                                    }
                                }
                                return None;
                            },
                        }
                    },
                };
                let ghost mid = *self;
                let ghost dv = def;
                proof {
                    lemma_declaring_from_reading(before, mid);
                    lemma_reading_kept(before, mid, ck.0);
                }
                let mut params = copy_params(&self.gsc_summary.kv_tables.generic_param_description_table[gk.0].params);
                params.push(def);
                let ghost pv = params@;
                let (g2, c2) = self.declare(params, &module_route);
                proof {
                    lemma_declaring_trans(before, mid, *self);
                    lemma_declaring_trans(start, before, *self);
                    assert(tables_of(mid) == tables);
                    assert(module_route@ == mr);
                    assert(reading_of(*self, c2.0) == guard_reading(module_route@, param_names(pv), tables_of(mid)));
                    assert(reading_of(*self, c2.0) == guard_reading(mr, param_names(pv), tables));
                    assert(param_names(pv) =~= param_names(old_params).push(names[i as int]));
                    if !is_err {
                        assert forall|j: int| 0 <= j < i + 1 implies declared_param(*self, mr, args@, j,
                            #[trigger] self.gsc_summary.kv_tables.generic_param_description_table@[g2.0 as int].params@[j]) by {
                            let q = self.gsc_summary.kv_tables.generic_param_description_table@[g2.0 as int].params@[j];
                            if j < i {
                                assert(q == pv[j]);
                                assert(same_param(q, old_params[j]));
                                lemma_declared_kept(before, *self, mr, args@, j, old_params[j], q);
                            } else {
                                assert(q == dv);
                                assert(names.take(i as int) == param_names(old_params));
                                match (dv, args@[i as int].value.1) {
                                    (GenericParamDef::Guarded(_, k), Some(g)) => {
                                        lemma_describes_grow(reading_of(mid, ck.0), mid.descriptions(), self.descriptions(), ck.0, g, k.0);
                                        lemma_reading_kept(mid, *self, ck.0);
                                        assert(context_readable(*self, ck.0));
                                        assert(reading_of(*self, ck.0) == guard_reading(mr, names.take(j), tables_of(*self)));
                                    },
                                    _ => {},
                                }
                            }
                        }
                    }
                }
                proof {
                    assert(!declared_names(names, i as int).contains(names[i as int]));
                    assert(declared_names(names, i + 1) == declared_names(names, i as int).push(names[i as int]));
                    assert forall|l: int| 0 <= l < i + 1 && declared_names(names, l).contains(names[l]) implies exists|k: int|
                        start.gsc_summary.errors@.len() <= k < self.gsc_summary.errors@.len() && #[trigger] duplicate_error(
                        self.gsc_summary.errors@[k],
                        args@[l],
                    ) by {
                        if l < i {
                            let k = choose|k: int| start.gsc_summary.errors@.len() <= k < before.gsc_summary.errors@.len()
                                && #[trigger] duplicate_error(before.gsc_summary.errors@[k], args@[l]);
                            assert(self.gsc_summary.errors@.take(before.gsc_summary.errors@.len() as int)[k] == before.gsc_summary.errors@[k]);
                        }
                    }
                    assert forall|l: int| 0 <= l < i + 1 && (#[trigger] args@[l]).value.1 is Some && !declared_names(names, l).contains(
                        names[l],
                    ) implies type_reads(guard_reading(mr, declared_names(names, l), tables), args@[l].value.1.unwrap()) by {
                        assert(guards_before_read(mr, tables, args@, i as int));
                    }
                    assert(guards_before_read(mr, tables, args@, i + 1));
                }
                gk = g2;
                ck = c2;
            }
            proof {
                if !is_err {
                    assert forall|j: int| 0 <= j < i + 1 && (#[trigger] args@[j]).value.1 is Some implies type_reads(
                        guard_reading(mr, names.take(j), tables),
                        args@[j].value.1.unwrap(),
                    ) by {}
                }
                if is_err && names.take(i as int).no_duplicates() == false {
                    let a = choose|a: int, b: int| 0 <= a < names.take(i as int).len() && 0 <= b < names.take(i as int).len()
                        && a != b && names.take(i as int)[a] == names.take(i as int)[b];
                    assert(names.take(i + 1)[a.0] == names.take(i as int)[a.0]);
                    assert(names.take(i + 1)[a.1] == names.take(i as int)[a.1]);
                }
            }
            i = i + 1;
        }
        proof {
            assert(names.take(i as int) =~= names);
            assert(args@.take(i as int) =~= args@);
        }
        if is_err {
            None
        } else {
            Some((gk, ck))
        }
    }

    /// Reads the written types `pbs` in context `c`, one after the other;
    /// their keys where every one reads.
    fn read_all(&mut self, c: ShapeDescriptionContextKey, pbs: &Vec<ParsedBox<Type>>) -> (res: Option<Vec<ShapeDescriptionKey>>)
        requires
            context_readable(*old(self), c.0),
            old(self).descriptions().len() + sizes(pbs@) <= usize::MAX,
        ensures
            final(self).grown_by_reading(*old(self)),
            final(self).descriptions().len() <= old(self).descriptions().len() + sizes(pbs@),
            res is Some == all_read(reading_of(*old(self), c.0), pbs@),
            res is Some ==> all_describe(reading_of(*old(self), c.0), final(self).descriptions(), c.0, pbs@, res.unwrap()@),
            (final(self).gsc_summary.errors@.len() == old(self).gsc_summary.errors@.len()) == all_quiet(
                reading_of(*old(self), c.0),
                pbs@,
            ),
        decreases *pbs, 0nat,
    {
        let ghost r = reading_of(*self, c.0);
        let ghost start = *self;
        let mut keys: Vec<ShapeDescriptionKey> = Vec::new();
        let mut ok = true;
        let mut i: usize = 0;
        proof {
            lemma_grown_by_reading_refl(*self);
            assert(pbs@.take(0) =~= Seq::<ParsedBox<Type>>::empty());
        }
        while i < pbs.len()
            invariant
                i <= pbs@.len(),
                self.grown_by_reading(start),
                reading_of(start, c.0) == r,
                context_readable(*self, c.0),
                start.descriptions().len() + sizes(pbs@) <= usize::MAX,
                self.descriptions().len() <= start.descriptions().len() + sizes(pbs@.take(i as int)),
                ok == all_read(r, pbs@.take(i as int)),
                ok ==> all_describe(r, self.descriptions(), c.0, pbs@.take(i as int), keys@),
                (self.gsc_summary.errors@.len() == start.gsc_summary.errors@.len()) == all_quiet(r, pbs@.take(i as int)),
            decreases pbs.len() - i,
        {
            proof {
                lemma_sizes_prefix(pbs@, i as int);
            }
            let ghost before = *self;
            let res = self.read_type(c, &pbs[i]);
            proof {
                lemma_grown_by_reading_trans(start, before, *self);
                let t = pbs@.take(i + 1);
                assert(t =~= pbs@.take(i as int).push(pbs@[i as int]));
                if ok {
                    lemma_all_describe_grow(r, before.descriptions(), self.descriptions(), c.0, pbs@.take(i as int), keys@);
                }
                if all_read(r, t) {
                    assert(type_reads(r, t[i as int]));
                }
            }
            match res {
                Some(k) => {
                    if ok {
                        keys.push(k);
                    }
                },
                None => {
                    ok = false;
                },
            }
            proof {
                let t = pbs@.take(i + 1);
                if ok {
                    assert forall|j: int| 0 <= j < t.len() implies describes(r, self.descriptions(), c.0, #[trigger] t[j], keys@[j].0) by {
                        if j < i {
                            assert(t[j] == pbs@.take(i as int)[j]);
                        }
                    }
                }
                assert(ok == all_read(r, t)) by {
                    if ok {
                        assert forall|j: int| 0 <= j < t.len() implies type_reads(r, #[trigger] t[j]) by {
                            if j < i {
                                assert(t[j] == pbs@.take(i as int)[j]);
                            }
                        }
                    } else if all_read(r, t) {
                        assert forall|j: int| 0 <= j < i implies type_reads(r, #[trigger] pbs@.take(i as int)[j]) by {
                            assert(t[j] == pbs@.take(i as int)[j]);
                        }
                    }
                }
                let q = self.gsc_summary.errors@.len() == start.gsc_summary.errors@.len();
                assert(q == all_quiet(r, t)) by {
                    if q {
                        assert forall|j: int| 0 <= j < t.len() implies reads_quietly(r, #[trigger] t[j]) by {
                            if j < i {
                                assert(t[j] == pbs@.take(i as int)[j]);
                            }
                        }
                    } else if all_quiet(r, t) {
                        assert(reads_quietly(r, t[i as int]));
                        assert forall|j: int| 0 <= j < i implies reads_quietly(r, #[trigger] pbs@.take(i as int)[j]) by {
                            assert(t[j] == pbs@.take(i as int)[j]);
                        }
                    }
                }
            }
            i = i + 1;
        }
        proof {
            assert(pbs@.take(i as int) =~= pbs@);
        }
        if ok {
            Some(keys)
        } else {
            None
        }
    }
}

} // verus!
