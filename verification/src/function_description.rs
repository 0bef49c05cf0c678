use vstd::prelude::*;
use crate::ast::{Expr, FunctionBlock, FunctionDef, Type};
use crate::elementary_shape::ElementaryShape;
use crate::parsed::{Identifier, ParsedBox, ParsedPosition};
use crate::shape_data::{
    ClosureDescription, ClosureDescriptionGut, ClosureParameterDescription, FunctionDescription, ShapeDescription,
    ShapeDescriptionGut, ShapeVarianceAnnotation,
};
use crate::shape_errors::{
    FunctionDescriptionResolutionError, FunctionDescriptionResolutionErrorKind, ShapeDefinitionResolutionError,
    ShapeDefinitionResolutionErrorKind,
};
use crate::shape_keys::{ClosureDescriptionKey, FunctionDescriptionContextKey, FunctionDescriptionKey, ShapeDescriptionContextKey, ShapeDescriptionKey};
use crate::shape_summary::{GrandShapeContentSummary, GrandShapeContentSummaryAtWork, KVTables};
use crate::type_description::{Reading, context_readable, describes, lemma_describes_grow, lemma_grown_by_reading_refl, lemma_grown_by_step, reading_of, seq_extends, table_extends, type_reads, type_size};

verus! {

/// The closure descriptions stored in `s`, by key.
pub open spec fn closures_of(s: GrandShapeContentSummaryAtWork) -> Seq<ClosureDescription> {
    s.gsc_summary.kv_tables.closure_description_table@
}

/// The function descriptions stored in `s`, by key.
pub open spec fn functions_of(s: GrandShapeContentSummaryAtWork) -> Seq<FunctionDescription> {
    s.gsc_summary.kv_tables.function_description_table@
}

/// Whether closure `k` of `cs` is stored, and so is each closure it
/// returns, each stored before the closure that returns it.
pub open spec fn chain_ok(cs: Seq<ClosureDescription>, k: usize) -> bool
    decreases k,
{
    &&& k < cs.len()
    &&& match cs[k as int].gut {
        ClosureDescriptionGut::HigherOrder(c2) => c2.0 < k && chain_ok(cs, c2.0),
        ClosureDescriptionGut::Closure { .. } => true,
    }
}

/// How many closures make up the chain from closure `k` of `cs`.
pub open spec fn chain_len(cs: Seq<ClosureDescription>, k: usize) -> nat
    decreases k,
{
    if k < cs.len() {
        match cs[k as int].gut {
            ClosureDescriptionGut::HigherOrder(c2) => if c2.0 < k {
                1 + chain_len(cs, c2.0)
            } else {
                1
            },
            ClosureDescriptionGut::Closure { .. } => 1,
        }
    } else {
        1
    }
}

/// The shapes of the parameters of closure `c`, in order.
pub open spec fn param_keys(c: ClosureDescription) -> Seq<ShapeDescriptionKey> {
    c.params@.map_values(|p: ClosureParameterDescription| p.shape_description_key)
}

/// Whether description `k` of `t` is the function shape of closure `ck` of
/// `cs`, made in context `c`: a covariant function shape at the closure's
/// position, from the shapes of its parameters to the shape of what it
/// returns, which for a closure returning a closure is that closure's
/// function shape.
pub open spec fn closure_shape(t: Seq<ShapeDescription>, cs: Seq<ClosureDescription>, ck: usize, c: usize, k: usize) -> bool
    decreases ck,
{
    &&& k < t.len()
    &&& t[k as int].context_key.0 == c
    &&& t[k as int].annotation == ShapeVarianceAnnotation::Covariant
    &&& t[k as int].pos@ == cs[ck as int].pos@
    &&& match (t[k as int].gut, cs[ck as int].gut) {
        (ShapeDescriptionGut::Function { args, ret }, ClosureDescriptionGut::HigherOrder(c2)) => args@ == param_keys(
            cs[ck as int],
        ) && c2.0 < ck && closure_shape(t, cs, c2.0, c, ret.0),
        (ShapeDescriptionGut::Function { args, ret }, ClosureDescriptionGut::Closure { return_type, .. }) => args@
            == param_keys(cs[ck as int]) && ret == return_type,
        _ => false,
    }
}

/// Growing by reading is growing by describing.
proof fn lemma_describing_from_reading(a: GrandShapeContentSummaryAtWork, b: GrandShapeContentSummaryAtWork)
    requires
        b.grown_by_reading(a),
    ensures
        b.grown_by_describing(a),
{
    let t = b.gsc_summary.kv_tables;
    assert(t.closure_description_table@.take(t.closure_description_table@.len() as int) =~= t.closure_description_table@);
    assert(t.function_description_table@.take(t.function_description_table@.len() as int) =~= t.function_description_table@);
}

/// Adding errors only is growing by describing.
proof fn lemma_same_but_errors_describing(a: GrandShapeContentSummaryAtWork, b: GrandShapeContentSummaryAtWork)
    requires
        b.same_but_errors(a),
        a.gsc_summary.errors@.len() <= b.gsc_summary.errors@.len(),
        b.gsc_summary.errors@.take(a.gsc_summary.errors@.len() as int) == a.gsc_summary.errors@,
    ensures
        b.grown_by_describing(a),
{
    assert(b.descriptions().take(a.descriptions().len() as int) =~= a.descriptions());
    lemma_describing_from_reading(a, b);
}

/// Extracting a function shape is growing by describing.
proof fn lemma_describing_extract(a: GrandShapeContentSummaryAtWork, b: GrandShapeContentSummaryAtWork)
    requires
        b.same_but_descriptions(a),
        table_extends(b.descriptions(), a.descriptions()),
    ensures
        b.grown_by_describing(a),
{
    assert(b.gsc_summary.errors@.take(a.gsc_summary.errors@.len() as int) =~= a.gsc_summary.errors@);
    lemma_describing_from_reading(a, b);
}

/// Storing a closure or a function description is growing by describing.
proof fn lemma_describing_push(a: GrandShapeContentSummaryAtWork, b: GrandShapeContentSummaryAtWork)
    requires
        b.grand_module_skeleton_table == a.grand_module_skeleton_table,
        b.grand_module_merge_table == a.grand_module_merge_table,
        b.gsc_summary == (GrandShapeContentSummary {
            kv_tables: KVTables {
                closure_description_table: b.gsc_summary.kv_tables.closure_description_table,
                ..a.gsc_summary.kv_tables
            },
            ..a.gsc_summary
        }) || b.gsc_summary == (GrandShapeContentSummary {
            kv_tables: KVTables {
                function_description_table: b.gsc_summary.kv_tables.function_description_table,
                ..a.gsc_summary.kv_tables
            },
            ..a.gsc_summary
        }),
        seq_extends(closures_of(b), closures_of(a)),
        seq_extends(functions_of(b), functions_of(a)),
    ensures
        b.grown_by_describing(a),
{
    assert(b.descriptions().take(a.descriptions().len() as int) =~= a.descriptions());
    assert(b.gsc_summary.errors@.take(a.gsc_summary.errors@.len() as int) =~= a.gsc_summary.errors@);
}

/// Growing by describing twice is growing by describing.
proof fn lemma_describing_trans(a: GrandShapeContentSummaryAtWork, b: GrandShapeContentSummaryAtWork, c: GrandShapeContentSummaryAtWork)
    requires
        b.grown_by_describing(a),
        c.grown_by_describing(b),
    ensures
        c.grown_by_describing(a),
{
    let ta = a.gsc_summary.kv_tables;
    let tb = b.gsc_summary.kv_tables;
    let tc = c.gsc_summary.kv_tables;
    assert(tc.closure_description_table@.take(ta.closure_description_table@.len() as int)
        =~= tb.closure_description_table@.take(ta.closure_description_table@.len() as int));
    assert(tc.function_description_table@.take(ta.function_description_table@.len() as int)
        =~= tb.function_description_table@.take(ta.function_description_table@.len() as int));
    assert(c.descriptions().take(a.descriptions().len() as int) =~= b.descriptions().take(a.descriptions().len() as int));
    assert(c.gsc_summary.errors@.take(a.gsc_summary.errors@.len() as int) =~= b.gsc_summary.errors@.take(
        a.gsc_summary.errors@.len() as int,
    ));
}

/// A context reads the same while the summary grows by describing.
proof fn lemma_reading_same(a: GrandShapeContentSummaryAtWork, b: GrandShapeContentSummaryAtWork, c: usize)
    requires
        b.grown_by_describing(a),
        context_readable(a, c),
    ensures
        context_readable(b, c),
        reading_of(b, c) == reading_of(a, c),
{
}

/// What a closure stands for stays so while the tables of descriptions
/// and closures grow.
pub(crate) proof fn lemma_closure_describes_grow(
    r: Reading,
    t: Seq<ShapeDescription>,
    t2: Seq<ShapeDescription>,
    cs: Seq<ClosureDescription>,
    cs2: Seq<ClosureDescription>,
    cd: ClosureDescription,
    c: usize,
    pb: ParsedBox<FunctionDef>,
)
    requires
        closure_describes(r, t, cs, cd, c, pb),
        table_extends(t2, t),
        seq_extends(cs2, cs),
    ensures
        closure_describes(r, t2, cs2, cd, c, pb),
    decreases pb,
{
    match (pb.value.body.value, cd.gut) {
        (FunctionBlock::SequentialBlock(ret, _), ClosureDescriptionGut::Closure { return_type, .. }) => {
            let k = return_type.0;
            match ret {
                Some(ty) => {
                    if type_reads(r, ty) {
                        lemma_describes_grow(r, t, t2, c, ty, k);
                    } else {
                        assert(t2.take(t.len() as int)[k as int] == t2[k as int]);
                    }
                },
                None => {
                    assert(t2.take(t.len() as int)[k as int] == t2[k as int]);
                },
            }
        },
        (FunctionBlock::FunctionDef(inner), ClosureDescriptionGut::HigherOrder(ck)) => {
            lemma_chain_kept(cs, cs2, ck.0);
            lemma_closure_describes_grow(r, t, t2, cs, cs2, cs[ck.0 as int], c, *inner);
        },
        _ => {},
    }
}

/// The tables of a summary grown by describing start with those of `a`.
pub(crate) proof fn lemma_describing_facts(a: GrandShapeContentSummaryAtWork, b: GrandShapeContentSummaryAtWork)
    requires
        b.grown_by_describing(a),
    ensures
        table_extends(b.descriptions(), a.descriptions()),
        seq_extends(closures_of(b), closures_of(a)),
        seq_extends(functions_of(b), functions_of(a)),
        forall|c: usize| context_readable(a, c) ==> context_readable(b, c) && #[trigger] reading_of(b, c) == reading_of(a, c),
{
}

/// A stored closure that stands for a function heads a well-formed chain,
/// no longer than the function's size.
proof fn lemma_closure_chain(r: Reading, t: Seq<ShapeDescription>, cs: Seq<ClosureDescription>, k: usize, c: usize, pb: ParsedBox<FunctionDef>)
    requires
        k < cs.len(),
        closure_describes(r, t, cs, cs[k as int], c, pb),
        cs[k as int].gut is HigherOrder ==> cs[k as int].gut->HigherOrder_0.0 < k,
    ensures
        chain_ok(cs, k),
        chain_len(cs, k) <= function_size(pb),
    decreases pb,
{
    match (pb.value.body.value, cs[k as int].gut) {
        (FunctionBlock::FunctionDef(inner), ClosureDescriptionGut::HigherOrder(ck)) => {
            lemma_chain_bound(r, t, cs, ck.0, c, *inner);
        },
        _ => {},
    }
}

/// The chain from a closure standing for a function is no longer than the
/// function's size.
proof fn lemma_chain_bound(r: Reading, t: Seq<ShapeDescription>, cs: Seq<ClosureDescription>, k: usize, c: usize, pb: ParsedBox<FunctionDef>)
    requires
        chain_ok(cs, k),
        closure_describes(r, t, cs, cs[k as int], c, pb),
    ensures
        chain_len(cs, k) <= function_size(pb),
    decreases pb,
{
    match (pb.value.body.value, cs[k as int].gut) {
        (FunctionBlock::FunctionDef(inner), ClosureDescriptionGut::HigherOrder(ck)) => {
            lemma_chain_bound(r, t, cs, ck.0, c, *inner);
        },
        _ => {},
    }
}

/// A chain of closures stays well formed while the table grows.
pub(crate) proof fn lemma_chain_kept(cs: Seq<ClosureDescription>, cs2: Seq<ClosureDescription>, k: usize)
    requires
        chain_ok(cs, k),
        seq_extends(cs2, cs),
    ensures
        chain_ok(cs2, k),
        cs2[k as int] == cs[k as int],
        chain_len(cs2, k) == chain_len(cs, k),
    decreases k,
{
    assert(cs2.take(cs.len() as int)[k as int] == cs2[k as int]);
    match cs[k as int].gut {
        ClosureDescriptionGut::HigherOrder(c2) => lemma_chain_kept(cs, cs2, c2.0),
        _ => {},
    }
}

/// A function shape stays so while the table of descriptions grows.
pub(crate) proof fn lemma_closure_shape_grow(t: Seq<ShapeDescription>, t2: Seq<ShapeDescription>, cs: Seq<ClosureDescription>, ck: usize, c: usize, k: usize)
    requires
        closure_shape(t, cs, ck, c, k),
        table_extends(t2, t),
    ensures
        closure_shape(t2, cs, ck, c, k),
    decreases ck,
{
    assert(t2.take(t.len() as int)[k as int] == t2[k as int]);
    match (t[k as int].gut, cs[ck as int].gut) {
        (ShapeDescriptionGut::Function { args, ret }, ClosureDescriptionGut::HigherOrder(c2)) => {
            lemma_closure_shape_grow(t, t2, cs, c2.0, c, ret.0);
        },
        _ => {},
    }
}

/// A parameter as written in a function: its name, its type and its
/// default value, where one is written.
pub type FunctionArg = ParsedBox<(ParsedBox<Identifier>, ParsedBox<Type>, Option<ParsedBox<Expr>>)>;

/// The parameters reported where the function `pb` does not read: those
/// of the outermost of its nested functions that has any.
pub open spec fn first_params(pb: ParsedBox<FunctionDef>) -> Seq<FunctionArg>
    decreases pb,
{
    if pb.value.args@.len() > 0 {
        pb.value.args@
    } else {
        match pb.value.body.value {
            FunctionBlock::SequentialBlock(_, _) => Seq::empty(),
            FunctionBlock::FunctionDef(inner) => first_params(*inner),
        }
    }
}

/// Whether the errors `errs` end with a report of each of the parameters
/// `args`, in order (see `reports_param`).
pub open spec fn ends_with_reports(errs: Seq<ShapeDefinitionResolutionError>, args: Seq<FunctionArg>) -> bool {
    &&& args.len() <= errs.len()
    &&& forall|j: int| 0 <= j < args.len() ==> reports_param(#[trigger] errs[errs.len() - args.len() + j], args[j])
}

/// Whether error `e` reports the parameter `a` as named twice, at the
/// position of its name.
pub open spec fn reports_param(e: ShapeDefinitionResolutionError, a: FunctionArg) -> bool {
    &&& e.position@ == a.value.0.position@
    &&& match e.kind {
        ShapeDefinitionResolutionErrorKind::FunctionDescription(fe) => fe.position@ == a.value.0.position@
            && match fe.kind {
            FunctionDescriptionResolutionErrorKind::ParamNameDuplication(n) => n@ == a.value.0.value.name@,
        },
        _ => false,
    }
}

/// Whether the function `pb` reads into a closure: it has no parameters,
/// and where it returns another function, so does that one.
pub open spec fn function_reads(pb: ParsedBox<FunctionDef>) -> bool
    decreases pb,
{
    &&& pb.value.args@.len() == 0
    &&& match pb.value.body.value {
        FunctionBlock::SequentialBlock(_, _) => true,
        FunctionBlock::FunctionDef(inner) => function_reads(*inner),
    }
}

/// The most descriptions or closures reading the function `pb` can add:
/// one per nested function, and those of the type it returns.
pub open spec fn function_size(pb: ParsedBox<FunctionDef>) -> nat
    decreases pb,
{
    1 + match pb.value.body.value {
        FunctionBlock::SequentialBlock(ret, _) => match ret {
            Some(t) => type_size(t),
            None => 0,
        },
        FunctionBlock::FunctionDef(inner) => function_size(*inner),
    }
}

/// Whether description `k` of `t` is the unit shape made in context `c` at
/// `pos`.
pub open spec fn unit_made(t: Seq<ShapeDescription>, c: usize, pos: ParsedPosition, k: usize) -> bool {
    &&& k < t.len()
    &&& t[k as int].context_key.0 == c
    &&& t[k as int].annotation == ShapeVarianceAnnotation::Covariant
    &&& t[k as int].pos@ == pos@
    &&& t[k as int].gut == ShapeDescriptionGut::Elementary(ElementaryShape::Unit)
}

/// Whether `k` stands, in table `t`, read as `r`, for the return type `ret` of a function at
/// `pos` read in context `c`: the description of the type where one is
/// written and reads, the unit shape at the function's position otherwise.
pub open spec fn return_described(r: Reading, t: Seq<ShapeDescription>, c: usize, pos: ParsedPosition, ret: Option<ParsedBox<Type>>, k: usize) -> bool {
    match ret {
        Some(ty) => if type_reads(r, ty) {
            describes(r, t, c, ty, k)
        } else {
            unit_made(t, c, pos, k)
        },
        None => unit_made(t, c, pos, k),
    }
}

/// Whether `cd` is the closure of the function `pb` read in context `c` as
/// `r`, with descriptions `t` and closures `cs`: no parameters, the
/// function's position, and a body that is the function's block with the
/// shape it returns, or the closure of the function it returns, stored in
/// `cs`.
pub open spec fn closure_describes(r: Reading, t: Seq<ShapeDescription>, cs: Seq<ClosureDescription>, cd: ClosureDescription, c: usize, pb: ParsedBox<FunctionDef>) -> bool
    decreases pb,
{
    &&& cd.params@.len() == 0
    &&& cd.pos == pb.position
    &&& match (pb.value.body.value, cd.gut) {
        (FunctionBlock::SequentialBlock(ret, block), ClosureDescriptionGut::Closure { block: b2, return_type }) => b2 == block
            && return_described(r, t, c, pb.position, ret, return_type.0),
        (FunctionBlock::FunctionDef(inner), ClosureDescriptionGut::HigherOrder(ck)) => chain_ok(cs, ck.0)
            && closure_describes(r, t, cs, cs[ck.0 as int], c, *inner),
        _ => false,
    }
}

/// Whether function description `fk` of `fs` is that of the function `pb`
/// read in function context `fc` and shape context `c` as `r`, with
/// descriptions `t` and closures `cs`: at the function's position, with the
/// closure of the function (see `closure_describes`) and its function shape
/// (see `closure_shape`).
pub open spec fn function_describes(
    r: Reading,
    t: Seq<ShapeDescription>,
    cs: Seq<ClosureDescription>,
    fs: Seq<FunctionDescription>,
    fk: usize,
    fc: FunctionDescriptionContextKey,
    c: usize,
    pb: ParsedBox<FunctionDef>,
) -> bool {
    let f = fs[fk as int];
    &&& fk < fs.len()
    &&& f.context_key == fc
    &&& f.pos@ == pb.position@
    &&& chain_ok(cs, f.closure.0)
    &&& closure_describes(r, t, cs, cs[f.closure.0 as int], c, pb)
    &&& closure_shape(t, cs, f.closure.0, c, f.function_shape.0)
}

impl<'a> GrandShapeContentSummaryAtWork<'a> {
    /// Whether this summary is `old` with closure descriptions, function
    /// descriptions, shape descriptions and errors added at the end of
    /// their tables, and nothing else changed.
    pub open spec fn grown_by_describing(&self, old: Self) -> bool {
        let t = self.gsc_summary.kv_tables;
        let o = old.gsc_summary.kv_tables;
        &&& seq_extends(t.closure_description_table@, o.closure_description_table@)
        &&& seq_extends(t.function_description_table@, o.function_description_table@)
        &&& self.grown_by_reading(
            GrandShapeContentSummaryAtWork {
                gsc_summary: GrandShapeContentSummary {
                    kv_tables: KVTables {
                        closure_description_table: t.closure_description_table,
                        function_description_table: t.function_description_table,
                        ..o
                    },
                    ..old.gsc_summary
                },
                ..old
            },
        )
    }

    /// Reads the parameters `args` of a function in context `c`. A parameter
    /// is read only where one before it, already read, has the same name;
    /// any other parameter is reported as named twice and nothing is
    /// returned. So only a function without parameters gets its (empty)
    /// parameters, and every parameter of any other is reported, in order.
    fn read_function_params(&mut self, c: ShapeDescriptionContextKey, args: &Vec<FunctionArg>) -> (res: Option<Vec<ClosureParameterDescription>>)
        requires
            context_readable(*old(self), c.0),
        ensures
            final(self).same_but_errors(*old(self)),
            final(self).gsc_summary.errors@.len() == old(self).gsc_summary.errors@.len() + args@.len(),
            final(self).gsc_summary.errors@.take(old(self).gsc_summary.errors@.len() as int) == old(self).gsc_summary.errors@,
            forall|j: int| 0 <= j < args@.len() ==> reports_param(
                #[trigger] final(self).gsc_summary.errors@[old(self).gsc_summary.errors@.len() + j],
                args@[j],
            ),
            res is Some == (args@.len() == 0),
            res is Some ==> res.unwrap()@.len() == 0,
    {
        let ghost start = *self;
        let ghost n0 = self.gsc_summary.errors@.len();
        let mut read_names: Vec<Option<String>> = Vec::new();
        let mut params: Vec<ClosureParameterDescription> = Vec::new();
        let mut all_read = true;
        let mut i: usize = 0;
        proof {
            assert(self.gsc_summary.errors@.take(n0 as int) =~= start.gsc_summary.errors@);
        }
        while i < args.len()
            invariant
                i <= args@.len(),
                context_readable(start, c.0),
                self.same_but_errors(start),
                n0 == start.gsc_summary.errors@.len(),
                self.gsc_summary.errors@.len() == n0 + i,
                self.gsc_summary.errors@.take(n0 as int) == start.gsc_summary.errors@,
                forall|j: int| 0 <= j < i ==> reports_param(#[trigger] self.gsc_summary.errors@[n0 + j], args@[j]),
                read_names@.len() == i,
                forall|j: int| 0 <= j < i ==> (#[trigger] read_names@[j]) is None,
                params@.len() == 0,
                all_read == (i == 0),
            decreases args.len() - i,
        {
            let name = args[i].value.0.value.name.clone();
            let mut seen = false;
            let mut j: usize = 0;
            while j < read_names.len()
                invariant
                    j <= read_names@.len(),
                    forall|m: int| 0 <= m < read_names@.len() ==> (#[trigger] read_names@[m]) is None,
                    !seen,
                decreases read_names.len() - j,
            {
                match &read_names[j] {
                    Some(n) => {
                        if *n == name {
                            seen = true;
                        }
                    },
                    None => {},
                }
                j = j + 1;
            }
            let ghost before = self.gsc_summary.errors@;
            if seen {
                match self.read_type(c, &args[i].value.1) {
                    Some(k) => {
                        let default = match &args[i].value.2 {
                            Some(d) => Some(ParsedBox::new(Expr { text: d.value.text.clone() }, d.position.duplicate())),
                            None => None,
                        };
                        read_names.push(Some(name.clone()));
                        params.push(ClosureParameterDescription { name, shape_description_key: k, default });
                    },
                    None => {
                        read_names.push(None);
                        all_read = false;
                    },
                }
            } else {
                let e = ShapeDefinitionResolutionError::from_function_description(
                    FunctionDescriptionResolutionError::param_name_duplication(args[i].value.0.position.duplicate(), name),
                );
                self.add_error(e);
                read_names.push(None);
                all_read = false;
            }
            proof {
                assert(self.gsc_summary.errors@.take(n0 as int) =~= before.take(n0 as int));
                assert(self.gsc_summary.errors@[n0 + i] == self.gsc_summary.errors@.last());
                assert forall|j: int| 0 <= j < i + 1 implies reports_param(#[trigger] self.gsc_summary.errors@[n0 + j], args@[j]) by {
                    if j < i {
                        assert(self.gsc_summary.errors@[n0 + j] == before[n0 + j]);
                    }
                }
            }
            i = i + 1;
        }
        if all_read {
            Some(params)
        } else {
            None
        }
    }

    /// Reads the function `pb_function_def` into a closure description in
    /// shape context `shape_description_context_key` (see `function_reads`
    /// and `closure_describes`); a function it returns is read and stored
    /// first.
    fn closure_description_from_pb_function_def(
        &mut self,
        function_description_context_key: FunctionDescriptionContextKey,
        shape_description_context_key: ShapeDescriptionContextKey,
        pb_function_def: ParsedBox<FunctionDef>,
    ) -> (res: Option<ClosureDescription>)
        requires
            context_readable(*old(self), shape_description_context_key.0),
            old(self).descriptions().len() + function_size(pb_function_def) <= usize::MAX,
            closures_of(*old(self)).len() + function_size(pb_function_def) <= usize::MAX,
        ensures
            final(self).grown_by_describing(*old(self)),
            final(self).descriptions().len() <= old(self).descriptions().len() + function_size(pb_function_def),
            closures_of(*final(self)).len() < closures_of(*old(self)).len() + function_size(pb_function_def),
            functions_of(*final(self)) == functions_of(*old(self)),
            res is Some == function_reads(pb_function_def),
            res is Some ==> closure_describes(
                reading_of(*old(self), shape_description_context_key.0),
                final(self).descriptions(),
                closures_of(*final(self)),
                res.unwrap(),
                shape_description_context_key.0,
                pb_function_def,
            ),
            res is None ==> ends_with_reports(final(self).gsc_summary.errors@, first_params(pb_function_def)),
        decreases pb_function_def,
    {
        let ghost start = *self;
        let c = shape_description_context_key;
        let ParsedBox { value, position } = pb_function_def;
        let FunctionDef { args, body } = value;
        let params_read = self.read_function_params(c, &args);
        proof {
            lemma_same_but_errors_describing(start, *self);
        }
        let params = match params_read {
            Some(p) => p,
            None => {
                return None;
            },
        };
        let ghost s1 = *self;
        let ParsedBox { value: block_value, position: _ } = body;
        match block_value {
            FunctionBlock::SequentialBlock(ret, block) => {
                let read = match &ret {
                    Some(t) => self.read_type(c, t),
                    None => None,
                };
                let ghost s2 = *self;
                proof {
                    if ret is None {
                        lemma_grown_by_reading_refl(s1);
                    }
                    lemma_describing_from_reading(s1, s2);
                    lemma_describing_trans(start, s1, s2);
                    lemma_reading_same(start, s2, c.0);
                }
                let return_type = match read {
                    Some(k) => k,
                    None => self.new_shape_description(
                        ShapeDescription {
                            context_key: c,
                            annotation: ShapeVarianceAnnotation::Covariant,
                            gut: ShapeDescriptionGut::Elementary(ElementaryShape::Unit),
                            pos: position.duplicate(),
                        },
                    ),
                };
                proof {
                    if read is None {
                        assert(self.descriptions().take(s2.descriptions().len() as int) =~= s2.descriptions());
                        lemma_grown_by_step(s2, *self);
                        lemma_describing_from_reading(s2, *self);
                        lemma_describing_trans(start, s2, *self);
                    } else {
                        lemma_grown_by_reading_refl(*self);
                        lemma_describing_from_reading(s2, *self);
                        lemma_describing_trans(start, s2, *self);
                    }
                    lemma_reading_same(start, *self, c.0);
                }
                Some(ClosureDescription { params, gut: ClosureDescriptionGut::Closure { block, return_type }, pos: position })
            },
            FunctionBlock::FunctionDef(inner) => {
                match self.closure_description_from_pb_function_def(function_description_context_key, c, *inner) {
                    Some(cd) => {
                        let ghost s2 = *self;
                        let ghost cdv = cd;
                        let ck = self.new_closure_description(cd);
                        proof {
                            assert(closures_of(*self).take(closures_of(s2).len() as int) =~= closures_of(s2));
                            assert(functions_of(*self).take(functions_of(s2).len() as int) =~= functions_of(s2));
                            lemma_describing_trans(start, s1, s2);
                            lemma_describing_push(s2, *self);
                            lemma_describing_trans(start, s2, *self);
                            lemma_describing_facts(s2, *self);
                            lemma_reading_same(start, s1, c.0);
                            let r = reading_of(s1, c.0);
                            assert(cdv.gut is HigherOrder ==> cdv.gut->HigherOrder_0.0 < closures_of(s2).len());
                            lemma_closure_describes_grow(r, s2.descriptions(), self.descriptions(), closures_of(s2), closures_of(*self), cdv, c.0, *inner);
                            lemma_closure_chain(r, self.descriptions(), closures_of(*self), ck.0, c.0, *inner);
                        }
                        Some(ClosureDescription { params, gut: ClosureDescriptionGut::HigherOrder(ck), pos: position })
                    },
                    None => {
                        proof {
                            lemma_describing_trans(start, s1, *self);
                        }
                        None
                    },
                }
            },
        }
    }

    /// Reads the function `pb_function_def` into a function description in
    /// function context `function_description_context_key` and shape
    /// context `shape_description_context_key`: its closure is read and
    /// stored (see `closure_description_from_pb_function_def`), its function
    /// shape extracted (see `extract_closure_shape`), and the function
    /// description stored; nothing where the function does not read.
    pub fn function_description_from_pb_function_def(
        &mut self,
        function_description_context_key: FunctionDescriptionContextKey,
        shape_description_context_key: ShapeDescriptionContextKey,
        pb_function_def: ParsedBox<FunctionDef>,
    ) -> (res: Option<FunctionDescriptionKey>)
        requires
            context_readable(*old(self), shape_description_context_key.0),
            old(self).descriptions().len() + 2 * function_size(pb_function_def) <= usize::MAX,
            closures_of(*old(self)).len() + function_size(pb_function_def) <= usize::MAX,
            functions_of(*old(self)).len() < usize::MAX,
        ensures
            final(self).grown_by_describing(*old(self)),
            res is Some == function_reads(pb_function_def),
            res is Some ==> function_describes(
                reading_of(*old(self), shape_description_context_key.0),
                final(self).descriptions(),
                closures_of(*final(self)),
                functions_of(*final(self)),
                res.unwrap().0,
                function_description_context_key,
                shape_description_context_key.0,
                pb_function_def,
            ),
            res is None ==> ends_with_reports(final(self).gsc_summary.errors@, first_params(pb_function_def)),
    {
        let ghost start = *self;
        let ghost pb = pb_function_def;
        let function_pos = pb_function_def.position.duplicate();
        match self.closure_description_from_pb_function_def(
            function_description_context_key,
            shape_description_context_key,
            pb_function_def,
        ) {
            Some(closure) => {
                let ghost s1 = *self;
                let ghost cdv = closure;
                let ck = self.new_closure_description(closure);
                let ghost s2 = *self;
                proof {
                    assert(closures_of(s2).take(closures_of(s1).len() as int) =~= closures_of(s1));
                    assert(functions_of(s2).take(functions_of(s1).len() as int) =~= functions_of(s1));
                    lemma_describing_push(s1, s2);
                    lemma_describing_trans(start, s1, s2);
                    lemma_describing_facts(s1, s2);
                    let r = reading_of(start, shape_description_context_key.0);
                    assert(cdv.gut is HigherOrder ==> cdv.gut->HigherOrder_0.0 < closures_of(s1).len());
                    lemma_closure_describes_grow(r, s1.descriptions(), s2.descriptions(), closures_of(s1), closures_of(s2), cdv, shape_description_context_key.0, pb);
                    lemma_closure_chain(r, s2.descriptions(), closures_of(s2), ck.0, shape_description_context_key.0, pb);
                }
                let function_shape = self.extract_closure_shape(ck, shape_description_context_key);
                let ghost s3 = *self;
                proof {
                    lemma_describing_extract(s2, s3);
                    lemma_describing_trans(start, s2, s3);
                    lemma_describing_facts(s2, s3);
                    let r = reading_of(start, shape_description_context_key.0);
                    lemma_closure_describes_grow(r, s2.descriptions(), s3.descriptions(), closures_of(s2), closures_of(s3), cdv, shape_description_context_key.0, pb);
                    lemma_chain_kept(closures_of(s2), closures_of(s3), ck.0);
                }
                let fk = self.new_function_description(
                    FunctionDescription {
                        context_key: function_description_context_key,
                        function_shape,
                        closure: ck,
                        pos: function_pos,
                    },
                );
                proof {
                    assert(closures_of(*self).take(closures_of(s3).len() as int) =~= closures_of(s3));
                    assert(functions_of(*self).take(functions_of(s3).len() as int) =~= functions_of(s3));
                    lemma_describing_push(s3, *self);
                    lemma_describing_trans(start, s3, *self);
                    lemma_describing_facts(s3, *self);
                    let r = reading_of(start, shape_description_context_key.0);
                    lemma_closure_describes_grow(r, s3.descriptions(), self.descriptions(), closures_of(s3), closures_of(*self), cdv, shape_description_context_key.0, pb);
                    lemma_chain_kept(closures_of(s3), closures_of(*self), ck.0);
                }
                Some(fk)
            },
            None => None,
        }
    }

    /// Extracts the function shape of closure `closure_description` in
    /// context `shape_description_context_key` (see `closure_shape`),
    /// adding the descriptions it is made of.
    pub fn extract_closure_shape(
        &mut self,
        closure_description: ClosureDescriptionKey,
        shape_description_context_key: ShapeDescriptionContextKey,
    ) -> (res: ShapeDescriptionKey)
        requires
            chain_ok(closures_of(*old(self)), closure_description.0),
            old(self).descriptions().len() + chain_len(closures_of(*old(self)), closure_description.0) <= usize::MAX,
        ensures
            final(self).same_but_descriptions(*old(self)),
            table_extends(final(self).descriptions(), old(self).descriptions()),
            final(self).descriptions().len() <= old(self).descriptions().len() + chain_len(
                closures_of(*old(self)),
                closure_description.0,
            ),
            closure_shape(
                final(self).descriptions(),
                closures_of(*old(self)),
                closure_description.0,
                shape_description_context_key.0,
                res.0,
            ),
        decreases closure_description.0,
    {
        let ghost start = *self;
        let ghost cs = closures_of(*self);
        let pos = self.gsc_summary.kv_tables.closure_description_table[closure_description.0].pos.duplicate();
        let mut params: Vec<ShapeDescriptionKey> = Vec::new();
        let mut i: usize = 0;
        let n = self.gsc_summary.kv_tables.closure_description_table[closure_description.0].params.len();
        while i < n
            invariant
                *self == start,
                cs == closures_of(start),
                closure_description.0 < cs.len(),
                n == cs[closure_description.0 as int].params@.len(),
                i <= n,
                params@ == param_keys(cs[closure_description.0 as int]).take(i as int),
            decreases n - i,
        {
            params.push(
                self.gsc_summary.kv_tables.closure_description_table[closure_description.0].params[i].shape_description_key,
            );
            proof {
                assert(params@ =~= param_keys(cs[closure_description.0 as int]).take(i + 1));
            }
            i = i + 1;
        }
        proof {
            assert(param_keys(cs[closure_description.0 as int]).take(i as int) =~= param_keys(
                cs[closure_description.0 as int],
            ));
        }
        let next: Result<ClosureDescriptionKey, ShapeDescriptionKey> = match &self.gsc_summary.kv_tables.closure_description_table[closure_description.0].gut {
            ClosureDescriptionGut::HigherOrder(c2) => Ok(*c2),
            ClosureDescriptionGut::Closure { block: _, return_type } => Err(*return_type),
        };
        let ret = match next {
            Ok(c2) => self.extract_closure_shape(c2, shape_description_context_key),
            Err(r) => r,
        };
        let ghost mid = *self;
        let k = self.new_shape_description(
            ShapeDescription {
                context_key: shape_description_context_key,
                annotation: ShapeVarianceAnnotation::Covariant,
                gut: ShapeDescriptionGut::Function { args: params, ret },
                pos,
            },
        );
        proof {
            assert(self.descriptions().take(mid.descriptions().len() as int) =~= mid.descriptions());
            assert(self.descriptions().take(start.descriptions().len() as int) =~= start.descriptions());
            match next {
                Ok(c2) => {
                    lemma_closure_shape_grow(mid.descriptions(), self.descriptions(), cs, c2.0, shape_description_context_key.0, ret.0);
                },
                Err(_) => {},
            }
        }
        k
    }
}

} // verus!
