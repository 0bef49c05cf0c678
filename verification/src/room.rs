use vstd::prelude::*;
use crate::ast::{FunctionBlock, FunctionDef, ShapeDef, StructCase, StructCaseValue, TemplateDef, Type, TypeGut};
use crate::content_build::{pattern_sizes, signature_patterns, template_args, PatternArg};
use crate::function_description::function_size;
use crate::parsed::ParsedBox;
use crate::shape_summary::GrandShapeContentSummaryAtWork;
use crate::type_description::{case_sizes, guard_sizes, sizes, type_size, TemplateArg};

verus! {

/// One more than the largest `usize`: the cap of sizes counted here.
pub open spec fn size_cap() -> nat {
    usize::MAX as nat + 1
}

/// `n`, or `size_cap()` where `n` exceeds the largest `usize`.
pub open spec fn capped(n: nat) -> u128 {
    if n <= usize::MAX {
        n as u128
    } else {
        size_cap() as u128
    }
}

/// The capped sum of two capped sizes.
fn cap_add(a: u128, b: u128) -> (res: u128)
    requires
        a <= size_cap(),
        b <= size_cap(),
    ensures
        res == if a + b <= usize::MAX { (a + b) as u128 } else { size_cap() as u128 },
{
    let s = a + b;
    if s <= usize::MAX as u128 {
        s
    } else {
        usize::MAX as u128 + 1
    }
}

/// Adding capped sizes caps their sum.
proof fn lemma_capped_add(a: nat, b: nat)
    ensures
        capped(a) <= size_cap(),
        capped(b) <= size_cap(),
        (if capped(a) + capped(b) <= usize::MAX { (capped(a) + capped(b)) as u128 } else { size_cap() as u128 }) == capped(a + b),
{
}

/// `type_size`, capped.
fn type_size_of(pb: &ParsedBox<Type>) -> (res: u128)
    ensures
        res == capped(type_size(*pb)),
    decreases *pb, 1nat,
{
    let inner: u128 = match &pb.value.gut {
        TypeGut::Unit => 0,
        TypeGut::Identifier(id) => match &id.template_call {
            Some(tc) => sizes_of(&tc.value.args),
            None => 0,
        },
        TypeGut::ParenSingle(i) => type_size_of(i),
        TypeGut::Tuple(tt) => sizes_of(&tt.entries),
        TypeGut::Array(i) => type_size_of(i),
        TypeGut::Mapping(a, b) => {
            proof {
                lemma_capped_add(type_size(**a), type_size(**b));
            }
            cap_add(type_size_of(a), type_size_of(b))
        },
        TypeGut::Struct(st) => case_sizes_of(&st.entries),
        TypeGut::Function(args, ret) => {
            proof {
                lemma_capped_add(sizes(args@), type_size(**ret));
            }
            cap_add(sizes_of(args), type_size_of(ret))
        },
        TypeGut::Union(a, b) => {
            proof {
                lemma_capped_add(type_size(**a), type_size(**b));
            }
            cap_add(type_size_of(a), type_size_of(b))
        },
        TypeGut::Intersection(a, b) => {
            proof {
                lemma_capped_add(type_size(**a), type_size(**b));
            }
            cap_add(type_size_of(a), type_size_of(b))
        },
    };
    proof {
        lemma_capped_add(1, (type_size(*pb) - 1) as nat);
    }
    cap_add(1, inner)
}

/// `sizes`, capped.
fn sizes_of(pbs: &Vec<ParsedBox<Type>>) -> (res: u128)
    ensures
        res == capped(sizes(pbs@)),
    decreases *pbs, 0nat,
{
    let mut acc: u128 = 0;
    let mut i: usize = 0;
    proof {
        assert(pbs@.take(0) =~= Seq::<ParsedBox<Type>>::empty());
    }
    while i < pbs.len()
        invariant
            i <= pbs@.len(),
            acc == capped(sizes(pbs@.take(i as int))),
        decreases pbs.len() - i,
    {
        proof {
            assert(pbs@.take(i + 1).drop_last() =~= pbs@.take(i as int));
            assert(pbs@.take(i + 1).last() == pbs@[i as int]);
            lemma_capped_add(sizes(pbs@.take(i as int)), type_size(pbs@[i as int]));
        }
        acc = cap_add(acc, type_size_of(&pbs[i]));
        i = i + 1;
    }
    proof {
        assert(pbs@.take(i as int) =~= pbs@);
    }
    acc
}

/// `case_sizes`, capped.
fn case_sizes_of(cases: &Vec<ParsedBox<StructCase>>) -> (res: u128)
    ensures
        res == capped(case_sizes(cases@)),
    decreases *cases, 0nat,
{
    let mut acc: u128 = 0;
    let mut i: usize = 0;
    proof {
        assert(cases@.take(0) =~= Seq::<ParsedBox<StructCase>>::empty());
    }
    while i < cases.len()
        invariant
            i <= cases@.len(),
            acc == capped(case_sizes(cases@.take(i as int))),
        decreases cases.len() - i,
    {
        proof {
            assert(cases@.take(i + 1).drop_last() =~= cases@.take(i as int));
            assert(cases@.take(i + 1).last() == cases@[i as int]);
        }
        let more: u128 = match &cases[i].value.value {
            StructCaseValue::Typed(ty) => type_size_of(ty),
            StructCaseValue::Assigned(_) => 0,
        };
        proof {
            lemma_capped_add(
                case_sizes(cases@.take(i as int)),
                match cases@[i as int].value.value {
                    StructCaseValue::Typed(ty) => type_size(ty),
                    StructCaseValue::Assigned(_) => 0,
                },
            );
        }
        acc = cap_add(acc, more);
        i = i + 1;
    }
    proof {
        assert(cases@.take(i as int) =~= cases@);
    }
    acc
}

/// `guard_sizes`, capped.
fn guard_sizes_of(args: &Vec<TemplateArg>) -> (res: u128)
    ensures
        res == capped(guard_sizes(args@)),
{
    let mut acc: u128 = 0;
    let mut i: usize = 0;
    proof {
        assert(args@.take(0) =~= Seq::<TemplateArg>::empty());
    }
    while i < args.len()
        invariant
            i <= args@.len(),
            acc == capped(guard_sizes(args@.take(i as int))),
        decreases args.len() - i,
    {
        proof {
            assert(args@.take(i + 1).drop_last() =~= args@.take(i as int));
            assert(args@.take(i + 1).last() == args@[i as int]);
        }
        let more: u128 = match &args[i].value.1 {
            Some(g) => type_size_of(g),
            None => 0,
        };
        proof {
            lemma_capped_add(
                guard_sizes(args@.take(i as int)),
                match args@[i as int].value.1 {
                    Some(g) => type_size(g),
                    None => 0,
                },
            );
        }
        acc = cap_add(acc, more);
        i = i + 1;
    }
    proof {
        assert(args@.take(i as int) =~= args@);
    }
    acc
}

/// `pattern_sizes`, capped.
fn pattern_sizes_of(args: &Vec<PatternArg>) -> (res: u128)
    ensures
        res == capped(pattern_sizes(args@)),
{
    let mut acc: u128 = 0;
    let mut i: usize = 0;
    proof {
        assert(args@.take(0) =~= Seq::<PatternArg>::empty());
    }
    while i < args.len()
        invariant
            i <= args@.len(),
            acc == capped(pattern_sizes(args@.take(i as int))),
        decreases args.len() - i,
    {
        proof {
            assert(args@.take(i + 1).drop_last() =~= args@.take(i as int));
            assert(args@.take(i + 1).last() == args@[i as int]);
            lemma_capped_add(pattern_sizes(args@.take(i as int)), type_size(args@[i as int].value.1));
        }
        acc = cap_add(acc, type_size_of(&args[i].value.1));
        i = i + 1;
    }
    proof {
        assert(args@.take(i as int) =~= args@);
    }
    acc
}

/// `function_size`, capped.
fn function_size_of(fd: &ParsedBox<FunctionDef>) -> (res: u128)
    ensures
        res == capped(function_size(*fd)),
    decreases *fd,
{
    let inner: u128 = match &fd.value.body.value {
        FunctionBlock::SequentialBlock(ret, _) => match ret {
            Some(t) => type_size_of(t),
            None => 0,
        },
        FunctionBlock::FunctionDef(inner) => function_size_of(inner),
    };
    proof {
        lemma_capped_add(1, (function_size(*fd) - 1) as nat);
    }
    cap_add(1, inner)
}

impl<'a> GrandShapeContentSummaryAtWork<'a> {
    /// Whether there is room in the tables to read a definition with
    /// generic parameters `td` and function `fd` (see `definition_room`).
    pub(crate) fn has_definition_room(&self, td: &Option<ParsedBox<TemplateDef>>, fd: &ParsedBox<FunctionDef>) -> (res: bool)
        ensures
            res == self.definition_room(*td, *fd),
    {
        let (n, g): (usize, u128) = match td {
            Some(t) => (t.value.args.len(), guard_sizes_of(&t.value.args)),
            None => (0, 0),
        };
        proof {
            if td is None {
                assert(template_args(*td) =~= Seq::<TemplateArg>::empty());
            }
        }
        let f = function_size_of(fd);
        let t = &self.gsc_summary.kv_tables;
        let max = usize::MAX as u128;
        (t.generic_param_description_table.len() as u128) + (n as u128) < max
            && (t.shape_description_context_table.len() as u128) + (n as u128) + 2 < max
            && (self.gsc_summary.kv_tables.shape_description_table.len() as u128) + g + 2 * f <= max
            && (t.closure_description_table.len() as u128) + f <= max
            && t.function_description_table.len() < usize::MAX
            && t.function_description_context_table.len() < usize::MAX
            && t.operation_content_table.len() < usize::MAX
            && t.bind_content_table.len() < usize::MAX
            && t.operator_content_table.len() < usize::MAX
            && t.coerce_content_table.len() < usize::MAX
    }

    /// Whether there is room in the tables to read the shape definition
    /// `shape` (see `shape_room`).
    pub(crate) fn has_shape_room(&self, shape: &ShapeDef) -> (res: bool)
        ensures
            res == self.shape_room(*shape),
    {
        let sig = &shape.signature.value;
        let (n, g): (usize, u128) = match &sig.template_def {
            Some(t) => (t.value.args.len(), guard_sizes_of(&t.value.args)),
            None => (0, 0),
        };
        let a: u128 = match &sig.annotated_type {
            Some(t) => type_size_of(t),
            None => 0,
        };
        let p: u128 = match &sig.args {
            Some(args) => pattern_sizes_of(&args.value),
            None => 0,
        };
        let e = type_size_of(&shape.type_expr);
        proof {
            if sig.template_def is None {
                assert(template_args(sig.template_def) =~= Seq::<TemplateArg>::empty());
            }
            if sig.args is None {
                assert(signature_patterns(*sig) =~= Seq::<PatternArg>::empty());
            }
        }
        let t = &self.gsc_summary.kv_tables;
        let max = usize::MAX as u128;
        (t.generic_param_description_table.len() as u128) + (n as u128) < max
            && (t.shape_description_context_table.len() as u128) + (n as u128) + 4 < max
            && (t.shape_description_table.len() as u128) + g + a + p + e <= max
            && t.shape_content_table.len() < usize::MAX
    }
}

} // verus!
