use vstd::prelude::*;
use crate::elementary_shape::{CharWidth, FloatWidth, IntWidth, shape_name};
use crate::route::{Route, RouteView};
use crate::shape_data::{CoerceDefSignature, InfixOperatorKind, OperatorDefSignature, PostfixOperatorKind, PrefixOperatorKind, SpecifiedGenericParam, SpecifiedShapeDefSignature, ShapeContentHeadKey, ShapeDescription, ShapeDescriptionGut, ShapeHeadView, ShapeVarianceAnnotation, UnresolvedShape};
use crate::shape_keys::ShapeDescriptionKey;
use crate::shape_summary::GrandShapeContentSummaryAtWork;

verus! {

/// `texts` joined with `sep` between each two.
pub open spec fn join(texts: Seq<Seq<char>>, sep: Seq<char>) -> Seq<char>
    decreases texts.len(),
{
    if texts.len() == 0 {
        Seq::empty()
    } else if texts.len() == 1 {
        texts[0]
    } else {
        join(texts.drop_last(), sep) + sep + texts.last()
    }
}

/// Joins `v` with `sep` between each two.
pub fn join_texts(v: &Vec<String>, sep: &str) -> (res: String)
    ensures
        res@ == join(v@.map_values(|s: String| s@), sep@),
{
    let ghost tv = v@.map_values(|s: String| s@);
    let mut res = String::new();
    let mut i: usize = 0;
    while i < v.len()
        invariant
            i <= v@.len(),
            tv == v@.map_values(|s: String| s@),
            res@ == join(tv.take(i as int), sep@),
        decreases v@.len() - i,
    {
        if i > 0 {
            res.append(sep);
        }
        res.append(v[i].as_str());
        proof {
            assert(tv.take(i + 1).drop_last() =~= tv.take(i as int));
            if i == 0 {
                assert(tv.take(1) =~= seq![tv[0]]);
                assert(join(tv.take(0), sep@) =~= Seq::<char>::empty());
            }
        }
        i = i + 1;
    }
    proof {
        assert(tv.take(v@.len() as int) =~= tv);
    }
    res
}

/// The text of a route: its cell in brackets, then its names joined with
/// `::` after a space, if it has any.
pub open spec fn route_text(r: RouteView) -> Seq<char> {
    if r.path.len() == 0 {
        "["@ + r.root + "]"@
    } else {
        "["@ + r.root + "] "@ + join(r.path, "::"@)
    }
}

impl Route {
    /// The text of this route: its cell in brackets, then its names joined
    /// with `::` after a space, if it has any.
    pub fn to_text(&self) -> (res: String)
        ensures
            res@ == route_text(self@),
    {
        let mut res = String::from_str("[");
        res.append(self.root.name.as_str());
        if self.path.len() == 0 {
            res.append("]");
        } else {
            res.append("] ");
            let names = join_texts(&self.path, "::");
            proof {
                assert(self.path@.map_values(|s: String| s@) =~= self@.path);
            }
            res.append(names.as_str());
        }
        res
    }
}

/// The text of a shape content key: the shape's name or route.
pub open spec fn head_text(k: ShapeHeadView) -> Seq<char> {
    match k {
        ShapeHeadView::Prelude(s) => shape_name(s),
        ShapeHeadView::Custom(r) => route_text(r),
    }
}

impl ShapeContentHeadKey {
    /// The text of this key: the shape's name or route.
    pub fn to_text(&self) -> (res: String)
        ensures
            res@ == head_text(self@),
    {
        match self {
            ShapeContentHeadKey::Prelude(s) => s.to_text(),
            ShapeContentHeadKey::Custom(r) => r.to_text(),
        }
    }
}

impl ShapeVarianceAnnotation {
    /// The sign of the annotation.
    pub fn to_text(&self) -> (res: String)
        ensures
            res@ == match self {
                ShapeVarianceAnnotation::Covariant => "+"@,
                ShapeVarianceAnnotation::Contravariant => "-"@,
                ShapeVarianceAnnotation::Invariant => "0"@,
            },
    {
        match self {
            ShapeVarianceAnnotation::Covariant => String::from_str("+"),
            ShapeVarianceAnnotation::Contravariant => String::from_str("-"),
            ShapeVarianceAnnotation::Invariant => String::from_str("0"),
        }
    }
}

impl IntWidth {
    /// The name of the integer shape of this width.
    pub fn to_text(&self) -> (res: String)
        ensures
            res@ == match self {
                IntWidth::UnsignedBit8 => "U8"@,
                IntWidth::UnsignedBit16 => "U16"@,
                IntWidth::UnsignedBit32 => "U32"@,
                IntWidth::UnsignedBit64 => "U64"@,
                IntWidth::UnsignedBit128 => "U128"@,
                IntWidth::SignedBit16 => "I16"@,
                IntWidth::SignedBit32 => "I32"@,
                IntWidth::SignedBit64 => "I64"@,
                IntWidth::SignedBit128 => "I128"@,
                IntWidth::SignedBit256 => "I256"@,
            },
    {
        match self {
            IntWidth::UnsignedBit8 => String::from_str("U8"),
            IntWidth::UnsignedBit16 => String::from_str("U16"),
            IntWidth::UnsignedBit32 => String::from_str("U32"),
            IntWidth::UnsignedBit64 => String::from_str("U64"),
            IntWidth::UnsignedBit128 => String::from_str("U128"),
            IntWidth::SignedBit16 => String::from_str("I16"),
            IntWidth::SignedBit32 => String::from_str("I32"),
            IntWidth::SignedBit64 => String::from_str("I64"),
            IntWidth::SignedBit128 => String::from_str("I128"),
            IntWidth::SignedBit256 => String::from_str("I256"),
        }
    }
}

impl FloatWidth {
    /// The number of bits of this width.
    pub fn to_text(&self) -> (res: String)
        ensures
            res@ == match self {
                FloatWidth::Bit16 => "16"@,
                FloatWidth::Bit32 => "32"@,
                FloatWidth::Bit64 => "64"@,
                FloatWidth::Bit128 => "128"@,
            },
    {
        match self {
            FloatWidth::Bit16 => String::from_str("16"),
            FloatWidth::Bit32 => String::from_str("32"),
            FloatWidth::Bit64 => String::from_str("64"),
            FloatWidth::Bit128 => String::from_str("128"),
        }
    }
}

impl CharWidth {
    /// The name of the character set of this width.
    pub fn to_text(&self) -> (res: String)
        ensures
            res@ == match self {
                CharWidth::Ascii => "ASCII"@,
                CharWidth::UTF16 => "UTF16"@,
            },
    {
        match self {
            CharWidth::Ascii => String::from_str("ASCII"),
            CharWidth::UTF16 => String::from_str("UTF16"),
        }
    }
}

/// The text of description `d` of `ds`: elementary shapes by name, routes
/// with their generic arguments in angle brackets, parenthesised shapes and
/// tuples in parentheses, arrays in brackets, mappings as `[k => v]`,
/// structs as `{` newline, fields `name: shape,` joined with `, `, newline,
/// `}`, functions as `(args) -> ret`, unions as `(a | b)`, intersections
/// as `(a & b)`.  Parts are written only where they are stored before `d`.
pub open spec fn description_text(ds: Seq<ShapeDescription>, d: int) -> Seq<char>
    decreases d, 2int, 0int,
{
    if d < 0 || d >= ds.len() {
        Seq::empty()
    } else {
        match ds[d].gut {
            ShapeDescriptionGut::Elementary(e) => shape_name(e),
            ShapeDescriptionGut::Unresolved(UnresolvedShape::GenericVariable(v)) => v@,
            ShapeDescriptionGut::Unresolved(UnresolvedShape::Specified(r, ps)) => if ps.len() == 0 {
                route_text(r@)
            } else {
                route_text(r@) + "<"@ + join(key_texts(ds, ps@, d), ", "@) + ">"@
            },
            ShapeDescriptionGut::ParenSingle(c) => "("@ + child_text(ds, c, d) + ")"@,
            ShapeDescriptionGut::Tuple(v) => "("@ + join(key_texts(ds, v@, d), ", "@) + ")"@,
            ShapeDescriptionGut::Array(c) => "["@ + child_text(ds, c, d) + "]"@,
            ShapeDescriptionGut::Mapping { key, value } => "["@ + child_text(ds, key, d) + " => "@ + child_text(ds, value, d) + "]"@,
            ShapeDescriptionGut::Struct(m) => "{\n"@ + join(field_texts(ds, m.keys(), m.values(), d), ", "@) + "\n}"@,
            ShapeDescriptionGut::Function { args, ret } => "("@ + join(key_texts(ds, args@, d), ", "@) + ") -> "@ + child_text(ds, ret, d),
            ShapeDescriptionGut::Union(a, b) => "("@ + child_text(ds, a, d) + " | "@ + child_text(ds, b, d) + ")"@,
            ShapeDescriptionGut::Intersection(a, b) => "("@ + child_text(ds, a, d) + " & "@ + child_text(ds, b, d) + ")"@,
        }
    }
}

/// The text of part `c` of description `d`: empty where the part is not
/// stored before `d`.
pub open spec fn child_text(ds: Seq<ShapeDescription>, c: ShapeDescriptionKey, d: int) -> Seq<char>
    decreases d, 1int, 0int,
{
    if 0 <= c.0 < d {
        description_text(ds, c.0 as int)
    } else {
        Seq::empty()
    }
}

/// The texts of parts `ks` of description `d`.
pub open spec fn key_texts(ds: Seq<ShapeDescription>, ks: Seq<ShapeDescriptionKey>, d: int) -> Seq<Seq<char>>
    decreases d, 1int, ks.len(),
{
    if ks.len() == 0 {
        Seq::empty()
    } else {
        key_texts(ds, ks.drop_last(), d).push(child_text(ds, ks.last(), d))
    }
}

/// The texts `name: shape,` of fields `names` with shapes `vals` of
/// description `d`.
pub open spec fn field_texts(ds: Seq<ShapeDescription>, names: Seq<Seq<char>>, vals: Seq<ShapeDescriptionKey>, d: int) -> Seq<Seq<char>>
    decreases d, 1int, vals.len(),
{
    if vals.len() == 0 || names.len() == 0 {
        Seq::empty()
    } else {
        field_texts(ds, names.drop_last(), vals.drop_last(), d).push(names.last() + ": "@ + child_text(ds, vals.last(), d) + ","@)
    }
}

/// The text of an unresolved shape: a generic variable by name, a route
/// with its generic arguments in angle brackets, joined with `, `.
pub open spec fn unresolved_text(ds: Seq<ShapeDescription>, u: UnresolvedShape) -> Seq<char> {
    match u {
        UnresolvedShape::GenericVariable(v) => v@,
        UnresolvedShape::Specified(r, ps) => if ps.len() == 0 {
            route_text(r@)
        } else {
            route_text(r@) + "<"@ + join(key_texts(ds, ps@, ds.len() as int), ", "@) + ">"@
        },
    }
}

impl<'a> GrandShapeContentSummaryAtWork<'a> {
    /// The texts of parts `ks` of description `bound`.
    fn display_keys(&self, ks: &Vec<ShapeDescriptionKey>, bound: usize) -> (res: Vec<String>)
        ensures
            res@.map_values(|s: String| s@) == key_texts(self.gsc_summary.kv_tables.shape_description_table@, ks@, bound as int),
        decreases bound, 0int,
    {
        let ghost ds = self.gsc_summary.kv_tables.shape_description_table@;
        let mut res: Vec<String> = Vec::new();
        let mut i: usize = 0;
        while i < ks.len()
            invariant
                i <= ks@.len(),
                ds == self.gsc_summary.kv_tables.shape_description_table@,
                res@.map_values(|s: String| s@) == key_texts(ds, ks@.take(i as int), bound as int),
            decreases ks@.len() - i,
        {
            let c = ks[i];
            let t = if c.0 < bound {
                self.display_shape_definition(&c)
            } else {
                String::new()
            };
            res.push(t);
            proof {
                assert(ks@.take(i + 1).last() == c);
                assert(t@ == child_text(ds, c, bound as int));
                assert(ks@.take(i + 1).drop_last() =~= ks@.take(i as int));
                assert(res@.map_values(|s: String| s@) =~= key_texts(ds, ks@.take(i as int), bound as int).push(t@));
            }
            i = i + 1;
        }
        proof {
            assert(ks@.take(ks@.len() as int) =~= ks@);
        }
        res
    }

    /// The text of description `shape_description_key` (see
    /// `description_text`); empty where it is not stored.
    pub fn display_shape_definition(&self, shape_description_key: &ShapeDescriptionKey) -> (res: String)
        ensures
            res@ == description_text(self.gsc_summary.kv_tables.shape_description_table@, shape_description_key.0 as int),
        decreases shape_description_key.0, 1int,
    {
        let d = shape_description_key.0;
        if d >= self.gsc_summary.kv_tables.shape_description_table.len() {
            return String::new();
        }
        let ghost ds = self.gsc_summary.kv_tables.shape_description_table@;
        let desc = &self.gsc_summary.kv_tables.shape_description_table[d];
        match &desc.gut {
            ShapeDescriptionGut::Elementary(e) => e.to_text(),
            ShapeDescriptionGut::Unresolved(UnresolvedShape::GenericVariable(v)) => v.clone(),
            ShapeDescriptionGut::Unresolved(UnresolvedShape::Specified(r, ps)) => {
                let mut res = r.to_text();
                if ps.len() > 0 {
                    let texts = self.display_keys(ps, d);
                    let joined = join_texts(&texts, ", ");
                    res.append("<");
                    res.append(joined.as_str());
                    res.append(">");
                }
                res
            },
            ShapeDescriptionGut::ParenSingle(c) => {
                let mut res = String::from_str("(");
                let t = self.display_child(c, d);
                res.append(t.as_str());
                res.append(")");
                res
            },
            ShapeDescriptionGut::Tuple(v) => {
                let texts = self.display_keys(v, d);
                let joined = join_texts(&texts, ", ");
                let mut res = String::from_str("(");
                res.append(joined.as_str());
                res.append(")");
                res
            },
            ShapeDescriptionGut::Array(c) => {
                let mut res = String::from_str("[");
                let t = self.display_child(c, d);
                res.append(t.as_str());
                res.append("]");
                res
            },
            ShapeDescriptionGut::Mapping { key, value } => {
                let mut res = String::from_str("[");
                let t1 = self.display_child(key, d);
                let t2 = self.display_child(value, d);
                res.append(t1.as_str());
                res.append(" => ");
                res.append(t2.as_str());
                res.append("]");
                res
            },
            ShapeDescriptionGut::Struct(m) => {
                proof {
                    m.lemma_lengths();
                }
                let mut texts: Vec<String> = Vec::new();
                let mut i: usize = 0;
                while i < m.len()
                    invariant
                        i <= m.size(),
                        m.keys().len() == m.size(),
                        m.values().len() == m.size(),
                        ds == self.gsc_summary.kv_tables.shape_description_table@,
                        d < ds.len(),
                        d == shape_description_key.0,
                        texts@.map_values(|s: String| s@) == field_texts(ds, m.keys().take(i as int), m.values().take(i as int), d as int),
                    decreases m.size() - i,
                {
                    let mut t = m.key_at(i).clone();
                    t.append(": ");
                    let c = self.display_child(m.value_at(i), d);
                    t.append(c.as_str());
                    t.append(",");
                    texts.push(t);
                    proof {
                        assert(m.keys().take(i + 1).drop_last() =~= m.keys().take(i as int));
                        assert(m.values().take(i + 1).drop_last() =~= m.values().take(i as int));
                        assert(texts@.map_values(|s: String| s@) =~= field_texts(ds, m.keys().take(i as int), m.values().take(i as int), d as int).push(t@));
                    }
                    i = i + 1;
                }
                proof {
                    assert(m.keys().take(m.size() as int) =~= m.keys());
                    assert(m.values().take(m.size() as int) =~= m.values());
                }
                let joined = join_texts(&texts, ", ");
                let mut res = String::from_str("{\n");
                res.append(joined.as_str());
                res.append("\n}");
                res
            },
            ShapeDescriptionGut::Function { args, ret } => {
                let texts = self.display_keys(args, d);
                let joined = join_texts(&texts, ", ");
                let t = self.display_child(ret, d);
                let mut res = String::from_str("(");
                res.append(joined.as_str());
                res.append(") -> ");
                res.append(t.as_str());
                res
            },
            ShapeDescriptionGut::Union(a, b) => {
                let t1 = self.display_child(a, d);
                let t2 = self.display_child(b, d);
                let mut res = String::from_str("(");
                res.append(t1.as_str());
                res.append(" | ");
                res.append(t2.as_str());
                res.append(")");
                res
            },
            ShapeDescriptionGut::Intersection(a, b) => {
                let t1 = self.display_child(a, d);
                let t2 = self.display_child(b, d);
                let mut res = String::from_str("(");
                res.append(t1.as_str());
                res.append(" & ");
                res.append(t2.as_str());
                res.append(")");
                res
            },
        }
    }

    /// The text of part `c` of description `bound`.
    fn display_child(&self, c: &ShapeDescriptionKey, bound: usize) -> (res: String)
        ensures
            res@ == child_text(self.gsc_summary.kv_tables.shape_description_table@, *c, bound as int),
        decreases bound, 0int,
    {
        if c.0 < bound {
            self.display_shape_definition(c)
        } else {
            String::new()
        }
    }

    /// The text of an unresolved shape (see `unresolved_text`).
    pub fn display_unresolved_shape(&self, unresolved_shape: &UnresolvedShape) -> (res: String)
        ensures
            res@ == unresolved_text(self.gsc_summary.kv_tables.shape_description_table@, *unresolved_shape),
    {
        match unresolved_shape {
            UnresolvedShape::GenericVariable(v) => v.clone(),
            UnresolvedShape::Specified(r, ps) => {
                let mut res = r.to_text();
                if ps.len() > 0 {
                    let texts = self.display_keys(ps, self.gsc_summary.kv_tables.shape_description_table.len());
                    let joined = join_texts(&texts, ", ");
                    res.append("<");
                    res.append(joined.as_str());
                    res.append(">");
                }
                res
            },
        }
    }
}

/// The symbol of a prefix operator.
pub open spec fn prefix_text(k: PrefixOperatorKind) -> Seq<char> {
    match k {
        PrefixOperatorKind::Increment => "++"@,
        PrefixOperatorKind::Decrement => "--"@,
        PrefixOperatorKind::Add => "+"@,
        PrefixOperatorKind::Sub => "-"@,
        PrefixOperatorKind::Reference => "*"@,
        PrefixOperatorKind::Dereference => "&"@,
        PrefixOperatorKind::Question => "?"@,
        PrefixOperatorKind::Exclamation => "!"@,
        PrefixOperatorKind::BitNot => "~"@,
    }
}

impl PrefixOperatorKind {
    /// The symbol of the operator.
    pub fn to_text(&self) -> (res: String)
        ensures
            res@ == prefix_text(*self),
    {
        match self {
            PrefixOperatorKind::Increment => String::from_str("++"),
            PrefixOperatorKind::Decrement => String::from_str("--"),
            PrefixOperatorKind::Add => String::from_str("+"),
            PrefixOperatorKind::Sub => String::from_str("-"),
            PrefixOperatorKind::Reference => String::from_str("*"),
            PrefixOperatorKind::Dereference => String::from_str("&"),
            PrefixOperatorKind::Question => String::from_str("?"),
            PrefixOperatorKind::Exclamation => String::from_str("!"),
            PrefixOperatorKind::BitNot => String::from_str("~"),
        }
    }
}

/// The symbol of an infix operator.
pub open spec fn infix_text(k: InfixOperatorKind) -> Seq<char> {
    match k {
        InfixOperatorKind::Dot => "."@,
        InfixOperatorKind::Exclamation => "!"@,
        InfixOperatorKind::Question => "?"@,
        InfixOperatorKind::Pow => "**"@,
        InfixOperatorKind::IntDiv => "//"@,
        InfixOperatorKind::Mul => "*"@,
        InfixOperatorKind::Div => "/"@,
        InfixOperatorKind::Mod => "%"@,
        InfixOperatorKind::Add => "+"@,
        InfixOperatorKind::Sub => "-"@,
        InfixOperatorKind::BitShiftLeft => "<<"@,
        InfixOperatorKind::BitShiftRight => ">>"@,
        InfixOperatorKind::Gt => ">"@,
        InfixOperatorKind::Gte => ">="@,
        InfixOperatorKind::Lt => "<"@,
        InfixOperatorKind::Lte => "<="@,
        InfixOperatorKind::Eq => "=="@,
        InfixOperatorKind::Teq => "==="@,
        InfixOperatorKind::Neq => "!="@,
        InfixOperatorKind::BitAnd => "&"@,
        InfixOperatorKind::BitXor => "^"@,
        InfixOperatorKind::BitOr => "|"@,
        InfixOperatorKind::And => "&&"@,
        InfixOperatorKind::Or => "||"@,
    }
}

impl InfixOperatorKind {
    /// The symbol of the operator.
    pub fn to_text(&self) -> (res: String)
        ensures
            res@ == infix_text(*self),
    {
        match self {
            InfixOperatorKind::Dot => String::from_str("."),
            InfixOperatorKind::Exclamation => String::from_str("!"),
            InfixOperatorKind::Question => String::from_str("?"),
            InfixOperatorKind::Pow => String::from_str("**"),
            InfixOperatorKind::IntDiv => String::from_str("//"),
            InfixOperatorKind::Mul => String::from_str("*"),
            InfixOperatorKind::Div => String::from_str("/"),
            InfixOperatorKind::Mod => String::from_str("%"),
            InfixOperatorKind::Add => String::from_str("+"),
            InfixOperatorKind::Sub => String::from_str("-"),
            InfixOperatorKind::BitShiftLeft => String::from_str("<<"),
            InfixOperatorKind::BitShiftRight => String::from_str(">>"),
            InfixOperatorKind::Gt => String::from_str(">"),
            InfixOperatorKind::Gte => String::from_str(">="),
            InfixOperatorKind::Lt => String::from_str("<"),
            InfixOperatorKind::Lte => String::from_str("<="),
            InfixOperatorKind::Eq => String::from_str("=="),
            InfixOperatorKind::Teq => String::from_str("==="),
            InfixOperatorKind::Neq => String::from_str("!="),
            InfixOperatorKind::BitAnd => String::from_str("&"),
            InfixOperatorKind::BitXor => String::from_str("^"),
            InfixOperatorKind::BitOr => String::from_str("|"),
            InfixOperatorKind::And => String::from_str("&&"),
            InfixOperatorKind::Or => String::from_str("||"),
        }
    }
}

/// The symbol of a postfix operator.
pub open spec fn postfix_text(k: PostfixOperatorKind) -> Seq<char> {
    match k {
        PostfixOperatorKind::Question => "?"@,
        PostfixOperatorKind::Exclamation => "!"@,
        PostfixOperatorKind::Increment => "++"@,
        PostfixOperatorKind::Decrement => "--"@,
    }
}

impl PostfixOperatorKind {
    /// The symbol of the operator.
    pub fn to_text(&self) -> (res: String)
        ensures
            res@ == postfix_text(*self),
    {
        match self {
            PostfixOperatorKind::Question => String::from_str("?"),
            PostfixOperatorKind::Exclamation => String::from_str("!"),
            PostfixOperatorKind::Increment => String::from_str("++"),
            PostfixOperatorKind::Decrement => String::from_str("--"),
        }
    }
}

/// The text of a generic argument of a signature: a variable by name, a
/// shape by its description's text.
pub open spec fn generic_param_text(ds: Seq<ShapeDescription>, p: SpecifiedGenericParam) -> Seq<char> {
    match p {
        SpecifiedGenericParam::Variable(v) => v@,
        SpecifiedGenericParam::Specified(k) => description_text(ds, k.0 as int),
    }
}

/// The text of a shape signature: an elementary shape by name, a defined
/// shape by its route with its generic arguments in angle brackets,
/// joined with `, `.
pub open spec fn signature_text(ds: Seq<ShapeDescription>, s: SpecifiedShapeDefSignature) -> Seq<char> {
    match s {
        SpecifiedShapeDefSignature::Elementary(e) => shape_name(e),
        SpecifiedShapeDefSignature::Custom { route, params } => if params.len() == 0 {
            route_text(route@)
        } else {
            route_text(route@) + "<"@ + join(params@.map_values(|p: SpecifiedGenericParam| generic_param_text(ds, p)), ", "@) + ">"@
        },
    }
}

/// The text of an operator signature: the operator in parentheses before,
/// between or after its operands.
pub open spec fn operator_signature_text(ds: Seq<ShapeDescription>, o: OperatorDefSignature) -> Seq<char> {
    match o {
        OperatorDefSignature::Prefix { prefix_op_kind, operand } => "("@ + prefix_text(prefix_op_kind) + ") "@ + signature_text(ds, operand),
        OperatorDefSignature::Infix { operand1, infix_op_kind, operand2 } => signature_text(ds, operand1) + " ("@ + infix_text(infix_op_kind)
            + ") "@ + signature_text(ds, operand2),
        OperatorDefSignature::Postfix { operand, postfix_op_kind } => signature_text(ds, operand) + " ("@ + postfix_text(postfix_op_kind) + ")"@,
    }
}

impl<'a> GrandShapeContentSummaryAtWork<'a> {
    /// The text of a generic argument of a signature (see
    /// `generic_param_text`).
    pub fn display_specified_generic_param(&self, specified_generic_param: &SpecifiedGenericParam) -> (res: String)
        ensures
            res@ == generic_param_text(self.gsc_summary.kv_tables.shape_description_table@, *specified_generic_param),
    {
        match specified_generic_param {
            SpecifiedGenericParam::Variable(v) => v.clone(),
            SpecifiedGenericParam::Specified(k) => self.display_shape_definition(k),
        }
    }

    /// The text of a shape signature (see `signature_text`).
    pub fn display_specified_shape_def_signature(&self, specified_shape_def_signature: &SpecifiedShapeDefSignature) -> (res: String)
        ensures
            res@ == signature_text(self.gsc_summary.kv_tables.shape_description_table@, *specified_shape_def_signature),
    {
        let ghost ds = self.gsc_summary.kv_tables.shape_description_table@;
        match specified_shape_def_signature {
            SpecifiedShapeDefSignature::Elementary(e) => e.to_text(),
            SpecifiedShapeDefSignature::Custom { route, params } => {
                let mut res = route.to_text();
                if params.len() > 0 {
                    let mut texts: Vec<String> = Vec::new();
                    let mut i: usize = 0;
                    while i < params.len()
                        invariant
                            i <= params@.len(),
                            ds == self.gsc_summary.kv_tables.shape_description_table@,
                            texts@.map_values(|s: String| s@) == params@.take(i as int).map_values(
                                |p: SpecifiedGenericParam| generic_param_text(ds, p),
                            ),
                        decreases params@.len() - i,
                    {
                        let t = self.display_specified_generic_param(&params[i]);
                        let ghost before = texts@.map_values(|s: String| s@);
                        texts.push(t);
                        proof {
                            assert(t@ == generic_param_text(ds, params@[i as int]));
                            assert(params@.take(i + 1) =~= params@.take(i as int).push(params@[i as int]));
                            assert(texts@.map_values(|s: String| s@) =~= before.push(t@));
                            assert(texts@.map_values(|s: String| s@) =~= params@.take(i + 1).map_values(
                                |p: SpecifiedGenericParam| generic_param_text(ds, p),
                            ));
                        }
                        i = i + 1;
                    }
                    proof {
                        assert(params@.take(params@.len() as int) =~= params@);
                    }
                    let joined = join_texts(&texts, ", ");
                    res.append("<");
                    res.append(joined.as_str());
                    res.append(">");
                }
                res
            },
        }
    }

    /// The text of an operator signature (see `operator_signature_text`).
    pub fn display_operator_def_signature(&self, operator_def_signature: &OperatorDefSignature) -> (res: String)
        ensures
            res@ == operator_signature_text(self.gsc_summary.kv_tables.shape_description_table@, *operator_def_signature),
    {
        match operator_def_signature {
            OperatorDefSignature::Prefix { prefix_op_kind, operand } => {
                let mut res = String::from_str("(");
                res.append(prefix_op_kind.to_text().as_str());
                res.append(") ");
                res.append(self.display_specified_shape_def_signature(operand).as_str());
                res
            },
            OperatorDefSignature::Infix { operand1, infix_op_kind, operand2 } => {
                let mut res = self.display_specified_shape_def_signature(operand1);
                res.append(" (");
                res.append(infix_op_kind.to_text().as_str());
                res.append(") ");
                res.append(self.display_specified_shape_def_signature(operand2).as_str());
                res
            },
            OperatorDefSignature::Postfix { operand, postfix_op_kind } => {
                let mut res = self.display_specified_shape_def_signature(operand);
                res.append(" (");
                res.append(postfix_op_kind.to_text().as_str());
                res.append(")");
                res
            },
        }
    }

    /// The text of a coercion signature: its source and target shapes
    /// joined by ` --> `.
    pub fn display_coerce_def_signature(&self, coerce_def_signature: &CoerceDefSignature) -> (res: String)
        ensures
            res@ == signature_text(self.gsc_summary.kv_tables.shape_description_table@, coerce_def_signature.from_shape) + " --> "@
                + signature_text(self.gsc_summary.kv_tables.shape_description_table@, coerce_def_signature.to_shape),
    {
        let mut res = self.display_specified_shape_def_signature(&coerce_def_signature.from_shape);
        res.append(" --> ");
        res.append(self.display_specified_shape_def_signature(&coerce_def_signature.to_shape).as_str());
        res
    }
}

} // verus!
