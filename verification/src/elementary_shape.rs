use vstd::prelude::*;
use crate::parsed::ParsedPosition;

verus! {

use self::ElementaryShape as S;
use self::IntWidth as W;

/// Widths of the integer shapes; `Unsigned*` are unsigned, `Signed*` signed.
#[derive(Copy, Clone, Debug, PartialEq, Eq, Structural, Hash, PartialOrd, Ord)]
pub enum IntWidth {
    UnsignedBit8,
    UnsignedBit16,
    UnsignedBit32,
    UnsignedBit64,
    UnsignedBit128,
    SignedBit16,
    SignedBit32,
    SignedBit64,
    SignedBit128,
    SignedBit256,
}

/// Widths of the floating shapes.
#[derive(Copy, Clone, Debug, PartialEq, Eq, Structural, Hash, PartialOrd, Ord)]
pub enum FloatWidth {
    Bit16,
    Bit32,
    Bit64,
    Bit128,
}

/// Character sets of the character and string shapes.
#[derive(Copy, Clone, Debug, PartialEq, Eq, Structural, Hash, PartialOrd, Ord)]
pub enum CharWidth {
    Ascii,
    UTF16,
}

/// The built-in shapes of the language.
#[derive(Copy, Clone, Debug, PartialEq, Eq, Structural, Hash, PartialOrd, Ord)]
pub enum ElementaryShape {
    Empty,
    Unit,
    Bool,
    Int(IntWidth),
    Float(FloatWidth),
    Char(CharWidth),
    String(CharWidth),
    Any,
}

/// The number of bits of an integer width.
pub open spec fn int_bits(w: IntWidth) -> int {
    match w {
        IntWidth::UnsignedBit8 => 8,
        IntWidth::UnsignedBit16 => 16,
        IntWidth::UnsignedBit32 => 32,
        IntWidth::UnsignedBit64 => 64,
        IntWidth::UnsignedBit128 => 128,
        IntWidth::SignedBit16 => 16,
        IntWidth::SignedBit32 => 32,
        IntWidth::SignedBit64 => 64,
        IntWidth::SignedBit128 => 128,
        IntWidth::SignedBit256 => 256,
    }
}

/// Whether an integer width is unsigned.
pub open spec fn int_unsigned(w: IntWidth) -> bool {
    match w {
        IntWidth::UnsignedBit8 | IntWidth::UnsignedBit16 | IntWidth::UnsignedBit32
        | IntWidth::UnsignedBit64 | IntWidth::UnsignedBit128 => true,
        _ => false,
    }
}

/// Whether every integer of width `a` is an integer of width `b`.
pub open spec fn int_fits(a: IntWidth, b: IntWidth) -> bool {
    if int_unsigned(a) == int_unsigned(b) {
        int_bits(a) <= int_bits(b)
    } else if int_unsigned(a) {
        int_bits(a) < int_bits(b)
    } else {
        false
    }
}

/// The number of bits of a float width.
pub open spec fn float_bits(w: FloatWidth) -> int {
    match w {
        FloatWidth::Bit16 => 16,
        FloatWidth::Bit32 => 32,
        FloatWidth::Bit64 => 64,
        FloatWidth::Bit128 => 128,
    }
}

/// Whether character set `a` is contained in `b`.
pub open spec fn char_fits(a: CharWidth, b: CharWidth) -> bool {
    a == CharWidth::Ascii || b == CharWidth::UTF16
}

/// The subshape order on elementary shapes: `Empty` is below everything,
/// `Any` above everything, and inside one family a shape lies below the
/// shapes whose values include its values.
pub open spec fn elementary_subset(a: ElementaryShape, b: ElementaryShape) -> bool {
    if a == ElementaryShape::Empty || b == ElementaryShape::Any || a == b {
        true
    } else {
        match (a, b) {
            (ElementaryShape::Int(x), ElementaryShape::Int(y)) => int_fits(x, y),
            (ElementaryShape::Float(x), ElementaryShape::Float(y)) => float_bits(x) <= float_bits(y),
            (ElementaryShape::Char(x), ElementaryShape::Char(y)) => char_fits(x, y),
            (ElementaryShape::String(x), ElementaryShape::String(y)) => char_fits(x, y),
            _ => false,
        }
    }
}

/// The union of two integer widths, with `true` where the result keeps
/// the first operand's position.  The cases are tried in this order: a
/// 256-bit operand (or a signed/unsigned 128-bit pair) gives 256 bits,
/// then likewise for 128, 64 and 32 bits; then a signed 16-bit operand,
/// then the unsigned operands from 64 bits down, each on the first side
/// before the second; two 8-bit operands give 8 bits; what is left has no
/// union.
pub open spec fn int_union(a: IntWidth, b: IntWidth) -> Option<(IntWidth, bool)> {
    if a == W::SignedBit256 || (a == W::SignedBit128 && b == W::UnsignedBit128) {
        Some((W::SignedBit256, true))
    } else if b == W::SignedBit256 || (a == W::UnsignedBit128 && b == W::SignedBit128) {
        Some((W::SignedBit256, false))
    } else if a == W::SignedBit128 || (a == W::SignedBit64 && b == W::UnsignedBit64) {
        Some((W::SignedBit128, true))
    } else if b == W::SignedBit128 || (a == W::UnsignedBit64 && b == W::SignedBit64) {
        Some((W::SignedBit128, false))
    } else if a == W::SignedBit64 || (a == W::SignedBit32 && b == W::UnsignedBit32) {
        Some((W::SignedBit64, true))
    } else if b == W::SignedBit64 || (a == W::UnsignedBit32 && b == W::SignedBit32) {
        Some((W::SignedBit64, false))
    } else if a == W::SignedBit32 || (a == W::SignedBit16 && b == W::UnsignedBit16) {
        Some((W::SignedBit32, true))
    } else if b == W::SignedBit32 || (a == W::UnsignedBit16 && b == W::SignedBit16) {
        Some((W::SignedBit32, false))
    } else if a == W::SignedBit16 {
        Some((a, true))
    } else if b == W::SignedBit16 {
        Some((b, false))
    } else if a == W::UnsignedBit64 {
        Some((a, true))
    } else if b == W::UnsignedBit64 {
        Some((b, false))
    } else if a == W::UnsignedBit32 {
        Some((a, true))
    } else if b == W::UnsignedBit32 {
        Some((b, false))
    } else if a == W::UnsignedBit16 {
        Some((a, true))
    } else if b == W::UnsignedBit16 {
        Some((b, false))
    } else if a == W::UnsignedBit8 && b == W::UnsignedBit8 {
        Some((a, true))
    } else {
        None
    }
}

/// The union of two elementary shapes, with `true` where the result keeps
/// the first operand's position; `None` where the shapes have no union.
/// `Empty` yields the other operand, `Any` absorbs, floats, characters and
/// strings take the wider operand (the first on a tie), integers follow
/// `int_union`, and shapes of different families have no union.
pub open spec fn elementary_union(a: ElementaryShape, b: ElementaryShape) -> Option<(ElementaryShape, bool)> {
    if a == ElementaryShape::Empty {
        Some((b, false))
    } else if b == ElementaryShape::Empty {
        Some((a, true))
    } else if a == ElementaryShape::Any {
        Some((a, true))
    } else if b == ElementaryShape::Any {
        Some((b, false))
    } else {
        match (a, b) {
            (ElementaryShape::Unit, ElementaryShape::Unit) => Some((a, true)),
            (ElementaryShape::Bool, ElementaryShape::Bool) => Some((a, true)),
            (ElementaryShape::Int(x), ElementaryShape::Int(y)) => match int_union(x, y) {
                Some((w, first)) => Some((ElementaryShape::Int(w), first)),
                None => None,
            },
            (ElementaryShape::Float(x), ElementaryShape::Float(y)) => if float_bits(y) > float_bits(x) {
                Some((b, false))
            } else {
                Some((a, true))
            },
            (ElementaryShape::Char(x), ElementaryShape::Char(y)) => if x == CharWidth::Ascii && y == CharWidth::UTF16 {
                Some((b, false))
            } else {
                Some((a, true))
            },
            (ElementaryShape::String(x), ElementaryShape::String(y)) => if x == CharWidth::Ascii && y == CharWidth::UTF16 {
                Some((b, false))
            } else {
                Some((a, true))
            },
            _ => None,
        }
    }
}

/// An elementary shape as it occurs in a program, with the position it came
/// from (if any).  Two such shapes are the same shape when their `gut`s are
/// equal; the position plays no part.
#[derive(Debug)]
pub struct ElementaryPShape {
    pub gut: ElementaryShape,
    pub position: Option<ParsedPosition>,
}

impl ElementaryPShape {
    /// Whether two shapes are the same shape (positions are ignored).
    pub fn same_shape(&self, other: &ElementaryPShape) -> (res: bool)
        ensures
            res == (self.gut == other.gut),
    {
        self.gut == other.gut
    }

    /// The union of two shapes: the shape whose values are those of both,
    /// as `elementary_union` gives it, carrying the position of the operand
    /// it was taken from; `None` where the two have no union.
    pub fn pairwise_union(shape1: Self, shape2: Self) -> (res: Option<ElementaryPShape>)
        ensures
            match elementary_union(shape1.gut, shape2.gut) {
                None => res.is_none(),
                Some((g, first)) => res == Some(ElementaryPShape {
                    gut: g,
                    position: if first { shape1.position } else { shape2.position },
                }),
            },
    {
        match (shape1.gut, shape2.gut) {
            (S::Empty, _) => Some(shape2),
            (_, S::Empty) => Some(shape1),
            (S::Any, _) => Some(shape1),
            (_, S::Any) => Some(shape2),
            (S::Unit, S::Unit) => Some(shape1),
            (S::Bool, S::Bool) => Some(shape1),
            (S::Int(W::SignedBit256), S::Int(_)) | (S::Int(W::SignedBit128), S::Int(W::UnsignedBit128)) => {
                Some(ElementaryPShape { gut: S::Int(W::SignedBit256), position: shape1.position })
            },
            (S::Int(_), S::Int(W::SignedBit256)) | (S::Int(W::UnsignedBit128), S::Int(W::SignedBit128)) => {
                Some(ElementaryPShape { gut: S::Int(W::SignedBit256), position: shape2.position })
            },
            (S::Int(W::SignedBit128), S::Int(_)) | (S::Int(W::SignedBit64), S::Int(W::UnsignedBit64)) => {
                Some(ElementaryPShape { gut: S::Int(W::SignedBit128), position: shape1.position })
            },
            (S::Int(_), S::Int(W::SignedBit128)) | (S::Int(W::UnsignedBit64), S::Int(W::SignedBit64)) => {
                Some(ElementaryPShape { gut: S::Int(W::SignedBit128), position: shape2.position })
            },
            (S::Int(W::SignedBit64), S::Int(_)) | (S::Int(W::SignedBit32), S::Int(W::UnsignedBit32)) => {
                Some(ElementaryPShape { gut: S::Int(W::SignedBit64), position: shape1.position })
            },
            (S::Int(_), S::Int(W::SignedBit64)) | (S::Int(W::UnsignedBit32), S::Int(W::SignedBit32)) => {
                Some(ElementaryPShape { gut: S::Int(W::SignedBit64), position: shape2.position })
            },
            (S::Int(W::SignedBit32), S::Int(_)) | (S::Int(W::SignedBit16), S::Int(W::UnsignedBit16)) => {
                Some(ElementaryPShape { gut: S::Int(W::SignedBit32), position: shape1.position })
            },
            (S::Int(_), S::Int(W::SignedBit32)) | (S::Int(W::UnsignedBit16), S::Int(W::SignedBit16)) => {
                Some(ElementaryPShape { gut: S::Int(W::SignedBit32), position: shape2.position })
            },
            (S::Int(W::SignedBit16), S::Int(_)) => Some(shape1),
            (S::Int(_), S::Int(W::SignedBit16)) => Some(shape2),
            (S::Int(W::UnsignedBit64), S::Int(_)) => Some(shape1),
            (S::Int(_), S::Int(W::UnsignedBit64)) => Some(shape2),
            (S::Int(W::UnsignedBit32), S::Int(_)) => Some(shape1),
            (S::Int(_), S::Int(W::UnsignedBit32)) => Some(shape2),
            (S::Int(W::UnsignedBit16), S::Int(_)) => Some(shape1),
            (S::Int(_), S::Int(W::UnsignedBit16)) => Some(shape2),
            (S::Int(W::UnsignedBit8), S::Int(W::UnsignedBit8)) => Some(shape1),
            (S::Float(FloatWidth::Bit128), S::Float(_)) => Some(shape1),
            (S::Float(_), S::Float(FloatWidth::Bit128)) => Some(shape2),
            (S::Float(FloatWidth::Bit64), S::Float(_)) => Some(shape1),
            (S::Float(_), S::Float(FloatWidth::Bit64)) => Some(shape2),
            (S::Float(FloatWidth::Bit32), S::Float(_)) => Some(shape1),
            (S::Float(_), S::Float(FloatWidth::Bit32)) => Some(shape2),
            (S::Float(FloatWidth::Bit16), S::Float(FloatWidth::Bit16)) => Some(shape1),
            (S::Char(CharWidth::UTF16), S::Char(_)) => Some(shape1),
            (S::Char(_), S::Char(CharWidth::UTF16)) => Some(shape2),
            (S::Char(CharWidth::Ascii), S::Char(CharWidth::Ascii)) => Some(shape1),
            (S::String(CharWidth::UTF16), S::String(_)) => Some(shape1),
            (S::String(_), S::String(CharWidth::UTF16)) => Some(shape2),
            (S::String(CharWidth::Ascii), S::String(CharWidth::Ascii)) => Some(shape1),
            (_, _) => None,
        }
    }

    /// The intersection of two elementary shapes.  Its cases are matched on
    /// the pair (first operand, first operand), so the second operand only
    /// matters when the first is `Any`: the result is the second operand
    /// when the first is `Any`, and the first operand otherwise.
    pub fn pairwise_intersection(shape1: Self, shape2: Self) -> (res: Self)
        ensures
            res == (if shape1.gut == ElementaryShape::Any { shape2 } else { shape1 }),
    {
        match (shape1.gut, shape1.gut) {
            (S::Empty, _) => shape1,
            (_, S::Empty) => shape2,
            (_, S::Any) => shape2,
            (S::Any, _) => shape1,
            (S::Unit, S::Unit) => shape1,
            (S::Bool, S::Bool) => shape1,
            (S::Int(W::UnsignedBit8), S::Int(_)) | (S::Int(W::UnsignedBit16), S::Int(W::SignedBit16)) => {
                ElementaryPShape { gut: S::Int(W::UnsignedBit8), position: shape1.position }
            },
            (S::Int(_), S::Int(W::UnsignedBit8)) | (S::Int(W::SignedBit16), S::Int(W::UnsignedBit16)) => {
                ElementaryPShape { gut: S::Int(W::UnsignedBit8), position: shape2.position }
            },
            (S::Int(W::UnsignedBit16), S::Int(_)) | (S::Int(W::UnsignedBit32), S::Int(W::SignedBit32)) => {
                ElementaryPShape { gut: S::Int(W::UnsignedBit16), position: shape1.position }
            },
            (S::Int(_), S::Int(W::UnsignedBit16)) | (S::Int(W::SignedBit32), S::Int(W::UnsignedBit32)) => {
                ElementaryPShape { gut: S::Int(W::UnsignedBit16), position: shape2.position }
            },
            (S::Int(W::UnsignedBit32), S::Int(_)) | (S::Int(W::UnsignedBit64), S::Int(W::SignedBit64)) => {
                ElementaryPShape { gut: S::Int(W::UnsignedBit32), position: shape1.position }
            },
            (S::Int(_), S::Int(W::UnsignedBit32)) | (S::Int(W::SignedBit64), S::Int(W::UnsignedBit64)) => {
                ElementaryPShape { gut: S::Int(W::UnsignedBit32), position: shape2.position }
            },
            (S::Int(W::UnsignedBit64), S::Int(_)) | (S::Int(W::UnsignedBit128), S::Int(W::SignedBit128)) => {
                ElementaryPShape { gut: S::Int(W::UnsignedBit64), position: shape1.position }
            },
            (S::Int(_), S::Int(W::UnsignedBit64)) | (S::Int(W::SignedBit128), S::Int(W::UnsignedBit128)) => {
                ElementaryPShape { gut: S::Int(W::UnsignedBit64), position: shape2.position }
            },
            (S::Int(W::UnsignedBit128), S::Int(_)) => shape1,
            (S::Int(_), S::Int(W::UnsignedBit128)) => shape2,
            (S::Int(W::SignedBit16), S::Int(_)) => shape1,
            (S::Int(_), S::Int(W::SignedBit16)) => shape2,
            (S::Int(W::SignedBit32), S::Int(_)) => shape1,
            (S::Int(_), S::Int(W::SignedBit32)) => shape2,
            (S::Int(W::SignedBit64), S::Int(_)) => shape1,
            (S::Int(_), S::Int(W::SignedBit64)) => shape2,
            (S::Int(W::SignedBit128), S::Int(_)) => shape1,
            (S::Int(_), S::Int(W::SignedBit128)) => shape2,
            (S::Int(W::SignedBit256), S::Int(W::SignedBit256)) => shape1,
            (S::Float(FloatWidth::Bit16), S::Float(_)) => shape1,
            (S::Float(_), S::Float(FloatWidth::Bit16)) => shape2,
            (S::Float(FloatWidth::Bit32), S::Float(_)) => shape1,
            (S::Float(_), S::Float(FloatWidth::Bit32)) => shape2,
            (S::Float(FloatWidth::Bit64), S::Float(_)) => shape1,
            (S::Float(_), S::Float(FloatWidth::Bit64)) => shape2,
            (S::Float(FloatWidth::Bit128), S::Float(FloatWidth::Bit128)) => shape1,
            (S::Char(CharWidth::Ascii), S::Char(_)) => shape1,
            (S::Char(_), S::Char(CharWidth::Ascii)) => shape2,
            (S::Char(CharWidth::UTF16), S::Char(CharWidth::UTF16)) => shape1,
            (S::String(CharWidth::Ascii), S::String(_)) => shape1,
            (S::String(_), S::String(CharWidth::Ascii)) => shape2,
            (S::String(CharWidth::UTF16), S::String(CharWidth::UTF16)) => shape1,
            (_, _) => ElementaryPShape { gut: S::Empty, position: shape1.position },
        }
    }

    /// Whether the values of `oprd1` are among the values of `oprd2`.
    pub fn pairwise_is_subset(oprd1: &Self, oprd2: &Self) -> (res: bool)
        ensures
            res == elementary_subset(oprd1.gut, oprd2.gut),
    {
        match (oprd1.gut, oprd2.gut) {
            (S::Empty, _) => true,
            (_, S::Empty) => false,
            (_, S::Any) => true,
            (S::Any, _) => false,
            (S::Unit, S::Unit) => true,
            (S::Bool, S::Bool) => true,
            (S::Int(W::UnsignedBit128), S::Int(W::UnsignedBit128))
            | (S::Int(W::UnsignedBit64), S::Int(W::UnsignedBit128))
            | (S::Int(W::UnsignedBit32), S::Int(W::UnsignedBit128))
            | (S::Int(W::UnsignedBit16), S::Int(W::UnsignedBit128))
            | (S::Int(W::UnsignedBit8), S::Int(W::UnsignedBit128))
            | (S::Int(W::UnsignedBit64), S::Int(W::UnsignedBit64))
            | (S::Int(W::UnsignedBit32), S::Int(W::UnsignedBit64))
            | (S::Int(W::UnsignedBit16), S::Int(W::UnsignedBit64))
            | (S::Int(W::UnsignedBit8), S::Int(W::UnsignedBit64))
            | (S::Int(W::UnsignedBit32), S::Int(W::UnsignedBit32))
            | (S::Int(W::UnsignedBit16), S::Int(W::UnsignedBit32))
            | (S::Int(W::UnsignedBit8), S::Int(W::UnsignedBit32))
            | (S::Int(W::UnsignedBit16), S::Int(W::UnsignedBit16))
            | (S::Int(W::UnsignedBit8), S::Int(W::UnsignedBit16))
            | (S::Int(W::UnsignedBit8), S::Int(W::UnsignedBit8)) => true,
            (S::Int(_), S::Int(W::UnsignedBit128))
            | (S::Int(_), S::Int(W::UnsignedBit64))
            | (S::Int(_), S::Int(W::UnsignedBit32))
            | (S::Int(_), S::Int(W::UnsignedBit16))
            | (S::Int(_), S::Int(W::UnsignedBit8)) => false,
            (S::Int(_), S::Int(W::SignedBit256)) => true,
            (S::Int(W::SignedBit256), S::Int(_)) => false,
            (S::Int(W::UnsignedBit128), S::Int(_)) => false,
            (S::Int(_), S::Int(W::SignedBit128)) => true,
            (S::Int(W::SignedBit128), S::Int(_)) => false,
            (S::Int(W::UnsignedBit64), S::Int(_)) => false,
            (S::Int(_), S::Int(W::SignedBit64)) => true,
            (S::Int(W::SignedBit64), S::Int(_)) => false,
            (S::Int(W::UnsignedBit32), S::Int(_)) => false,
            (S::Int(_), S::Int(W::SignedBit32)) => true,
            (S::Int(W::SignedBit32), S::Int(_)) => false,
            (S::Int(W::UnsignedBit16), S::Int(_)) => false,
            (S::Int(_), S::Int(W::SignedBit16)) => true,
            (S::Float(_), S::Float(FloatWidth::Bit128)) => true,
            (S::Float(FloatWidth::Bit128), S::Float(_)) => false,
            (S::Float(_), S::Float(FloatWidth::Bit64)) => true,
            (S::Float(FloatWidth::Bit64), S::Float(_)) => false,
            (S::Float(_), S::Float(FloatWidth::Bit32)) => true,
            (S::Float(FloatWidth::Bit32), S::Float(_)) => false,
            (S::Float(FloatWidth::Bit16), S::Float(FloatWidth::Bit16)) => true,
            (S::Char(_), S::Char(CharWidth::UTF16)) => true,
            (S::Char(CharWidth::UTF16), S::Char(_)) => false,
            (S::Char(CharWidth::Ascii), S::Char(CharWidth::Ascii)) => true,
            (S::String(_), S::String(CharWidth::UTF16)) => true,
            (S::String(CharWidth::UTF16), S::String(_)) => false,
            (S::String(CharWidth::Ascii), S::String(CharWidth::Ascii)) => true,
            (_, _) => false,
        }
    }

    /// Whether this is the shape `Any`.
    pub fn is_any(&self) -> (res: bool)
        ensures
            res == (self.gut == ElementaryShape::Any),
    {
        matches!(self.gut, ElementaryShape::Any)
    }

    /// Whether this is the shape `Empty`.
    pub fn is_empty(&self) -> (res: bool)
        ensures
            res == (self.gut == ElementaryShape::Empty),
    {
        matches!(self.gut, ElementaryShape::Empty)
    }
}


/// Whether two integer widths form a pair whose table union fails to
/// contain both operands: two different unsigned widths of which one has
/// 128 bits, or an unsigned width wider than the signed one beside it.
pub open spec fn int_union_overflows(x: IntWidth, y: IntWidth) -> bool {
    ||| (int_unsigned(x) && int_unsigned(y) && x != y && (int_bits(x) == 128 || int_bits(y) == 128))
    ||| (int_unsigned(x) && !int_unsigned(y) && int_bits(x) > int_bits(y))
    ||| (!int_unsigned(x) && int_unsigned(y) && int_bits(y) > int_bits(x))
}

/// Whether the union of `a` and `b` is one of the integer pairs of
/// `int_union_overflows`.
pub open spec fn union_overflows(a: ElementaryShape, b: ElementaryShape) -> bool {
    match (a, b) {
        (ElementaryShape::Int(x), ElementaryShape::Int(y)) => int_union_overflows(x, y),
        _ => false,
    }
}

/// Every shape is a subshape of itself.
pub proof fn lemma_subset_reflexive(a: ElementaryShape)
    ensures
        elementary_subset(a, a),
{
}

/// The subshape order is transitive.
pub proof fn lemma_subset_transitive(a: ElementaryShape, b: ElementaryShape, c: ElementaryShape)
    requires
        elementary_subset(a, b),
        elementary_subset(b, c),
    ensures
        elementary_subset(a, c),
{
}

/// Two shapes that are subshapes of each other are the same shape.
pub proof fn lemma_subset_antisymmetric(a: ElementaryShape, b: ElementaryShape)
    requires
        elementary_subset(a, b),
        elementary_subset(b, a),
    ensures
        a == b,
{
}

/// The union does not depend on the order of its operands: it exists for
/// both orders or for neither, and gives the same shape.
pub proof fn lemma_union_commutative(a: ElementaryShape, b: ElementaryShape)
    ensures
        elementary_union(a, b).is_some() == elementary_union(b, a).is_some(),
        elementary_union(a, b).is_some() ==> elementary_union(a, b).unwrap().0 == elementary_union(b, a).unwrap().0,
{
}

/// Where the union exists, both operands are subshapes of it, except for the
/// integer pairs of `int_union_overflows`.
pub proof fn lemma_union_upper_bound(a: ElementaryShape, b: ElementaryShape)
    requires
        elementary_union(a, b).is_some(),
        !union_overflows(a, b),
    ensures
        elementary_subset(a, elementary_union(a, b).unwrap().0),
        elementary_subset(b, elementary_union(a, b).unwrap().0),
{
}

/// Where the union exists, it is a subshape of every shape that has both
/// operands as subshapes.
pub proof fn lemma_union_least(a: ElementaryShape, b: ElementaryShape, c: ElementaryShape)
    requires
        elementary_union(a, b).is_some(),
        elementary_subset(a, c),
        elementary_subset(b, c),
    ensures
        elementary_subset(elementary_union(a, b).unwrap().0, c),
{
}

/// `Empty` is a subshape of every shape and `Any` has every shape as a
/// subshape.
pub proof fn lemma_empty_bottom_any_top(a: ElementaryShape)
    ensures
        elementary_subset(ElementaryShape::Empty, a),
        elementary_subset(a, ElementaryShape::Any),
{
}


/// The name an elementary shape is written with.
pub open spec fn shape_name(s: ElementaryShape) -> Seq<char> {
    match s {
        ElementaryShape::Empty => "Empty"@,
        ElementaryShape::Unit => "Unit"@,
        ElementaryShape::Bool => "Bool"@,
        ElementaryShape::Int(IntWidth::UnsignedBit8) => "U8"@,
        ElementaryShape::Int(IntWidth::UnsignedBit16) => "U16"@,
        ElementaryShape::Int(IntWidth::UnsignedBit32) => "U32"@,
        ElementaryShape::Int(IntWidth::UnsignedBit64) => "U64"@,
        ElementaryShape::Int(IntWidth::UnsignedBit128) => "U128"@,
        ElementaryShape::Int(IntWidth::SignedBit16) => "I16"@,
        ElementaryShape::Int(IntWidth::SignedBit32) => "I32"@,
        ElementaryShape::Int(IntWidth::SignedBit64) => "I64"@,
        ElementaryShape::Int(IntWidth::SignedBit128) => "I128"@,
        ElementaryShape::Int(IntWidth::SignedBit256) => "I256"@,
        ElementaryShape::Float(FloatWidth::Bit16) => "F16"@,
        ElementaryShape::Float(FloatWidth::Bit32) => "F32"@,
        ElementaryShape::Float(FloatWidth::Bit64) => "F64"@,
        ElementaryShape::Float(FloatWidth::Bit128) => "F128"@,
        ElementaryShape::Char(CharWidth::Ascii) => "ASCIIChar"@,
        ElementaryShape::Char(CharWidth::UTF16) => "UTF16Char"@,
        ElementaryShape::String(CharWidth::Ascii) => "ASCIIString"@,
        ElementaryShape::String(CharWidth::UTF16) => "UTF16String"@,
        ElementaryShape::Any => "Any"@,
    }
}

/// The elementary shape a core type name stands for.  Every elementary
/// shape has a core type name except the unsigned 128-bit integer.
pub open spec fn core_type(name: Seq<char>) -> Option<ElementaryShape> {
    if name == "Empty"@ {
        Some(ElementaryShape::Empty)
    } else if name == "Unit"@ {
        Some(ElementaryShape::Unit)
    } else if name == "Bool"@ {
        Some(ElementaryShape::Bool)
    } else if name == "U8"@ {
        Some(ElementaryShape::Int(IntWidth::UnsignedBit8))
    } else if name == "U16"@ {
        Some(ElementaryShape::Int(IntWidth::UnsignedBit16))
    } else if name == "U32"@ {
        Some(ElementaryShape::Int(IntWidth::UnsignedBit32))
    } else if name == "U64"@ {
        Some(ElementaryShape::Int(IntWidth::UnsignedBit64))
    } else if name == "I16"@ {
        Some(ElementaryShape::Int(IntWidth::SignedBit16))
    } else if name == "I32"@ {
        Some(ElementaryShape::Int(IntWidth::SignedBit32))
    } else if name == "I64"@ {
        Some(ElementaryShape::Int(IntWidth::SignedBit64))
    } else if name == "I128"@ {
        Some(ElementaryShape::Int(IntWidth::SignedBit128))
    } else if name == "I256"@ {
        Some(ElementaryShape::Int(IntWidth::SignedBit256))
    } else if name == "F16"@ {
        Some(ElementaryShape::Float(FloatWidth::Bit16))
    } else if name == "F32"@ {
        Some(ElementaryShape::Float(FloatWidth::Bit32))
    } else if name == "F64"@ {
        Some(ElementaryShape::Float(FloatWidth::Bit64))
    } else if name == "F128"@ {
        Some(ElementaryShape::Float(FloatWidth::Bit128))
    } else if name == "ASCIIChar"@ {
        Some(ElementaryShape::Char(CharWidth::Ascii))
    } else if name == "UTF16Char"@ {
        Some(ElementaryShape::Char(CharWidth::UTF16))
    } else if name == "ASCIIString"@ {
        Some(ElementaryShape::String(CharWidth::Ascii))
    } else if name == "UTF16String"@ {
        Some(ElementaryShape::String(CharWidth::UTF16))
    } else if name == "Any"@ {
        Some(ElementaryShape::Any)
    } else {
        None
    }
}

/// The elementary shapes that have a core type name, in the order the
/// names are listed.
pub open spec fn core_types() -> Seq<ElementaryShape> {
    seq![
        ElementaryShape::Empty,
        ElementaryShape::Unit,
        ElementaryShape::Bool,
        ElementaryShape::Int(IntWidth::UnsignedBit8),
        ElementaryShape::Int(IntWidth::UnsignedBit16),
        ElementaryShape::Int(IntWidth::UnsignedBit32),
        ElementaryShape::Int(IntWidth::UnsignedBit64),
        ElementaryShape::Int(IntWidth::SignedBit16),
        ElementaryShape::Int(IntWidth::SignedBit32),
        ElementaryShape::Int(IntWidth::SignedBit64),
        ElementaryShape::Int(IntWidth::SignedBit128),
        ElementaryShape::Int(IntWidth::SignedBit256),
        ElementaryShape::Float(FloatWidth::Bit16),
        ElementaryShape::Float(FloatWidth::Bit32),
        ElementaryShape::Float(FloatWidth::Bit64),
        ElementaryShape::Float(FloatWidth::Bit128),
        ElementaryShape::Char(CharWidth::Ascii),
        ElementaryShape::Char(CharWidth::UTF16),
        ElementaryShape::String(CharWidth::Ascii),
        ElementaryShape::String(CharWidth::UTF16),
        ElementaryShape::Any,
    ]
}

impl ElementaryShape {
    /// The name the shape is written with.
    pub fn to_text(&self) -> (res: String)
        ensures
            res@ == shape_name(*self),
    {
        match self {
            ElementaryShape::Empty => String::from_str("Empty"),
            ElementaryShape::Unit => String::from_str("Unit"),
            ElementaryShape::Bool => String::from_str("Bool"),
            ElementaryShape::Int(IntWidth::UnsignedBit8) => String::from_str("U8"),
            ElementaryShape::Int(IntWidth::UnsignedBit16) => String::from_str("U16"),
            ElementaryShape::Int(IntWidth::UnsignedBit32) => String::from_str("U32"),
            ElementaryShape::Int(IntWidth::UnsignedBit64) => String::from_str("U64"),
            ElementaryShape::Int(IntWidth::UnsignedBit128) => String::from_str("U128"),
            ElementaryShape::Int(IntWidth::SignedBit16) => String::from_str("I16"),
            ElementaryShape::Int(IntWidth::SignedBit32) => String::from_str("I32"),
            ElementaryShape::Int(IntWidth::SignedBit64) => String::from_str("I64"),
            ElementaryShape::Int(IntWidth::SignedBit128) => String::from_str("I128"),
            ElementaryShape::Int(IntWidth::SignedBit256) => String::from_str("I256"),
            ElementaryShape::Float(FloatWidth::Bit16) => String::from_str("F16"),
            ElementaryShape::Float(FloatWidth::Bit32) => String::from_str("F32"),
            ElementaryShape::Float(FloatWidth::Bit64) => String::from_str("F64"),
            ElementaryShape::Float(FloatWidth::Bit128) => String::from_str("F128"),
            ElementaryShape::Char(CharWidth::Ascii) => String::from_str("ASCIIChar"),
            ElementaryShape::Char(CharWidth::UTF16) => String::from_str("UTF16Char"),
            ElementaryShape::String(CharWidth::Ascii) => String::from_str("ASCIIString"),
            ElementaryShape::String(CharWidth::UTF16) => String::from_str("UTF16String"),
            ElementaryShape::Any => String::from_str("Any"),
        }
    }
}

/// The elementary shape the core type name `name` stands for, if any.
pub fn core_type_from_name(name: &String) -> (res: Option<ElementaryShape>)
    ensures
        res == core_type(name@),
{
    if *name == String::from_str("Empty") {
        return Some(ElementaryShape::Empty);
    }
    if *name == String::from_str("Unit") {
        return Some(ElementaryShape::Unit);
    }
    if *name == String::from_str("Bool") {
        return Some(ElementaryShape::Bool);
    }
    if *name == String::from_str("U8") {
        return Some(ElementaryShape::Int(IntWidth::UnsignedBit8));
    }
    if *name == String::from_str("U16") {
        return Some(ElementaryShape::Int(IntWidth::UnsignedBit16));
    }
    if *name == String::from_str("U32") {
        return Some(ElementaryShape::Int(IntWidth::UnsignedBit32));
    }
    if *name == String::from_str("U64") {
        return Some(ElementaryShape::Int(IntWidth::UnsignedBit64));
    }
    if *name == String::from_str("I16") {
        return Some(ElementaryShape::Int(IntWidth::SignedBit16));
    }
    if *name == String::from_str("I32") {
        return Some(ElementaryShape::Int(IntWidth::SignedBit32));
    }
    if *name == String::from_str("I64") {
        return Some(ElementaryShape::Int(IntWidth::SignedBit64));
    }
    if *name == String::from_str("I128") {
        return Some(ElementaryShape::Int(IntWidth::SignedBit128));
    }
    if *name == String::from_str("I256") {
        return Some(ElementaryShape::Int(IntWidth::SignedBit256));
    }
    if *name == String::from_str("F16") {
        return Some(ElementaryShape::Float(FloatWidth::Bit16));
    }
    if *name == String::from_str("F32") {
        return Some(ElementaryShape::Float(FloatWidth::Bit32));
    }
    if *name == String::from_str("F64") {
        return Some(ElementaryShape::Float(FloatWidth::Bit64));
    }
    if *name == String::from_str("F128") {
        return Some(ElementaryShape::Float(FloatWidth::Bit128));
    }
    if *name == String::from_str("ASCIIChar") {
        return Some(ElementaryShape::Char(CharWidth::Ascii));
    }
    if *name == String::from_str("UTF16Char") {
        return Some(ElementaryShape::Char(CharWidth::UTF16));
    }
    if *name == String::from_str("ASCIIString") {
        return Some(ElementaryShape::String(CharWidth::Ascii));
    }
    if *name == String::from_str("UTF16String") {
        return Some(ElementaryShape::String(CharWidth::UTF16));
    }
    if *name == String::from_str("Any") {
        return Some(ElementaryShape::Any);
    }
    None
}

/// The elementary shapes that have a core type name, in the order the
/// names are listed.
pub fn core_type_list() -> (res: Vec<ElementaryShape>)
    ensures
        res@ == core_types(),
{
    let mut v: Vec<ElementaryShape> = Vec::new();
    v.push(ElementaryShape::Empty);
    v.push(ElementaryShape::Unit);
    v.push(ElementaryShape::Bool);
    v.push(ElementaryShape::Int(IntWidth::UnsignedBit8));
    v.push(ElementaryShape::Int(IntWidth::UnsignedBit16));
    v.push(ElementaryShape::Int(IntWidth::UnsignedBit32));
    v.push(ElementaryShape::Int(IntWidth::UnsignedBit64));
    v.push(ElementaryShape::Int(IntWidth::SignedBit16));
    v.push(ElementaryShape::Int(IntWidth::SignedBit32));
    v.push(ElementaryShape::Int(IntWidth::SignedBit64));
    v.push(ElementaryShape::Int(IntWidth::SignedBit128));
    v.push(ElementaryShape::Int(IntWidth::SignedBit256));
    v.push(ElementaryShape::Float(FloatWidth::Bit16));
    v.push(ElementaryShape::Float(FloatWidth::Bit32));
    v.push(ElementaryShape::Float(FloatWidth::Bit64));
    v.push(ElementaryShape::Float(FloatWidth::Bit128));
    v.push(ElementaryShape::Char(CharWidth::Ascii));
    v.push(ElementaryShape::Char(CharWidth::UTF16));
    v.push(ElementaryShape::String(CharWidth::Ascii));
    v.push(ElementaryShape::String(CharWidth::UTF16));
    v.push(ElementaryShape::Any);
    proof {
        assert(v@ =~= core_types());
    }
    v
}

/// The core type name of every elementary shape but the unsigned 128-bit
/// integer stands for that shape.
pub proof fn lemma_core_type_names(s: ElementaryShape)
    requires
        s != ElementaryShape::Int(IntWidth::UnsignedBit128),
    ensures
        core_type(shape_name(s)) == Some(s),
{
    reveal_strlit("Empty");
    reveal_strlit("Unit");
    reveal_strlit("Bool");
    reveal_strlit("U8");
    reveal_strlit("U16");
    reveal_strlit("U32");
    reveal_strlit("U64");
    reveal_strlit("U128");
    reveal_strlit("I16");
    reveal_strlit("I32");
    reveal_strlit("I64");
    reveal_strlit("I128");
    reveal_strlit("I256");
    reveal_strlit("F16");
    reveal_strlit("F32");
    reveal_strlit("F64");
    reveal_strlit("F128");
    reveal_strlit("ASCIIChar");
    reveal_strlit("UTF16Char");
    reveal_strlit("ASCIIString");
    reveal_strlit("UTF16String");
    reveal_strlit("Any");
    let n = shape_name(s);
    assert("Empty"@.len() == 5 && "Empty"@[0] == 'E' && "Empty"@[1] == 'm');
    assert("Unit"@.len() == 4 && "Unit"@[0] == 'U' && "Unit"@[1] == 'n');
    assert("Bool"@.len() == 4 && "Bool"@[0] == 'B' && "Bool"@[1] == 'o');
    assert("U8"@.len() == 2 && "U8"@[0] == 'U' && "U8"@[1] == '8');
    assert("U16"@.len() == 3 && "U16"@[0] == 'U' && "U16"@[1] == '1');
    assert("U32"@.len() == 3 && "U32"@[0] == 'U' && "U32"@[1] == '3');
    assert("U64"@.len() == 3 && "U64"@[0] == 'U' && "U64"@[1] == '6');
    assert("U128"@.len() == 4 && "U128"@[0] == 'U' && "U128"@[1] == '1');
    assert("I16"@.len() == 3 && "I16"@[0] == 'I' && "I16"@[1] == '1');
    assert("I32"@.len() == 3 && "I32"@[0] == 'I' && "I32"@[1] == '3');
    assert("I64"@.len() == 3 && "I64"@[0] == 'I' && "I64"@[1] == '6');
    assert("I128"@.len() == 4 && "I128"@[0] == 'I' && "I128"@[1] == '1');
    assert("I256"@.len() == 4 && "I256"@[0] == 'I' && "I256"@[1] == '2');
    assert("F16"@.len() == 3 && "F16"@[0] == 'F' && "F16"@[1] == '1');
    assert("F32"@.len() == 3 && "F32"@[0] == 'F' && "F32"@[1] == '3');
    assert("F64"@.len() == 3 && "F64"@[0] == 'F' && "F64"@[1] == '6');
    assert("F128"@.len() == 4 && "F128"@[0] == 'F' && "F128"@[1] == '1');
    assert("ASCIIChar"@.len() == 9 && "ASCIIChar"@[0] == 'A' && "ASCIIChar"@[1] == 'S');
    assert("UTF16Char"@.len() == 9 && "UTF16Char"@[0] == 'U' && "UTF16Char"@[1] == 'T');
    assert("ASCIIString"@.len() == 11 && "ASCIIString"@[0] == 'A' && "ASCIIString"@[1] == 'S');
    assert("UTF16String"@.len() == 11 && "UTF16String"@[0] == 'U' && "UTF16String"@[1] == 'T');
    assert("Any"@.len() == 3 && "Any"@[0] == 'A' && "Any"@[1] == 'n');
    match s {
        ElementaryShape::Int(w) => {
            match w {
                IntWidth::UnsignedBit128 => {},
                _ => {
                    assert(n.len() >= 2);
                    assert(n[0] == 'U' || n[0] == 'I');
                },
            }
        },
        _ => {},
    }
}

/// A core type name is the name of the shape it stands for.
pub proof fn lemma_core_type_named(name: Seq<char>)
    requires
        core_type(name) is Some,
    ensures
        shape_name(core_type(name).unwrap()) == name,
{
}

} // verus!
