use vstd::prelude::*;
use crate::elementary_shape::{ElementaryPShape, ElementaryShape};
use crate::keyed::KeyedMap;
use crate::parsed::ParsedPosition;
use crate::route::Route;
use crate::shape_keys::{ComputableShapeKey, GenericParamDescriptionKey};

verus! {

/// A shape that could not be computed yet: a defined shape with its
/// arguments, or a generic variable of a parameter list.
#[derive(Debug)]
pub enum UnresolvedPShapeGut {
    Specified(Route, Vec<ComputableShapeKey>),
    GenericVar(String, GenericParamDescriptionKey),
}

/// Such a shape with the position it came from (if any).
#[derive(Debug)]
pub struct UnresolvedPShape {
    pub gut: UnresolvedPShapeGut,
    pub position: Option<ParsedPosition>,
}

/// The form of a shape the subshape questions are asked on.
#[derive(Debug)]
pub enum ComputableShapeGut {
    Elementary(ElementaryPShape),
    Unresolved(UnresolvedPShape),
    ParenSingle(ComputableShapeKey),
    Tuple(Vec<ComputableShapeKey>),
    Array(ComputableShapeKey),
    Mapping(ComputableShapeKey, ComputableShapeKey),
    Struct(KeyedMap<String, ComputableShapeKey>),
    Function(Vec<ComputableShapeKey>, ComputableShapeKey),
    Union(ComputableShapeKey, ComputableShapeKey),
    Intersection(ComputableShapeKey, ComputableShapeKey),
}

/// A shape the subshape questions are asked on, with the position it came
/// from (if any).
#[derive(Debug)]
pub struct ComputableShape {
    pub gut: ComputableShapeGut,
    pub position: Option<ParsedPosition>,
}

impl ComputableShape {
    /// Whether this is the elementary shape `Any`.
    pub open spec fn is_any_shape(&self) -> bool {
        self.gut matches ComputableShapeGut::Elementary(e) && e.gut == ElementaryShape::Any
    }

    /// Whether this is the elementary shape `Empty`.
    pub open spec fn is_empty_shape(&self) -> bool {
        self.gut matches ComputableShapeGut::Elementary(e) && e.gut == ElementaryShape::Empty
    }

    /// Whether this is the elementary shape `Any`.
    pub fn is_any(&self) -> (res: bool)
        ensures
            res == self.is_any_shape(),
    {
        match &self.gut {
            ComputableShapeGut::Elementary(e) => e.is_any(),
            _ => false,
        }
    }

    /// Whether this is the elementary shape `Empty`.
    pub fn is_empty(&self) -> (res: bool)
        ensures
            res == self.is_empty_shape(),
    {
        match &self.gut {
            ComputableShapeGut::Elementary(e) => e.is_empty(),
            _ => false,
        }
    }

    /// The elementary shape `Any`, with no position.
    pub fn any() -> (res: Self)
        ensures
            res.is_any_shape(),
            res.position is None,
            res.gut matches ComputableShapeGut::Elementary(e) && e.position is None,
    {
        ComputableShape {
            gut: ComputableShapeGut::Elementary(ElementaryPShape { gut: ElementaryShape::Any, position: None }),
            position: None,
        }
    }

    /// The elementary shape `Empty`, with no position.
    pub fn empty() -> (res: Self)
        ensures
            res.is_empty_shape(),
            res.position is None,
            res.gut matches ComputableShapeGut::Elementary(e) && e.position is None,
    {
        ComputableShape {
            gut: ComputableShapeGut::Elementary(ElementaryPShape { gut: ElementaryShape::Empty, position: None }),
            position: None,
        }
    }
}

/// The answer to a subshape question.
#[derive(Debug, Clone, Copy, PartialEq, Eq, Structural)]
pub enum IsSubShapeResult {
    True,
    Stuck,
    OverCost,
    False,
}

impl IsSubShapeResult {
    /// Whether the answer is yes.
    pub fn is_true(&self) -> (res: bool)
        ensures
            res == (*self == IsSubShapeResult::True),
    {
        match self {
            IsSubShapeResult::True => true,
            _ => false,
        }
    }

    /// Whether the answer is no.
    pub fn is_false(&self) -> (res: bool)
        ensures
            res == (*self == IsSubShapeResult::False),
    {
        match self {
            IsSubShapeResult::False => true,
            _ => false,
        }
    }
}

} // verus!
