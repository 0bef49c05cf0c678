use vstd::prelude::*;
use crate::keyed::KeyView;

verus! {

/// The index of a `ShapeContent` in the summary's table of them.
#[derive(Copy, Clone, Debug, PartialEq, Eq, Structural, Hash, PartialOrd, Ord)]
pub struct ShapeContentKey(pub usize);

impl ShapeContentKey {
    /// The index.
    pub fn idx(self) -> (res: usize)
        ensures
            res == self.0,
    {
        self.0
    }
}

impl From<usize> for ShapeContentKey {
    fn from(i: usize) -> (res: Self) {
        Self(i)
    }
}

impl vstd::std_specs::convert::FromSpecImpl<usize> for ShapeContentKey {
    open spec fn obeys_from_spec() -> bool {
        true
    }

    open spec fn from_spec(i: usize) -> Self {
        Self(i)
    }
}

impl View for ShapeContentKey {
    type V = usize;

    open spec fn view(&self) -> usize {
        self.0
    }
}

impl KeyView for ShapeContentKey {
    fn key_eq(&self, other: &Self) -> (res: bool) {
        self.0 == other.0
    }

    fn key_dup(&self) -> (res: Self) {
        *self
    }
}

/// The index of a `OperationContent` in the summary's table of them.
#[derive(Copy, Clone, Debug, PartialEq, Eq, Structural, Hash, PartialOrd, Ord)]
pub struct OperationContentKey(pub usize);

impl OperationContentKey {
    /// The index.
    pub fn idx(self) -> (res: usize)
        ensures
            res == self.0,
    {
        self.0
    }
}

impl From<usize> for OperationContentKey {
    fn from(i: usize) -> (res: Self) {
        Self(i)
    }
}

impl vstd::std_specs::convert::FromSpecImpl<usize> for OperationContentKey {
    open spec fn obeys_from_spec() -> bool {
        true
    }

    open spec fn from_spec(i: usize) -> Self {
        Self(i)
    }
}

impl View for OperationContentKey {
    type V = usize;

    open spec fn view(&self) -> usize {
        self.0
    }
}

impl KeyView for OperationContentKey {
    fn key_eq(&self, other: &Self) -> (res: bool) {
        self.0 == other.0
    }

    fn key_dup(&self) -> (res: Self) {
        *self
    }
}

/// The index of a `BindContent` in the summary's table of them.
#[derive(Copy, Clone, Debug, PartialEq, Eq, Structural, Hash, PartialOrd, Ord)]
pub struct BindContentKey(pub usize);

impl BindContentKey {
    /// The index.
    pub fn idx(self) -> (res: usize)
        ensures
            res == self.0,
    {
        self.0
    }
}

impl From<usize> for BindContentKey {
    fn from(i: usize) -> (res: Self) {
        Self(i)
    }
}

impl vstd::std_specs::convert::FromSpecImpl<usize> for BindContentKey {
    open spec fn obeys_from_spec() -> bool {
        true
    }

    open spec fn from_spec(i: usize) -> Self {
        Self(i)
    }
}

impl View for BindContentKey {
    type V = usize;

    open spec fn view(&self) -> usize {
        self.0
    }
}

impl KeyView for BindContentKey {
    fn key_eq(&self, other: &Self) -> (res: bool) {
        self.0 == other.0
    }

    fn key_dup(&self) -> (res: Self) {
        *self
    }
}

/// The index of a `OperatorContent` in the summary's table of them.
#[derive(Copy, Clone, Debug, PartialEq, Eq, Structural, Hash, PartialOrd, Ord)]
pub struct OperatorContentKey(pub usize);

impl OperatorContentKey {
    /// The index.
    pub fn idx(self) -> (res: usize)
        ensures
            res == self.0,
    {
        self.0
    }
}

impl From<usize> for OperatorContentKey {
    fn from(i: usize) -> (res: Self) {
        Self(i)
    }
}

impl vstd::std_specs::convert::FromSpecImpl<usize> for OperatorContentKey {
    open spec fn obeys_from_spec() -> bool {
        true
    }

    open spec fn from_spec(i: usize) -> Self {
        Self(i)
    }
}

impl View for OperatorContentKey {
    type V = usize;

    open spec fn view(&self) -> usize {
        self.0
    }
}

impl KeyView for OperatorContentKey {
    fn key_eq(&self, other: &Self) -> (res: bool) {
        self.0 == other.0
    }

    fn key_dup(&self) -> (res: Self) {
        *self
    }
}

/// The index of a `CoerceContent` in the summary's table of them.
#[derive(Copy, Clone, Debug, PartialEq, Eq, Structural, Hash, PartialOrd, Ord)]
pub struct CoerceContentKey(pub usize);

impl CoerceContentKey {
    /// The index.
    pub fn idx(self) -> (res: usize)
        ensures
            res == self.0,
    {
        self.0
    }
}

impl From<usize> for CoerceContentKey {
    fn from(i: usize) -> (res: Self) {
        Self(i)
    }
}

impl vstd::std_specs::convert::FromSpecImpl<usize> for CoerceContentKey {
    open spec fn obeys_from_spec() -> bool {
        true
    }

    open spec fn from_spec(i: usize) -> Self {
        Self(i)
    }
}

impl View for CoerceContentKey {
    type V = usize;

    open spec fn view(&self) -> usize {
        self.0
    }
}

impl KeyView for CoerceContentKey {
    fn key_eq(&self, other: &Self) -> (res: bool) {
        self.0 == other.0
    }

    fn key_dup(&self) -> (res: Self) {
        *self
    }
}

/// The index of a `GenericParamDescription` in the summary's table of them.
#[derive(Copy, Clone, Debug, PartialEq, Eq, Structural, Hash, PartialOrd, Ord)]
pub struct GenericParamDescriptionKey(pub usize);

impl GenericParamDescriptionKey {
    /// The index.
    pub fn idx(self) -> (res: usize)
        ensures
            res == self.0,
    {
        self.0
    }
}

impl From<usize> for GenericParamDescriptionKey {
    fn from(i: usize) -> (res: Self) {
        Self(i)
    }
}

impl vstd::std_specs::convert::FromSpecImpl<usize> for GenericParamDescriptionKey {
    open spec fn obeys_from_spec() -> bool {
        true
    }

    open spec fn from_spec(i: usize) -> Self {
        Self(i)
    }
}

impl View for GenericParamDescriptionKey {
    type V = usize;

    open spec fn view(&self) -> usize {
        self.0
    }
}

impl KeyView for GenericParamDescriptionKey {
    fn key_eq(&self, other: &Self) -> (res: bool) {
        self.0 == other.0
    }

    fn key_dup(&self) -> (res: Self) {
        *self
    }
}

/// The index of a `ShapeDescription` in the summary's table of them.
#[derive(Copy, Clone, Debug, PartialEq, Eq, Structural, Hash, PartialOrd, Ord)]
pub struct ShapeDescriptionKey(pub usize);

impl ShapeDescriptionKey {
    /// The index.
    pub fn idx(self) -> (res: usize)
        ensures
            res == self.0,
    {
        self.0
    }
}

impl From<usize> for ShapeDescriptionKey {
    fn from(i: usize) -> (res: Self) {
        Self(i)
    }
}

impl vstd::std_specs::convert::FromSpecImpl<usize> for ShapeDescriptionKey {
    open spec fn obeys_from_spec() -> bool {
        true
    }

    open spec fn from_spec(i: usize) -> Self {
        Self(i)
    }
}

impl View for ShapeDescriptionKey {
    type V = usize;

    open spec fn view(&self) -> usize {
        self.0
    }
}

impl KeyView for ShapeDescriptionKey {
    fn key_eq(&self, other: &Self) -> (res: bool) {
        self.0 == other.0
    }

    fn key_dup(&self) -> (res: Self) {
        *self
    }
}

/// The index of a `ShapeDescriptionContext` in the summary's table of them.
#[derive(Copy, Clone, Debug, PartialEq, Eq, Structural, Hash, PartialOrd, Ord)]
pub struct ShapeDescriptionContextKey(pub usize);

impl ShapeDescriptionContextKey {
    /// The index.
    pub fn idx(self) -> (res: usize)
        ensures
            res == self.0,
    {
        self.0
    }
}

impl From<usize> for ShapeDescriptionContextKey {
    fn from(i: usize) -> (res: Self) {
        Self(i)
    }
}

impl vstd::std_specs::convert::FromSpecImpl<usize> for ShapeDescriptionContextKey {
    open spec fn obeys_from_spec() -> bool {
        true
    }

    open spec fn from_spec(i: usize) -> Self {
        Self(i)
    }
}

impl View for ShapeDescriptionContextKey {
    type V = usize;

    open spec fn view(&self) -> usize {
        self.0
    }
}

impl KeyView for ShapeDescriptionContextKey {
    fn key_eq(&self, other: &Self) -> (res: bool) {
        self.0 == other.0
    }

    fn key_dup(&self) -> (res: Self) {
        *self
    }
}

/// The index of a `FunctionDescription` in the summary's table of them.
#[derive(Copy, Clone, Debug, PartialEq, Eq, Structural, Hash, PartialOrd, Ord)]
pub struct FunctionDescriptionKey(pub usize);

impl FunctionDescriptionKey {
    /// The index.
    pub fn idx(self) -> (res: usize)
        ensures
            res == self.0,
    {
        self.0
    }
}

impl From<usize> for FunctionDescriptionKey {
    fn from(i: usize) -> (res: Self) {
        Self(i)
    }
}

impl vstd::std_specs::convert::FromSpecImpl<usize> for FunctionDescriptionKey {
    open spec fn obeys_from_spec() -> bool {
        true
    }

    open spec fn from_spec(i: usize) -> Self {
        Self(i)
    }
}

impl View for FunctionDescriptionKey {
    type V = usize;

    open spec fn view(&self) -> usize {
        self.0
    }
}

impl KeyView for FunctionDescriptionKey {
    fn key_eq(&self, other: &Self) -> (res: bool) {
        self.0 == other.0
    }

    fn key_dup(&self) -> (res: Self) {
        *self
    }
}

/// The index of a `FunctionDescriptionContext` in the summary's table of them.
#[derive(Copy, Clone, Debug, PartialEq, Eq, Structural, Hash, PartialOrd, Ord)]
pub struct FunctionDescriptionContextKey(pub usize);

impl FunctionDescriptionContextKey {
    /// The index.
    pub fn idx(self) -> (res: usize)
        ensures
            res == self.0,
    {
        self.0
    }
}

impl From<usize> for FunctionDescriptionContextKey {
    fn from(i: usize) -> (res: Self) {
        Self(i)
    }
}

impl vstd::std_specs::convert::FromSpecImpl<usize> for FunctionDescriptionContextKey {
    open spec fn obeys_from_spec() -> bool {
        true
    }

    open spec fn from_spec(i: usize) -> Self {
        Self(i)
    }
}

impl View for FunctionDescriptionContextKey {
    type V = usize;

    open spec fn view(&self) -> usize {
        self.0
    }
}

impl KeyView for FunctionDescriptionContextKey {
    fn key_eq(&self, other: &Self) -> (res: bool) {
        self.0 == other.0
    }

    fn key_dup(&self) -> (res: Self) {
        *self
    }
}

/// The index of a `ClosureDescription` in the summary's table of them.
#[derive(Copy, Clone, Debug, PartialEq, Eq, Structural, Hash, PartialOrd, Ord)]
pub struct ClosureDescriptionKey(pub usize);

impl ClosureDescriptionKey {
    /// The index.
    pub fn idx(self) -> (res: usize)
        ensures
            res == self.0,
    {
        self.0
    }
}

impl From<usize> for ClosureDescriptionKey {
    fn from(i: usize) -> (res: Self) {
        Self(i)
    }
}

impl vstd::std_specs::convert::FromSpecImpl<usize> for ClosureDescriptionKey {
    open spec fn obeys_from_spec() -> bool {
        true
    }

    open spec fn from_spec(i: usize) -> Self {
        Self(i)
    }
}

impl View for ClosureDescriptionKey {
    type V = usize;

    open spec fn view(&self) -> usize {
        self.0
    }
}

impl KeyView for ClosureDescriptionKey {
    fn key_eq(&self, other: &Self) -> (res: bool) {
        self.0 == other.0
    }

    fn key_dup(&self) -> (res: Self) {
        *self
    }
}

/// The index of a `InClosureDescriptionContext` in the summary's table of them.
#[derive(Copy, Clone, Debug, PartialEq, Eq, Structural, Hash, PartialOrd, Ord)]
pub struct InClosureDescriptionContextKey(pub usize);

impl InClosureDescriptionContextKey {
    /// The index.
    pub fn idx(self) -> (res: usize)
        ensures
            res == self.0,
    {
        self.0
    }
}

impl From<usize> for InClosureDescriptionContextKey {
    fn from(i: usize) -> (res: Self) {
        Self(i)
    }
}

impl vstd::std_specs::convert::FromSpecImpl<usize> for InClosureDescriptionContextKey {
    open spec fn obeys_from_spec() -> bool {
        true
    }

    open spec fn from_spec(i: usize) -> Self {
        Self(i)
    }
}

impl View for InClosureDescriptionContextKey {
    type V = usize;

    open spec fn view(&self) -> usize {
        self.0
    }
}

impl KeyView for InClosureDescriptionContextKey {
    fn key_eq(&self, other: &Self) -> (res: bool) {
        self.0 == other.0
    }

    fn key_dup(&self) -> (res: Self) {
        *self
    }
}

/// The index of a `ComputableShape` in the summary's table of them.
#[derive(Copy, Clone, Debug, PartialEq, Eq, Structural, Hash, PartialOrd, Ord)]
pub struct ComputableShapeKey(pub usize);

impl ComputableShapeKey {
    /// The index.
    pub fn idx(self) -> (res: usize)
        ensures
            res == self.0,
    {
        self.0
    }
}

impl From<usize> for ComputableShapeKey {
    fn from(i: usize) -> (res: Self) {
        Self(i)
    }
}

impl vstd::std_specs::convert::FromSpecImpl<usize> for ComputableShapeKey {
    open spec fn obeys_from_spec() -> bool {
        true
    }

    open spec fn from_spec(i: usize) -> Self {
        Self(i)
    }
}

impl View for ComputableShapeKey {
    type V = usize;

    open spec fn view(&self) -> usize {
        self.0
    }
}

impl KeyView for ComputableShapeKey {
    fn key_eq(&self, other: &Self) -> (res: bool) {
        self.0 == other.0
    }

    fn key_dup(&self) -> (res: Self) {
        *self
    }
}

} // verus!
