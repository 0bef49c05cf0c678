use vstd::prelude::*;
use crate::merge_errors::{ModuleMergeError, ModuleMergeErrors};
use crate::name_errors::{GlobalNameAliasResolutionError, GlobalNameAliasResolutionErrors};

verus! {

/// An error of the analysis phase.
#[derive(Debug)]
pub enum AnalyzeError {
    ModuleMergeError(ModuleMergeError),
    GlobalNameAliasResolutionError(GlobalNameAliasResolutionError),
}

/// The errors of the analysis phase, in the order they were found.
pub type AnalyzeErrors = Vec<AnalyzeError>;

impl From<ModuleMergeError> for AnalyzeError {
    fn from(value: ModuleMergeError) -> (res: Self) {
        AnalyzeError::ModuleMergeError(value)
    }
}

impl vstd::std_specs::convert::FromSpecImpl<ModuleMergeError> for AnalyzeError {
    open spec fn obeys_from_spec() -> bool {
        true
    }

    open spec fn from_spec(value: ModuleMergeError) -> Self {
        AnalyzeError::ModuleMergeError(value)
    }
}

impl From<GlobalNameAliasResolutionError> for AnalyzeError {
    fn from(value: GlobalNameAliasResolutionError) -> (res: Self) {
        AnalyzeError::GlobalNameAliasResolutionError(value)
    }
}

impl vstd::std_specs::convert::FromSpecImpl<GlobalNameAliasResolutionError> for AnalyzeError {
    open spec fn obeys_from_spec() -> bool {
        true
    }

    open spec fn from_spec(value: GlobalNameAliasResolutionError) -> Self {
        AnalyzeError::GlobalNameAliasResolutionError(value)
    }
}

/// The errors of module merging as analysis errors, in the same order.
pub fn analyze_errors_from_merge(value: ModuleMergeErrors) -> (res: AnalyzeErrors)
    ensures
        res.len() == value.len(),
        forall|i: int| 0 <= i < value.len() ==> res[i] == AnalyzeError::ModuleMergeError(#[trigger] value[i]),
{
    let ghost old_v = value@;
    let mut value = value;
    let mut rev: Vec<AnalyzeError> = Vec::new();
    while value.len() > 0
        invariant
            value@.len() + rev@.len() == old_v.len(),
            value@ == old_v.take(value@.len() as int),
            forall|j: int| 0 <= j < rev@.len() ==> rev[j] == AnalyzeError::ModuleMergeError(
                old_v[old_v.len() - 1 - j],
            ),
        decreases value.len(),
    {
        let e = value.pop().unwrap();
        rev.push(AnalyzeError::ModuleMergeError(e));
    }
    let mut res: Vec<AnalyzeError> = Vec::new();
    while rev.len() > 0
        invariant
            res@.len() + rev@.len() == old_v.len(),
            forall|j: int| 0 <= j < rev@.len() ==> rev[j] == AnalyzeError::ModuleMergeError(
                old_v[old_v.len() - 1 - j],
            ),
            forall|j: int| 0 <= j < res@.len() ==> res[j] == AnalyzeError::ModuleMergeError(
                old_v[j],
            ),
        decreases rev.len(),
    {
        let e = rev.pop().unwrap();
        res.push(e);
    }
    res
}

/// The errors of alias resolution as analysis errors, in the same order.
pub fn analyze_errors_from_alias_resolution(value: GlobalNameAliasResolutionErrors) -> (res: AnalyzeErrors)
    ensures
        res.len() == value.len(),
        forall|i: int| 0 <= i < value.len() ==> res[i] == AnalyzeError::GlobalNameAliasResolutionError(#[trigger] value[i]),
{
    let ghost old_v = value@;
    let mut value = value;
    let mut rev: Vec<AnalyzeError> = Vec::new();
    while value.len() > 0
        invariant
            value@.len() + rev@.len() == old_v.len(),
            value@ == old_v.take(value@.len() as int),
            forall|j: int| 0 <= j < rev@.len() ==> rev[j] == AnalyzeError::GlobalNameAliasResolutionError(
                old_v[old_v.len() - 1 - j],
            ),
        decreases value.len(),
    {
        let e = value.pop().unwrap();
        rev.push(AnalyzeError::GlobalNameAliasResolutionError(e));
    }
    let mut res: Vec<AnalyzeError> = Vec::new();
    while rev.len() > 0
        invariant
            res@.len() + rev@.len() == old_v.len(),
            forall|j: int| 0 <= j < rev@.len() ==> rev[j] == AnalyzeError::GlobalNameAliasResolutionError(
                old_v[old_v.len() - 1 - j],
            ),
            forall|j: int| 0 <= j < res@.len() ==> res[j] == AnalyzeError::GlobalNameAliasResolutionError(
                old_v[j],
            ),
        decreases rev.len(),
    {
        let e = rev.pop().unwrap();
        res.push(e);
    }
    res
}

} // verus!
