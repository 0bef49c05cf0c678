use vstd::prelude::*;

verus! {

/// The identity of a compilation cell (a package-like unit of source).
/// Cells are told apart by their name.
#[derive(Debug)]
pub struct CellSignature {
    pub name: String,
}

impl View for CellSignature {
    type V = Seq<char>;

    open spec fn view(&self) -> Seq<char> {
        self.name@
    }
}

impl CellSignature {
    pub fn new(name: String) -> (res: CellSignature)
        ensures
            res@ == name@,
    {
        CellSignature { name }
    }

    /// A copy of this signature.
    pub fn duplicate(&self) -> (res: CellSignature)
        ensures
            res@ == self@,
    {
        CellSignature { name: self.name.clone() }
    }

    /// Whether two signatures denote the same cell.
    pub fn same_as(&self, other: &CellSignature) -> (res: bool)
        ensures
            res == (self@ == other@),
    {
        self.name == other.name
    }

    /// The textual form of the signature: its name.
    pub fn to_text(&self) -> (res: String)
        ensures
            res@ == self@,
    {
        self.name.clone()
    }
}

} // verus!
