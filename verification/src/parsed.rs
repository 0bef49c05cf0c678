use vstd::prelude::*;

verus! {

/// Where a piece of source text was parsed from.
#[derive(Debug)]
pub struct ParsedPosition {
    pub path: String,
    pub start: usize,
    pub end: usize,
    pub start_line: usize,
    pub start_column: usize,
    pub end_line: usize,
    pub end_column: usize,
}

/// The abstract value of a position: its path as text and its numbers.
pub struct PositionView {
    pub path: Seq<char>,
    pub start: usize,
    pub end: usize,
    pub start_line: usize,
    pub start_column: usize,
    pub end_line: usize,
    pub end_column: usize,
}

impl View for ParsedPosition {
    type V = PositionView;

    open spec fn view(&self) -> PositionView {
        PositionView {
            path: self.path@,
            start: self.start,
            end: self.end,
            start_line: self.start_line,
            start_column: self.start_column,
            end_line: self.end_line,
            end_column: self.end_column,
        }
    }
}

impl ParsedPosition {
    /// A copy of this position.
    pub fn duplicate(&self) -> (res: ParsedPosition)
        ensures
            res@ == self@,
    {
        ParsedPosition {
            path: self.path.clone(),
            start: self.start,
            end: self.end,
            start_line: self.start_line,
            start_column: self.start_column,
            end_line: self.end_line,
            end_column: self.end_column,
        }
    }

    /// The position given to definitions made up rather than written:
    /// path `<synthetic>` and every number zero.
    pub fn synthetic() -> (res: ParsedPosition)
        ensures
            res.path@ == "<synthetic>"@,
            res.start == 0,
            res.end == 0,
            res.start_line == 0,
            res.start_column == 0,
            res.end_line == 0,
            res.end_column == 0,
    {
        ParsedPosition {
            path: String::from_str("<synthetic>"),
            start: 0,
            end: 0,
            start_line: 0,
            start_column: 0,
            end_line: 0,
            end_column: 0,
        }
    }
}

/// A parsed value together with the position it was parsed from.
#[derive(Debug)]
pub struct ParsedBox<T> {
    pub value: T,
    pub position: ParsedPosition,
}

impl<T> ParsedBox<T> {
    pub fn new(value: T, position: ParsedPosition) -> (res: ParsedBox<T>)
        ensures
            res.value == value,
            res.position == position,
    {
        ParsedBox { value, position }
    }

    /// The parsed value.
    pub fn value(&self) -> (res: &T)
        ensures
            *res == self.value,
    {
        &self.value
    }

    /// The parsed value, taken out of the box.
    pub fn owned_value(self) -> (res: T)
        ensures
            res == self.value,
    {
        self.value
    }
}

/// A plain name as written in the source.
#[derive(Debug)]
pub struct Identifier {
    pub name: String,
}

impl Identifier {
    /// A copy of this name.
    pub fn duplicate(&self) -> (res: Identifier)
        ensures
            res.name@ == self.name@,
    {
        Identifier { name: self.name.clone() }
    }

    /// The name.
    pub fn get_name(&self) -> (res: String)
        ensures
            res@ == self.name@,
    {
        self.name.clone()
    }
}

/// A name reached through a route, such as `a::b::c`: the leading names
/// form `route`, the final one is `this_id`.
#[derive(Debug)]
pub struct RoutedIdentifier {
    pub route: Vec<ParsedBox<Identifier>>,
    pub this_id: ParsedBox<Identifier>,
}

impl RoutedIdentifier {
    /// A copy of this routed name, with the same positions.
    pub fn duplicate(&self) -> (res: RoutedIdentifier)
        ensures
            res.names() == self.names(),
            res.route@.len() == self.route@.len(),
            res.this_id.value.name@ == self.this_id.value.name@,
    {
        let mut route: Vec<ParsedBox<Identifier>> = Vec::new();
        let mut i: usize = 0;
        while i < self.route.len()
            invariant
                i <= self.route.len(),
                route@.len() == i,
                forall|j: int| 0 <= j < i ==> (#[trigger] route@[j]).value.name@ == self.route@[j].value.name@,
            decreases self.route.len() - i,
        {
            route.push(ParsedBox::new(self.route[i].value.duplicate(), self.route[i].position.duplicate()));
            i = i + 1;
        }
        let res = RoutedIdentifier {
            route,
            this_id: ParsedBox::new(self.this_id.value.duplicate(), self.this_id.position.duplicate()),
        };
        proof {
            assert(res.route@.map_values(|p: ParsedBox<Identifier>| p.value.name@) =~= self.route@.map_values(
                |p: ParsedBox<Identifier>| p.value.name@,
            ));
        }
        res
    }

    /// The names of the route followed by the final name.
    pub open spec fn names(&self) -> Seq<Seq<char>> {
        self.route@.map_values(|p: ParsedBox<Identifier>| p.value.name@).push(self.this_id.value.name@)
    }

    /// The names of the route followed by the final name.
    pub fn to_vec_string(&self) -> (res: Vec<String>)
        ensures
            res.deep_view() == self.names(),
            res.len() >= 1,
    {
        let mut res: Vec<String> = Vec::new();
        let mut i: usize = 0;
        while i < self.route.len()
            invariant
                i <= self.route.len(),
                res.deep_view() == self.route@.map_values(
                    |p: ParsedBox<Identifier>| p.value.name@,
                ).take(i as int),
            decreases self.route.len() - i,
        {
            res.push(self.route[i].value.name.clone());
            proof {
                let m = self.route@.map_values(|p: ParsedBox<Identifier>| p.value.name@);
                assert(m.take(i + 1) =~= m.take(i as int).push(m[i as int]));
            }
            i = i + 1;
        }
        res.push(self.this_id.value.name.clone());
        proof {
            let m = self.route@.map_values(|p: ParsedBox<Identifier>| p.value.name@);
            assert(m.take(self.route.len() as int) =~= m);
            assert(res.deep_view() =~= self.names());
        }
        res
    }
}

} // verus!
