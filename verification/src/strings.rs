use vstd::prelude::*;

verus! {

/// A copy of a list of strings.
pub fn copy_strings(v: &Vec<String>) -> (res: Vec<String>)
    ensures
        res.deep_view() == v.deep_view(),
{
    let mut res: Vec<String> = Vec::new();
    let mut i: usize = 0;
    while i < v.len()
        invariant
            i <= v.len(),
            res.deep_view() == v.deep_view().take(i as int),
        decreases v.len() - i,
    {
        res.push(v[i].clone());
        proof {
            assert(v.deep_view().take(i + 1) == v.deep_view().take(i as int).push(v[i as int]@));
        }
        i = i + 1;
    }
    proof {
        assert(v.deep_view().take(v.len() as int) == v.deep_view());
    }
    res
}

/// The strings of `v` from index `lo` (inclusive) to `hi` (exclusive).
pub fn slice_strings(v: &Vec<String>, lo: usize, hi: usize) -> (res: Vec<String>)
    requires
        lo <= hi <= v.len(),
    ensures
        res.deep_view() == v.deep_view().subrange(lo as int, hi as int),
{
    let mut res: Vec<String> = Vec::new();
    let mut i: usize = lo;
    while i < hi
        invariant
            lo <= i <= hi,
            hi <= v.len(),
            res.deep_view() == v.deep_view().subrange(lo as int, i as int),
        decreases hi - i,
    {
        res.push(v[i].clone());
        proof {
            assert(v.deep_view().subrange(lo as int, i + 1) == v.deep_view().subrange(
                lo as int,
                i as int,
            ).push(v[i as int]@));
        }
        i = i + 1;
    }
    res
}

/// `a` followed by the strings of `b`.
pub fn append_strings(a: Vec<String>, b: &Vec<String>) -> (res: Vec<String>)
    ensures
        res.deep_view() == a.deep_view() + b.deep_view(),
{
    let mut res = a;
    let ghost a_view = res.deep_view();
    let mut i: usize = 0;
    while i < b.len()
        invariant
            i <= b.len(),
            res.deep_view() == a_view + b.deep_view().take(i as int),
        decreases b.len() - i,
    {
        res.push(b[i].clone());
        proof {
            assert(b.deep_view().take(i + 1) == b.deep_view().take(i as int).push(b[i as int]@));
            assert(a_view + b.deep_view().take(i + 1) == (a_view + b.deep_view().take(
                i as int,
            )).push(b[i as int]@));
        }
        i = i + 1;
    }
    proof {
        assert(b.deep_view().take(b.len() as int) == b.deep_view());
    }
    res
}

/// Whether two lists of strings are equal element by element.
pub fn strings_equal(a: &Vec<String>, b: &Vec<String>) -> (res: bool)
    ensures
        res == (a.deep_view() == b.deep_view()),
{
    if a.len() != b.len() {
        proof {
            assert(a.deep_view().len() != b.deep_view().len());
        }
        return false;
    }
    let mut i: usize = 0;
    while i < a.len()
        invariant
            i <= a.len(),
            a.len() == b.len(),
            a.deep_view().take(i as int) == b.deep_view().take(i as int),
        decreases a.len() - i,
    {
        if a[i] != b[i] {
            proof {
                assert(a.deep_view()[i as int] != b.deep_view()[i as int]);
            }
            return false;
        }
        proof {
            assert(a.deep_view().take(i + 1) == a.deep_view().take(i as int).push(a[i as int]@));
            assert(b.deep_view().take(i + 1) == b.deep_view().take(i as int).push(b[i as int]@));
        }
        i = i + 1;
    }
    proof {
        assert(a.deep_view().take(a.len() as int) == a.deep_view());
        assert(b.deep_view().take(b.len() as int) == b.deep_view());
    }
    true
}

} // verus!
