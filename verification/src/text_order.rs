use vstd::prelude::*;
use vstd::utf8::{encode_utf8, encode_utf8_decode_utf8};
use crate::route::{Route, RouteView};

verus! {

/// Strict lexicographic order on byte strings: the first differing byte
/// decides, and a proper prefix comes first.
pub open spec fn bytes_below(a: Seq<u8>, b: Seq<u8>) -> bool
    decreases a.len(),
{
    if b.len() == 0 {
        false
    } else if a.len() == 0 {
        true
    } else if a[0] != b[0] {
        a[0] < b[0]
    } else {
        bytes_below(a.drop_first(), b.drop_first())
    }
}

/// The order of strings: that of their UTF-8 encodings.
pub open spec fn text_below(a: Seq<char>, b: Seq<char>) -> bool {
    bytes_below(encode_utf8(a), encode_utf8(b))
}

/// Strict lexicographic order on sequences of names.
pub open spec fn path_below(p: Seq<Seq<char>>, q: Seq<Seq<char>>) -> bool
    decreases p.len(),
{
    if q.len() == 0 {
        false
    } else if p.len() == 0 {
        true
    } else if p[0] != q[0] {
        text_below(p[0], q[0])
    } else {
        path_below(p.drop_first(), q.drop_first())
    }
}

/// The order of routes: by root name, then by path.
pub open spec fn route_below(r: RouteView, s: RouteView) -> bool {
    text_below(r.root, s.root) || (r.root == s.root && path_below(r.path, s.path))
}

/// No byte string lies below itself.
pub proof fn lemma_bytes_irreflexive(a: Seq<u8>)
    ensures
        !bytes_below(a, a),
    decreases a.len(),
{
    if a.len() > 0 {
        lemma_bytes_irreflexive(a.drop_first());
    }
}

/// The byte order is transitive.
pub proof fn lemma_bytes_transitive(a: Seq<u8>, b: Seq<u8>, c: Seq<u8>)
    requires
        bytes_below(a, b),
        bytes_below(b, c),
    ensures
        bytes_below(a, c),
    decreases a.len(),
{
    if a.len() > 0 && a[0] == b[0] && b[0] == c[0] {
        lemma_bytes_transitive(a.drop_first(), b.drop_first(), c.drop_first());
    }
}

/// Two different byte strings are ordered one way or the other.
pub proof fn lemma_bytes_total(a: Seq<u8>, b: Seq<u8>)
    ensures
        a == b || bytes_below(a, b) || bytes_below(b, a),
    decreases a.len(),
{
    if a.len() > 0 && b.len() > 0 && a[0] == b[0] {
        lemma_bytes_total(a.drop_first(), b.drop_first());
        if a.drop_first() == b.drop_first() {
            assert(a =~= seq![a[0]] + a.drop_first());
            assert(b =~= seq![b[0]] + b.drop_first());
        }
    } else if a.len() == 0 && b.len() == 0 {
        assert(a =~= b);
    }
}

/// No string lies below itself.
pub proof fn lemma_text_irreflexive(a: Seq<char>)
    ensures
        !text_below(a, a),
{
    lemma_bytes_irreflexive(encode_utf8(a));
}

/// The string order is transitive.
pub proof fn lemma_text_transitive(a: Seq<char>, b: Seq<char>, c: Seq<char>)
    requires
        text_below(a, b),
        text_below(b, c),
    ensures
        text_below(a, c),
{
    lemma_bytes_transitive(encode_utf8(a), encode_utf8(b), encode_utf8(c));
}

/// Two different strings are ordered one way or the other.
pub proof fn lemma_text_total(a: Seq<char>, b: Seq<char>)
    ensures
        a == b || text_below(a, b) || text_below(b, a),
{
    lemma_bytes_total(encode_utf8(a), encode_utf8(b));
    encode_utf8_decode_utf8(a);
    encode_utf8_decode_utf8(b);
}

/// No path lies below itself.
pub proof fn lemma_path_irreflexive(p: Seq<Seq<char>>)
    ensures
        !path_below(p, p),
    decreases p.len(),
{
    if p.len() > 0 {
        lemma_path_irreflexive(p.drop_first());
    }
}

/// The path order is transitive.
pub proof fn lemma_path_transitive(p: Seq<Seq<char>>, q: Seq<Seq<char>>, r: Seq<Seq<char>>)
    requires
        path_below(p, q),
        path_below(q, r),
    ensures
        path_below(p, r),
    decreases p.len(),
{
    if p.len() > 0 && q.len() > 0 && r.len() > 0 {
        if p[0] == q[0] && q[0] == r[0] {
            lemma_path_transitive(p.drop_first(), q.drop_first(), r.drop_first());
        } else if p[0] != q[0] && q[0] != r[0] {
            lemma_text_transitive(p[0], q[0], r[0]);
            if p[0] == r[0] {
                lemma_text_irreflexive(p[0]);
            }
        }
    }
}

/// Two different paths are ordered one way or the other.
pub proof fn lemma_path_total(p: Seq<Seq<char>>, q: Seq<Seq<char>>)
    ensures
        p == q || path_below(p, q) || path_below(q, p),
    decreases p.len(),
{
    if p.len() > 0 && q.len() > 0 {
        if p[0] == q[0] {
            lemma_path_total(p.drop_first(), q.drop_first());
            if p.drop_first() == q.drop_first() {
                assert(p =~= seq![p[0]] + p.drop_first());
                assert(q =~= seq![q[0]] + q.drop_first());
            }
        } else {
            lemma_text_total(p[0], q[0]);
        }
    } else if p.len() == 0 && q.len() == 0 {
        assert(p =~= q);
    }
}

/// No route lies below itself.
pub proof fn lemma_route_irreflexive(r: RouteView)
    ensures
        !route_below(r, r),
{
    lemma_text_irreflexive(r.root);
    lemma_path_irreflexive(r.path);
}

/// The route order is transitive.
pub proof fn lemma_route_transitive(r: RouteView, s: RouteView, t: RouteView)
    requires
        route_below(r, s),
        route_below(s, t),
    ensures
        route_below(r, t),
{
    if text_below(r.root, s.root) && text_below(s.root, t.root) {
        lemma_text_transitive(r.root, s.root, t.root);
    } else if r.root == s.root && s.root == t.root {
        lemma_path_transitive(r.path, s.path, t.path);
    }
}

/// Two different routes are ordered one way or the other.
pub proof fn lemma_route_total(r: RouteView, s: RouteView)
    ensures
        r == s || route_below(r, s) || route_below(s, r),
{
    lemma_text_total(r.root, s.root);
    lemma_path_total(r.path, s.path);
}

/// Whether `a` comes strictly before `b` in the order of strings.
pub fn text_before(a: &String, b: &String) -> (res: bool)
    ensures
        res == text_below(a@, b@),
{
    let x: &[u8] = a.as_str().as_bytes();
    let y: &[u8] = b.as_str().as_bytes();
    let mut i: usize = 0;
    assert(x@.skip(0) =~= x@);
    assert(y@.skip(0) =~= y@);
    while i < x.len() && i < y.len() && x[i] == y[i]
        invariant
            x@ == encode_utf8(a@),
            y@ == encode_utf8(b@),
            0 <= i <= x@.len(),
            i <= y@.len(),
            bytes_below(x@, y@) == bytes_below(x@.skip(i as int), y@.skip(i as int)),
        decreases x.len() - i,
    {
        assert(x@.skip(i as int).drop_first() =~= x@.skip(i + 1));
        assert(y@.skip(i as int).drop_first() =~= y@.skip(i + 1));
        i = i + 1;
    }
    if i == y.len() {
        false
    } else if i == x.len() {
        true
    } else {
        x[i] < y[i]
    }
}

/// Whether path `p` comes strictly before path `q`.
pub fn path_before(p: &Vec<String>, q: &Vec<String>) -> (res: bool)
    ensures
        res == path_below(p.deep_view(), q.deep_view()),
{
    let ghost pv = p.deep_view();
    let ghost qv = q.deep_view();
    let mut i: usize = 0;
    assert(pv.skip(0) =~= pv);
    assert(qv.skip(0) =~= qv);
    while i < p.len() && i < q.len() && p[i] == q[i]
        invariant
            pv == p.deep_view(),
            qv == q.deep_view(),
            0 <= i <= p.len(),
            i <= q.len(),
            path_below(pv, qv) == path_below(pv.skip(i as int), qv.skip(i as int)),
        decreases p.len() - i,
    {
        assert(pv.skip(i as int).drop_first() =~= pv.skip(i + 1));
        assert(qv.skip(i as int).drop_first() =~= qv.skip(i + 1));
        i = i + 1;
    }
    if i == q.len() {
        false
    } else if i == p.len() {
        true
    } else {
        text_before(&p[i], &q[i])
    }
}

/// Whether route `r` comes strictly before route `s`.
pub fn route_before(r: &Route, s: &Route) -> (res: bool)
    ensures
        res == route_below(r@, s@),
{
    if text_before(&r.root.name, &s.root.name) {
        true
    } else if r.root.name == s.root.name {
        path_before(&r.path, &s.path)
    } else {
        false
    }
}

} // verus!
