use vstd::prelude::*;

use crate::models::{Point, Rect};

verus! {

/// Puts `x` after the last element whose key is not above its own; the step of
/// a stable insertion sort.
pub open spec fn insert_by_key<T>(s: Seq<T>, x: T, key: spec_fn(T) -> int) -> Seq<T>
    decreases s.len(),
{
    if s.len() == 0 {
        seq![x]
    } else if key(s.last()) <= key(x) {
        s.push(x)
    } else {
        insert_by_key(s.drop_last(), x, key).push(s.last())
    }
}

/// The stable sort of `s` by ascending key: elements with equal keys keep their order.
pub open spec fn sort_by_key<T>(s: Seq<T>, key: spec_fn(T) -> int) -> Seq<T>
    decreases s.len(),
{
    if s.len() == 0 {
        Seq::empty()
    } else {
        insert_by_key(sort_by_key(s.drop_last(), key), s.last(), key)
    }
}

pub open spec fn sorted_by_key<T>(s: Seq<T>, key: spec_fn(T) -> int) -> bool {
    forall|i: int, j: int| 0 <= i < j < s.len() ==> key(s[i]) <= key(s[j])
}

/// Ordering key of a box by its top edge.
pub open spec fn rect_y_key() -> spec_fn(Rect) -> int {
    |r: Rect| r.y as int
}

/// Ordering key of a box by its left edge.
pub open spec fn rect_x_key() -> spec_fn(Rect) -> int {
    |r: Rect| r.x as int
}

/// Ordering key of a point by its position along the main diagonal.
pub open spec fn point_sum_key() -> spec_fn(Point) -> int {
    |p: Point| p.x + p.y
}

/// Where the insertion step puts `x`: after every element whose key is not above
/// its own, and before the run of larger keys at the end.
pub proof fn lemma_insert_position<T>(s: Seq<T>, x: T, key: spec_fn(T) -> int, j: int)
    requires
        0 <= j <= s.len(),
        j == 0 || key(s[j - 1]) <= key(x),
        forall|k: int| j <= k < s.len() ==> key(#[trigger] s[k]) > key(x),
    ensures
        insert_by_key(s, x, key) == s.insert(j, x),
    decreases s.len(),
{
    if s.len() == 0 {
        assert(s.insert(j, x) =~= seq![x]);
    } else if key(s.last()) <= key(x) {
        assert(j == s.len());
        assert(s.insert(j, x) =~= s.push(x));
    } else {
        let t = s.drop_last();
        assert forall|k: int| j <= k < t.len() implies key(#[trigger] t[k]) > key(x) by {
            assert(t[k] == s[k]);
        }
        lemma_insert_position(t, x, key, j);
        assert(t.insert(j, x).push(s.last()) =~= s.insert(j, x));
    }
}

/// The insertion step keeps a sorted sequence sorted and adds exactly `x`.
pub proof fn lemma_insert_by_key<T>(s: Seq<T>, x: T, key: spec_fn(T) -> int)
    requires
        sorted_by_key(s, key),
    ensures
        sorted_by_key(insert_by_key(s, x, key), key),
        insert_by_key(s, x, key).to_multiset() == s.to_multiset().insert(x),
        insert_by_key(s, x, key).len() == s.len() + 1,
    decreases s.len(),
{
    broadcast use vstd::seq_lib::to_multiset_build;
    if s.len() == 0 {
        assert(seq![x] =~= s.push(x));
    } else if key(s.last()) <= key(x) {
    } else {
        let t = s.drop_last();
        lemma_insert_by_key(t, x, key);
        let u = insert_by_key(t, x, key);
        assert(t.push(s.last()) =~= s);
        assert(t.to_multiset().insert(s.last()) == s.to_multiset());
        assert forall|i: int| 0 <= i < u.len() implies key(#[trigger] u[i]) <= key(s.last()) by {
            vstd::seq_lib::to_multiset_contains(u, u[i]);
            assert(u.to_multiset().count(u[i]) > 0);
            if u[i] != x {
                assert(t.to_multiset().count(u[i]) > 0);
                vstd::seq_lib::to_multiset_contains(t, u[i]);
                let k = choose|k: int| 0 <= k < t.len() && t[k] == u[i];
                assert(t[k] == s[k]);
            }
        }
    }
}

/// The stable sort is sorted and holds the same elements.
pub proof fn lemma_sort_by_key<T>(s: Seq<T>, key: spec_fn(T) -> int)
    ensures
        sorted_by_key(sort_by_key(s, key), key),
        sort_by_key(s, key).to_multiset() == s.to_multiset(),
        sort_by_key(s, key).len() == s.len(),
    decreases s.len(),
{
    broadcast use vstd::seq_lib::to_multiset_build;
    if s.len() > 0 {
        let t = s.drop_last();
        lemma_sort_by_key(t, key);
        lemma_insert_by_key(sort_by_key(t, key), s.last(), key);
        assert(t.push(s.last()) =~= s);
    } else {
        assert(s =~= Seq::<T>::empty());
    }
}

/// Which edge of a box orders it.
#[derive(Clone, Copy, Debug, PartialEq, Eq, Structural)]
pub enum RectEdge {
    Top,
    Left,
}

pub open spec fn rect_edge_key(edge: RectEdge) -> spec_fn(Rect) -> int {
    match edge {
        RectEdge::Top => rect_y_key(),
        RectEdge::Left => rect_x_key(),
    }
}

fn rect_edge_value(r: &Rect, edge: RectEdge) -> (v: i32)
    ensures
        v == (rect_edge_key(edge))(*r),
{
    match edge {
        RectEdge::Top => r.y,
        RectEdge::Left => r.x,
    }
}

/// Stable insertion sort of boxes by one of their edges.
pub fn sort_rects(v: Vec<Rect>, edge: RectEdge) -> (r: Vec<Rect>)
    ensures
        r@ == sort_by_key(v@, rect_edge_key(edge)),
{
    let ghost key = rect_edge_key(edge);
    let mut out: Vec<Rect> = Vec::new();
    let mut i: usize = 0;
    while i < v.len()
        invariant
            i <= v.len(),
            key == rect_edge_key(edge),
            out@ == sort_by_key(v@.take(i as int), key),
        decreases v.len() - i,
    {
        let x = v[i];
        let kx = rect_edge_value(&x, edge);
        let mut j: usize = out.len();
        while j > 0 && rect_edge_value(&out[j - 1], edge) > kx
            invariant
                j <= out.len(),
                kx == key(x),
                key == rect_edge_key(edge),
                forall|k: int| j <= k < out.len() ==> key(#[trigger] out@[k]) > key(x),
            decreases j,
        {
            j = j - 1;
        }
        proof {
            lemma_insert_position(out@, x, key, j as int);
            assert(v@.take(i as int + 1).drop_last() =~= v@.take(i as int));
        }
        out.insert(j, x);
        i = i + 1;
    }
    proof {
        assert(v@.take(v.len() as int) =~= v@);
    }
    out
}

/// Stable insertion sort of points by `x + y`.
pub fn sort_points_by_sum(v: Vec<Point>) -> (r: Vec<Point>)
    ensures
        r@ == sort_by_key(v@, point_sum_key()),
{
    let ghost key = point_sum_key();
    let mut out: Vec<Point> = Vec::new();
    let mut i: usize = 0;
    while i < v.len()
        invariant
            i <= v.len(),
            key == point_sum_key(),
            out@ == sort_by_key(v@.take(i as int), key),
        decreases v.len() - i,
    {
        let x = v[i];
        let kx: i64 = x.x as i64 + x.y as i64;
        let mut j: usize = out.len();
        while j > 0 && out[j - 1].x as i64 + out[j - 1].y as i64 > kx
            invariant
                j <= out.len(),
                kx == key(x),
                key == point_sum_key(),
                forall|k: int| j <= k < out.len() ==> key(#[trigger] out@[k]) > key(x),
            decreases j,
        {
            j = j - 1;
        }
        proof {
            lemma_insert_position(out@, x, key, j as int);
            assert(v@.take(i as int + 1).drop_last() =~= v@.take(i as int));
        }
        out.insert(j, x);
        i = i + 1;
    }
    proof {
        assert(v@.take(v.len() as int) =~= v@);
    }
    out
}

} // verus!
