//! Laws of the layout: where the boxes stand that a fabric is drawn with.

use vstd::prelude::*;

use crate::digraph::{keyed, DigraphView, SasGeometry};
use crate::drawing::{all_placements, drawn};
use crate::laws::apart;
use crate::layout::{
    box_of, box_x, box_y, column_placements, drawable, layout_of, lemma_box_fits, lemma_last_box,
    lemma_layout, placements, LayoutView, Placement,
};
use crate::walk::{fabric_end, WalkEnd};

verus! {

/// How many vertices stand in the columns before a column.
pub open spec fn before_column(l: LayoutView, k: nat) -> nat
    decreases k,
{
    if k <= 1 {
        0
    } else {
        before_column(l, (k - 1) as nat) + l.column((k - 1) as nat).len()
    }
}

/// The boxes of the columns, column by column.
proof fn lemma_placements_at(l: LayoutView, n: nat, k: nat, i: int)
    requires
        1 <= k <= n,
        0 <= i < l.column(k).len(),
    ensures
        placements(l, n).len() == before_column(l, n + 1),
        0 <= before_column(l, k) + i < placements(l, n).len(),
        placements(l, n)[before_column(l, k) + i] == column_placements(l, k)[i],
    decreases n,
{
    lemma_placements_len(l, (n - 1) as nat);
    let before = placements(l, (n - 1) as nat);
    let last = column_placements(l, n);
    if k == n {
        assert(placements(l, n)[before.len() + i] == last[i]);
    } else {
        lemma_placements_at(l, (n - 1) as nat, k, i);
        assert(placements(l, n)[before_column(l, k) + i] == before[before_column(l, k) + i]);
    }
}

proof fn lemma_placements_len(l: LayoutView, n: nat)
    ensures
        placements(l, n).len() == before_column(l, n + 1),
    decreases n,
{
    if n > 0 {
        lemma_placements_len(l, (n - 1) as nat);
    }
}

/// Every box stands at a place of a column.
pub proof fn lemma_place_of_box(l: LayoutView, n: nat, b: int) -> (place: (nat, int))
    requires
        0 <= b < placements(l, n).len(),
    ensures
        1 <= place.0 <= n,
        0 <= place.1 < l.column(place.0).len(),
        b == before_column(l, place.0) + place.1,
    decreases n,
{
    lemma_placements_len(l, (n - 1) as nat);
    let before = placements(l, (n - 1) as nat);
    if b < before.len() {
        lemma_place_of_box(l, (n - 1) as nat, b)
    } else {
        (n, b - before.len())
    }
}

/// The box of a place is given to the vertex there.
pub proof fn lemma_fmri_of_box(l: LayoutView, n: nat, k: nat, i: int)
    requires
        1 <= k <= n,
        0 <= i < l.column(k).len(),
    ensures
        placements(l, n)[before_column(l, k) + i].fmri == l.column(k)[i],
{
    lemma_placements_at(l, n, k, i);
}

/// There is one box for every place of every column, column by column and from the top. The
/// box of place `i` of column `k` is that of the vertex there; it is 180 wide and 70 high,
/// the columns lie 250 apart from 750 on, and the rows of a column lie apart a multiple of
/// 100: as often as the column goes into the tallest.
pub proof fn law_boxes_stand_on_a_grid(d: DigraphView, k: nat, i: int)
    requires
        keyed(d.vertices),
        fabric_end(d) == WalkEnd::Finished,
        layout_of(d).fits(),
        1 <= k <= layout_of(d).max_depth,
        0 <= i < layout_of(d).column(k).len(),
    ensures
        all_placements(d).len() == before_column(layout_of(d), layout_of(d).max_depth + 1),
        ({
            let l = layout_of(d);
            let b = before_column(l, k) + i;
            let p = all_placements(d)[b];
            &&& 0 <= b < all_placements(d).len()
            &&& p.fmri == l.column(k)[i]
            &&& p.geometry.x == 750 + 250 * (k - 1)
            &&& p.geometry.y == 10 + 100 * (i * (l.max_height / l.column(k).len()))
            &&& p.geometry.width == 180
            &&& p.geometry.height == 70
        }),
{
    let l = layout_of(d);
    lemma_placements_at(l, l.max_depth, k, i);
    lemma_box_fits(l, k, i as nat);
    assert(column_placements(l, k)[i] == (Placement {
        fmri: l.column(k)[i],
        geometry: box_of(k, i as nat, l.column(k).len(), l.max_height),
    }));
}

/// No two of the boxes that are drawn share a point.
pub proof fn law_drawn_boxes_are_apart(d: DigraphView, a: int, b: int)
    requires
        keyed(d.vertices),
        fabric_end(d) == WalkEnd::Finished,
        layout_of(d).fits(),
        0 <= a < all_placements(d).len(),
        0 <= b < all_placements(d).len(),
        a != b,
    ensures
        apart(all_placements(d)[a].geometry, all_placements(d)[b].geometry),
{
    let l = layout_of(d);
    let (k1, i1) = lemma_place_of_box(l, l.max_depth, a);
    let (k2, i2) = lemma_place_of_box(l, l.max_depth, b);
    lemma_layout(d);
    law_boxes_stand_on_a_grid(d, k1, i1);
    law_boxes_stand_on_a_grid(d, k2, i2);
    if k1 == k2 {
        let f = l.max_height / l.column(k1).len();
        lemma_box_fits(l, k1, i1 as nat);
        assert(l.column(k1).len() <= l.max_height);
        assert(f >= 1);
        if i1 < i2 {
            assert(i1 * f + 1 <= i2 * f) by (nonlinear_arith)
                requires
                    i1 + 1 <= i2,
                    f >= 1,
            ;
        } else {
            assert(i2 * f + 1 <= i1 * f) by (nonlinear_arith)
                requires
                    i2 + 1 <= i1,
                    f >= 1,
            ;
        }
    }
}

/// All boxes of a column begin at the same x, and each lower than the one before by the
/// same distance, which is at least 100.
pub proof fn law_rows_keep_their_distance(d: DigraphView, k: nat, i: int)
    requires
        keyed(d.vertices),
        fabric_end(d) == WalkEnd::Finished,
        layout_of(d).fits(),
        1 <= k <= layout_of(d).max_depth,
        0 <= i < layout_of(d).column(k).len() - 1,
    ensures
        ({
            let l = layout_of(d);
            let ps = all_placements(d);
            let first = before_column(l, k) as int;
            &&& ps[first].geometry.y == 10
            &&& ps[first + i + 1].geometry.x == ps[first + i].geometry.x
            &&& ps[first + i + 1].geometry.y - ps[first + i].geometry.y == 100 * (l.max_height
                / l.column(k).len())
            &&& ps[first + i + 1].geometry.y - ps[first + i].geometry.y >= 100
        }),
{
    let l = layout_of(d);
    let f = l.max_height / l.column(k).len();
    lemma_layout(d);
    assert(l.column(k).len() <= l.max_height);
    law_boxes_stand_on_a_grid(d, k, 0);
    law_boxes_stand_on_a_grid(d, k, i);
    law_boxes_stand_on_a_grid(d, k, i + 1);
    lemma_box_fits(l, k, i as nat);
    assert((i + 1) * f == i * f + f) by (nonlinear_arith);
    assert(0 * f == 0) by (nonlinear_arith);
}

/// The column that a vertex stands in last, and its last place there.
pub open spec fn last_place(l: LayoutView, k: nat, i: int) -> bool {
    &&& 1 <= k <= l.max_depth
    &&& 0 <= i < l.column(k).len()
    &&& forall|j: int| i < j < l.column(k).len() ==> #[trigger] l.column(k)[j] != l.column(k)[i]
    &&& forall|m: nat|
        k < m <= l.max_depth ==> !(#[trigger] l.column(m)).contains(l.column(k)[i])
}

/// Once a fabric is drawn, each vertex of a column has the box of the last place at which it
/// stands.
pub proof fn law_vertex_keeps_box_of_last_place(d: DigraphView, k: nat, i: int)
    requires
        keyed(d.vertices),
        fabric_end(d) == WalkEnd::Finished,
        layout_of(d).fits(),
        last_place(layout_of(d), k, i),
    ensures
        ({
            let l = layout_of(d);
            let g = drawn(d).vertices[l.column(k)[i]].geometry;
            &&& g.x == 750 + 250 * (k - 1)
            &&& g.y == 10 + 100 * (i * (l.max_height / l.column(k).len()))
            &&& g.width == 180
            &&& g.height == 70
        }),
{
    let l = layout_of(d);
    let ps = all_placements(d);
    let b = before_column(l, k) + i;
    law_boxes_stand_on_a_grid(d, k, i);
    assert forall|c: int| b + 1 <= c < ps.len() implies (#[trigger] ps[c]).fmri
        != ps[b].fmri by {
        let (m, j) = lemma_place_of_box(l, l.max_depth, c);
        law_boxes_stand_on_a_grid(d, m, j);
        lemma_before_column_grows(l, m, k);
        if m == k {
            assert(l.column(k)[j] != l.column(k)[i]);
        } else if m > k {
            assert(!l.column(m).contains(l.column(k)[i]));
            assert(l.column(m)[j] != l.column(k)[i]);
        }
    }
    lemma_last_box(d.vertices, ps, b);
}

proof fn lemma_before_column_grows(l: LayoutView, m: nat, k: nat)
    ensures
        1 <= m < k ==> before_column(l, m) + l.column(m).len() <= before_column(l, k),
    decreases k,
{
    if m < k && k > 0 {
        lemma_before_column_grows(l, m, (k - 1) as nat);
    }
}

/// A drawing fits where the width of the page, the height of the view box, and in every
/// column the second label of the lowest box can be counted.
pub proof fn law_drawing_fits_where_coordinates_do(l: LayoutView)
    ensures
        l.fits() <==> 375 * l.max_depth <= 0xffff_ffff && 250 * l.max_height <= usize::MAX && (
        forall|k: nat|
            1 <= k <= l.max_depth && (#[trigger] l.column(k)).len() > 0 ==> 10 + 100 * ((l.column(
                k,
            ).len() - 1) * (l.max_height / l.column(k).len())) + 50 <= 0xffff_ffff),
{
    assert forall|k: nat|
        1 <= k <= l.max_depth && (#[trigger] l.column(k)).len() > 0 implies box_y(
        (l.column(k).len() - 1) as nat,
        l.column(k).len(),
        l.max_height,
    ) == 10 + 100 * ((l.column(k).len() - 1) * (l.max_height / l.column(k).len())) by {}
}

/// A fabric can be drawn where the walk through it ends, and the drawing fits or a vertex is
/// missing.
pub proof fn law_drawable_where_walk_ends(d: DigraphView)
    ensures
        fabric_end(d) == WalkEnd::Unfinished ==> !drawable(d),
        fabric_end(d) == WalkEnd::Missing ==> drawable(d),
        fabric_end(d) == WalkEnd::Finished ==> (drawable(d) <==> layout_of(d).fits()),
{
}

/// Where a box is asked for by its place, its left edge goes by the column alone, and its
/// upper edge by the place among the rows.
pub proof fn law_place_gives_box(depth: nat, index: nat, len: nat, max_height: nat)
    requires
        1 <= depth,
        0 < len,
        750 + 250 * (depth - 1) <= u32::MAX,
        10 + 100 * (index * (max_height / len)) <= u32::MAX,
    ensures
        box_x(depth) == 750 + 250 * (depth - 1),
        box_y(index, len, max_height) == 10 + 100 * (index * (max_height / len)),
        box_of(depth, index, len, max_height) == (SasGeometry {
            x: (750 + 250 * (depth - 1)) as u32,
            y: (10 + 100 * (index * (max_height / len))) as u32,
            width: 180,
            height: 70,
        }),
{
}

} // verus!
