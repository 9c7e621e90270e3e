//! Where the vertices of a fabric are drawn.
//!
//! A vertex stands in the column of its depth on a path from an initiator, once for every
//! such path. The columns lie side by side, and each spreads its boxes over the height of
//! the tallest.

use std::collections::HashMap;

use vstd::prelude::*;

use crate::digraph::{keyed, texts, DigraphView, SasDigraph, SasGeometry, SimpleError, VertexView};
use crate::paths::{
    at_depth, follows_edges, lemma_at_depth_contains, lemma_deepest_is_reached, lemma_edges,
    lemma_filed_column, lemma_no_depth_left_out,
};
use crate::walk::{
    column, columns_view, deepest, edges_end, edges_visits, fabric_end, fabric_visits, filed,
    lemma_deepest_add, lemma_filed_add, lemma_stops, visit_vertex, walk_visits, Visit, WalkEnd,
};

verus! {

broadcast use vstd::std_specs::hash::group_hash_axioms;

/// The size of a box.
pub const VTX_WIDTH: u32 = 180;

pub const VTX_HEIGHT: u32 = 70;

/// The columns of a drawing, how many there are and how many vertices the tallest holds.
pub struct Layout {
    pub columns: HashMap<u32, Vec<String>>,
    pub max_depth: u32,
    pub max_height: usize,
}

/// What a layout is.
#[verifier::ext_equal]
pub struct LayoutView {
    pub columns: Map<u32, Seq<Seq<char>>>,
    pub max_depth: nat,
    pub max_height: nat,
}

impl View for Layout {
    type V = LayoutView;

    open spec fn view(&self) -> LayoutView {
        LayoutView {
            columns: columns_view(self.columns@),
            max_depth: self.max_depth as nat,
            max_height: self.max_height as nat,
        }
    }
}

/// How many vertices stand in the tallest of the first `n` columns.
pub open spec fn tallest(columns: Map<u32, Seq<Seq<char>>>, n: nat) -> nat
    decreases n,
{
    if n == 0 {
        0
    } else {
        let before = tallest(columns, (n - 1) as nat);
        if column(columns, n as u32).len() > before {
            column(columns, n as u32).len()
        } else {
            before
        }
    }
}

/// The layout of a fabric.
pub open spec fn layout_of(d: DigraphView) -> LayoutView {
    let columns = filed(Map::empty(), fabric_visits(d));
    let max_depth = deepest(fabric_visits(d));
    LayoutView { columns, max_depth, max_height: tallest(columns, max_depth) }
}

/// The left edge of the boxes of a column.
pub open spec fn box_x(depth: nat) -> int {
    (depth - 1) * 250 + 750
}

/// The upper edge of a box: the boxes of a column keep the same distance from each other.
pub open spec fn box_y(index: nat, len: nat, max_height: nat) -> nat {
    100 * (index * (max_height / len)) + 10
}

/// The box of the vertex at a place in a column.
pub open spec fn box_of(depth: nat, index: nat, len: nat, max_height: nat) -> SasGeometry {
    SasGeometry {
        x: box_x(depth) as u32,
        y: box_y(index, len, max_height) as u32,
        width: VTX_WIDTH,
        height: VTX_HEIGHT,
    }
}

impl LayoutView {
    /// The vertices of a column.
    pub open spec fn column(self, depth: nat) -> Seq<Seq<char>> {
        column(self.columns, depth as u32)
    }

    /// All coordinates and sizes of the drawing can be counted: those of the page, and in
    /// each column those of the lowest box with its labels.
    pub open spec fn fits(self) -> bool {
        &&& self.max_depth * 375 <= u32::MAX
        &&& self.max_height * 250 <= usize::MAX
        &&& forall|d: nat|
            1 <= d <= self.max_depth && (#[trigger] self.column(d)).len() > 0 ==> box_y(
                (self.column(d).len() - 1) as nat,
                self.column(d).len(),
                self.max_height,
            ) + 50 <= u32::MAX
    }
}

/// The fabric can be drawn: the walk through it ends, and where it comes by every vertex
/// that it is led to, the drawing fits.
pub open spec fn drawable(d: DigraphView) -> bool {
    &&& fabric_end(d) != WalkEnd::Unfinished
    &&& fabric_end(d) == WalkEnd::Finished ==> layout_of(d).fits()
}

/// A vertex and the box that it is given.
pub struct Placement {
    pub fmri: Seq<char>,
    pub geometry: SasGeometry,
}

/// The boxes of one column, from the top.
pub open spec fn column_placements(l: LayoutView, depth: nat) -> Seq<Placement> {
    Seq::new(
        l.column(depth).len(),
        |i: int|
            Placement {
                fmri: l.column(depth)[i],
                geometry: box_of(depth, i as nat, l.column(depth).len(), l.max_height),
            },
    )
}

/// The boxes of the first `n` columns, in the order in which they are drawn.
pub open spec fn placements(l: LayoutView, n: nat) -> Seq<Placement>
    decreases n,
{
    if n == 0 {
        Seq::empty()
    } else {
        placements(l, (n - 1) as nat) + column_placements(l, n)
    }
}

/// The vertices once each placement has given its vertex the box.
pub open spec fn placed(
    vertices: Map<Seq<char>, VertexView>,
    ps: Seq<Placement>,
) -> Map<Seq<char>, VertexView>
    decreases ps.len(),
{
    if ps.len() == 0 {
        vertices
    } else {
        let before = placed(vertices, ps.drop_last());
        before.insert(ps.last().fmri, before[ps.last().fmri].placed(ps.last().geometry))
    }
}

/// All vertices that are given boxes are there.
pub open spec fn all_known(vertices: Map<Seq<char>, VertexView>, ps: Seq<Placement>) -> bool {
    forall|i: int| 0 <= i < ps.len() ==> vertices.contains_key((#[trigger] ps[i]).fmri)
}

/// A vertex is not given a box at a place in the list or behind it.
pub open spec fn not_given_from(ps: Seq<Placement>, start: int, fmri: Seq<char>) -> bool {
    forall|i: int| start <= i < ps.len() ==> (#[trigger] ps[i]).fmri != fmri
}

/// Giving vertices boxes changes nothing else of them, and nothing of other vertices.
pub proof fn lemma_placed(vertices: Map<Seq<char>, VertexView>, ps: Seq<Placement>)
    requires
        all_known(vertices, ps),
    ensures
        placed(vertices, ps).dom() == vertices.dom(),
        forall|k: Seq<char>| #[trigger]
            vertices.contains_key(k) ==> placed(vertices, ps)[k] == vertices[k].placed(
                placed(vertices, ps)[k].geometry,
            ),
        forall|k: Seq<char>| #[trigger]
            vertices.contains_key(k) && not_given_from(ps, 0, k) ==> placed(vertices, ps)[k]
                == vertices[k],
    decreases ps.len(),
{
    if ps.len() > 0 {
        let front = ps.drop_last();
        assert(ps[ps.len() - 1] == ps.last());
        assert(all_known(vertices, front)) by {
            assert forall|i: int| 0 <= i < front.len() implies vertices.contains_key(
                (#[trigger] front[i]).fmri,
            ) by {
                assert(front[i] == ps[i]);
            }
        }
        lemma_placed(vertices, front);
        assert(placed(vertices, ps).dom() =~= vertices.dom());
        assert forall|k: Seq<char>| #[trigger]
            vertices.contains_key(k) && not_given_from(ps, 0, k) implies placed(vertices, ps)[k]
            == vertices[k] by {
            assert forall|i: int| 0 <= i < front.len() implies (#[trigger] front[i]).fmri
                != k by {
                assert(front[i] == ps[i]);
            }
        }
    }
}

/// A vertex that is given several boxes keeps the last.
pub proof fn lemma_last_box(vertices: Map<Seq<char>, VertexView>, ps: Seq<Placement>, i: int)
    requires
        0 <= i < ps.len(),
        not_given_from(ps, i + 1, ps[i].fmri),
    ensures
        placed(vertices, ps)[ps[i].fmri].geometry == ps[i].geometry,
    decreases ps.len(),
{
    if i < ps.len() - 1 {
        let front = ps.drop_last();
        assert(ps[ps.len() - 1].fmri != ps[i].fmri);
        assert forall|j: int| i + 1 <= j < front.len() implies (#[trigger] front[j]).fmri
            != front[i].fmri by {
            assert(front[j] == ps[j]);
        }
        lemma_last_box(vertices, front, i);
    }
}

/// Where every box of a list has a property, so has the box of each vertex in the list.
pub proof fn lemma_placed_all(
    vertices: Map<Seq<char>, VertexView>,
    ps: Seq<Placement>,
    p: spec_fn(SasGeometry) -> bool,
)
    requires
        forall|i: int| 0 <= i < ps.len() ==> p((#[trigger] ps[i]).geometry),
    ensures
        forall|i: int|
            0 <= i < ps.len() ==> p(placed(vertices, ps)[(#[trigger] ps[i]).fmri].geometry),
    decreases ps.len(),
{
    if ps.len() > 0 {
        let front = ps.drop_last();
        assert forall|i: int| 0 <= i < front.len() implies p((#[trigger] front[i]).geometry) by {
            assert(front[i] == ps[i]);
        }
        lemma_placed_all(vertices, front, p);
        assert(p(ps[ps.len() - 1].geometry));
        assert forall|i: int| 0 <= i < ps.len() implies p(
            placed(vertices, ps)[(#[trigger] ps[i]).fmri].geometry,
        ) by {
            if ps[i].fmri != ps.last().fmri {
                assert(front[i] == ps[i]);
            }
        }
    }
}

/// Walks through the fabric, and files its vertices in columns.
pub fn lay_out(digraph: &SasDigraph) -> (r: Result<Layout, SimpleError>)
    requires
        digraph.wf(),
        fabric_end(digraph@) != WalkEnd::Unfinished,
    ensures
        match r {
            Ok(l) => fabric_end(digraph@) == WalkEnd::Finished && l@ == layout_of(digraph@),
            Err(e) => fabric_end(digraph@) == WalkEnd::Missing && e@
                == "failed to lookup vertex"@,
        },
{
    let mut column_hash: HashMap<u32, Vec<String>> = HashMap::new();
    let mut max_depth: u32 = 0;
    let depth: u32 = 0;
    let ghost vs = digraph.vertices@;
    let ghost all = texts(digraph.initiators@);
    let ghost levels = u32::MAX as nat;
    let ghost nothing = Map::<u32, Seq<Seq<char>>>::empty();
    assert(columns_view(column_hash@) =~= nothing);
    assert(all.take(0) =~= Seq::empty());
    let mut i: usize = 0;
    while i < digraph.initiators.len()
        invariant
            i <= digraph.initiators@.len(),
            digraph.wf(),
            depth == 0,
            levels == u32::MAX,
            vs == digraph.vertices@,
            all == texts(digraph.initiators@),
            fabric_end(digraph@) == edges_end(vs, all, levels),
            fabric_end(digraph@) != WalkEnd::Unfinished,
            edges_end(vs, all.take(i as int), levels) == WalkEnd::Finished,
            columns_view(column_hash@) == filed(
                nothing,
                edges_visits(vs, all.take(i as int), 0, levels),
            ),
            max_depth == deepest(edges_visits(vs, all.take(i as int), 0, levels)),
        decreases digraph.initiators@.len() - i,
    {
        let ghost so_far = edges_visits(vs, all.take(i as int), 0, levels);
        let ghost next = all.take(i + 1);
        assert(next.drop_last() =~= all.take(i as int));
        assert(next.last() == digraph.initiators@[i as int]@);
        proof {
            if edges_end(vs, next, levels) != WalkEnd::Finished {
                lemma_stops(vs, all, i + 1, 0, levels);
            }
        }
        match digraph.vertices.get(digraph.initiators[i].as_str()) {
            Some(vtx) => {
                proof {
                    let deeper = walk_visits(vs, vtx@, 0, levels);
                    lemma_filed_add(nothing, so_far, deeper);
                    lemma_deepest_add(so_far, deeper);
                }
                match visit_vertex(&digraph.vertices, vtx, &mut column_hash, depth) {
                    Ok(rc) => {
                        if rc > max_depth {
                            max_depth = rc;
                        }
                    },
                    Err(e) => {
                        return Err(e);
                    },
                }
            },
            None => {
                return Err(SimpleError("failed to lookup vertex".to_string()));
            },
        }
        i = i + 1;
    }
    assert(all.take(i as int) =~= all);
    let max_height: usize = tallest_column(&column_hash, max_depth);
    let r = Layout { columns: column_hash, max_depth, max_height };
    assert(r@ =~= layout_of(digraph@));
    Ok(r)
}

/// How many vertices stand in the tallest of the first columns.
fn tallest_column(columns: &HashMap<u32, Vec<String>>, max_depth: u32) -> (r: usize)
    ensures
        r == tallest(columns_view(columns@), max_depth as nat),
{
    let mut max_height: usize = 0;
    let mut i: u32 = 0;
    while i < max_depth
        invariant
            i <= max_depth,
            max_height == tallest(columns_view(columns@), i as nat),
        decreases max_depth - i,
    {
        i = i + 1;
        let height: usize = match columns.get(&i) {
            Some(entry) => entry.len(),
            None => 0,
        };
        assert(height == column(columns_view(columns@), i).len());
        if height > max_height {
            max_height = height;
        }
    }
    max_height
}

/// No column is taller than the tallest.
pub proof fn lemma_tallest(columns: Map<u32, Seq<Seq<char>>>, n: nat, d: nat)
    requires
        1 <= d <= n,
    ensures
        column(columns, d as u32).len() <= tallest(columns, n),
    decreases n,
{
    if d < n {
        lemma_tallest(columns, (n - 1) as nat, d);
    }
}

/// Each column up to the last holds the vertices that are visited at its depth, and at least
/// one.
pub open spec fn holds_visits(l: LayoutView, visits: Seq<Visit>) -> bool {
    forall|k: nat|
        1 <= k <= l.max_depth ==> 0 < (#[trigger] l.column(k)).len() <= l.max_height && l.column(k)
            == at_depth(visits, k)
}

/// Of a fabric whose walk finishes: each column up to the last holds vertices, all vertices
/// in the columns are known, and so are those to which their edges lead.
pub proof fn lemma_layout(d: DigraphView)
    requires
        keyed(d.vertices),
        fabric_end(d) == WalkEnd::Finished,
    ensures
        layout_of(d).max_depth <= u32::MAX,
        holds_visits(layout_of(d), fabric_visits(d)),
        follows_edges(d.vertices, fabric_visits(d)),
{
    let visits = fabric_visits(d);
    let l = layout_of(d);
    let nothing = Map::<u32, Seq<Seq<char>>>::empty();
    lemma_edges(d.vertices, d.initiators, 0, u32::MAX as nat);
    lemma_deepest_is_reached(visits);
    if l.max_depth > 0 {
        let fmri = at_depth(visits, l.max_depth)[0];
        lemma_at_depth_contains(visits, l.max_depth, fmri);
        assert(visits.contains(Visit { depth: l.max_depth, fmri }));
    }
    assert forall|k: nat| 1 <= k <= l.max_depth implies 0 < (#[trigger] l.column(k)).len()
        <= l.max_height && l.column(k) == at_depth(visits, k) by {
        lemma_no_depth_left_out(visits, k);
        lemma_filed_column(nothing, visits, k as u32);
        lemma_tallest(l.columns, l.max_depth, k);
        assert(l.column(k) =~= at_depth(visits, k));
    }
}

/// In a drawing that fits, each box fits with its labels and the lines that leave it.
pub proof fn lemma_box_fits(l: LayoutView, depth: nat, index: nat)
    requires
        l.fits(),
        1 <= depth <= l.max_depth,
        index < l.column(depth).len(),
    ensures
        750 <= box_x(depth) <= u32::MAX - 230,
        10 <= box_y(index, l.column(depth).len(), l.max_height) <= u32::MAX - 50,
        l.column(depth).len() <= l.max_height ==> index < u32::MAX && l.max_height / l.column(
            depth,
        ).len() >= 1,
{
    let len = l.column(depth).len();
    let f = l.max_height / len;
    assert(index * f <= (len - 1) * f) by (nonlinear_arith)
        requires
            index <= len - 1,
            0 <= f,
    ;
    assert(0 <= index * f) by (nonlinear_arith)
        requires
            0 <= f,
            0 <= index,
    ;
    assert(f >= 1 ==> index <= index * f) by (nonlinear_arith)
        requires
            0 <= index,
    ;
    assert(len <= l.max_height ==> f >= 1) by (nonlinear_arith)
        requires
            0 < len,
            f == l.max_height / len,
    ;
}

impl Layout {
    /// The vertices of a column.
    pub fn column(&self, depth: u32) -> (r: Option<&Vec<String>>)
        ensures
            match r {
                Some(v) => self@.columns.contains_key(depth) && texts(v@) == self@.column(
                    depth as nat,
                ),
                None => !self@.columns.contains_key(depth),
            },
    {
        self.columns.get(&depth)
    }

    /// Whether all coordinates and sizes of the drawing can be counted.
    pub fn fits(&self) -> (r: bool)
        ensures
            r == self@.fits(),
    {
        if self.max_depth > u32::MAX / 375 || self.max_height > usize::MAX / 250 {
            return false;
        }
        let mut d: u32 = 0;
        while d < self.max_depth
            invariant
                d <= self.max_depth,
                self.max_depth * 375 <= u32::MAX,
                self.max_height * 250 <= usize::MAX,
                forall|k: nat|
                    1 <= k <= d && (#[trigger] self@.column(k)).len() > 0 ==> box_y(
                        (self@.column(k).len() - 1) as nat,
                        self@.column(k).len(),
                        self@.max_height,
                    ) + 50 <= u32::MAX,
            decreases self.max_depth - d,
        {
            d = d + 1;
            let len: usize = match self.column(d) {
                Some(v) => v.len(),
                None => 0,
            };
            assert(len == self@.column(d as nat).len());
            if len > 0 {
                let step: usize = self.max_height / len;
                assert((len - 1) * step <= self.max_height) by (nonlinear_arith)
                    requires
                        len > 0,
                        step == self.max_height / len,
                ;
                assert(0 <= (len - 1) * step) by (nonlinear_arith)
                    requires
                        len > 0,
                        step >= 0,
                ;
                let bottom: usize = 100 * ((len - 1) * step);
                if bottom > (u32::MAX - 60) as usize {
                    return false;
                }
            }
        }
        true
    }
}

/// The box of the vertex at a place in a column.
pub fn place_of(depth: u32, index: usize, len: usize, max_height: usize) -> (r: SasGeometry)
    requires
        1 <= depth,
        index < len,
        box_x(depth as nat) <= u32::MAX,
        box_y(index as nat, len as nat, max_height as nat) <= u32::MAX,
        index > 0 ==> len <= max_height,
    ensures
        r == box_of(depth as nat, index as nat, len as nat, max_height as nat),
{
    proof {
        let f = max_height as nat / len as nat;
        let i = index as nat;
        if index > 0 {
            assert(f >= 1) by (nonlinear_arith)
                requires
                    f == max_height as nat / len as nat,
                    max_height >= len,
                    len > 0,
            ;
            assert(i <= i * f && f <= i * f) by (nonlinear_arith)
                requires
                    f >= 1,
                    i >= 1,
            ;
            assert((i * 100) * f == 100 * (i * f)) by (nonlinear_arith);
        } else {
            assert(i * f == 0) by (nonlinear_arith)
                requires
                    i == 0,
            ;
        }
    }
    let height: u32 = (index + 1) as u32;
    let x_margin: u32 = 750;
    let y_margin: u32 = 10;
    let x: u32 = (depth - 1) * 250 + x_margin;
    let y_factor: u32 = match height {
        1 => 1,
        _ => (max_height / len) as u32,
    };
    let y: u32 = (height - 1) * 100 * y_factor + y_margin;
    SasGeometry::new(x, y, VTX_WIDTH, VTX_HEIGHT)
}

impl SasDigraph {
    /// Whether the fabric can be drawn.
    pub fn can_draw(&self) -> (r: bool)
        requires
            self.wf(),
        ensures
            r == drawable(self@),
    {
        match self.walk_outcome() {
            WalkEnd::Unfinished => false,
            WalkEnd::Missing => true,
            WalkEnd::Finished => match lay_out(self) {
                Ok(l) => l.fits(),
                Err(_) => true,
            },
        }
    }
}

} // verus!
