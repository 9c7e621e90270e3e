//! Laws of the walk: what follows from a fabric's edges alone.

use vstd::prelude::*;

use crate::digraph::{keyed, DigraphView, VertexView};
use crate::layout::{layout_of, lemma_layout, lemma_tallest, tallest};
use crate::paths::{
    at_depth, lemma_at_depth_add, lemma_at_depth_contains, lemma_deepest_is_reached, lemma_edges,
    lemma_filed_column, lemma_walk,
};
use crate::walk::{
    column, deepest, edges_end, edges_visits, fabric_end, fabric_visits, filed, walk_end,
    walk_visits, Visit, WalkEnd,
};

verus! {

/// Where the edges of a vertex lead: nowhere where it has no list of edges.
pub open spec fn ends(vtx: VertexView) -> Seq<Seq<char>> {
    if vtx.outgoing_edges is Some {
        vtx.outgoing_edges->0
    } else {
        Seq::empty()
    }
}

/// Where the edges of a vertex lead, by its FMRI.
pub open spec fn ends_in(vertices: Map<Seq<char>, VertexView>) -> spec_fn(Seq<char>) -> Seq<
    Seq<char>,
> {
    |fmri: Seq<char>| ends(vertices[fmri])
}

/// Where the edges of a row of vertices lead, one vertex after the other.
pub open spec fn row_ends(
    vertices: Map<Seq<char>, VertexView>,
    fmris: Seq<Seq<char>>,
) -> Seq<Seq<char>> {
    fmris.map_values(ends_in(vertices)).flatten()
}

proof fn lemma_row_ends_add(
    vertices: Map<Seq<char>, VertexView>,
    a: Seq<Seq<char>>,
    b: Seq<Seq<char>>,
)
    ensures
        row_ends(vertices, a + b) == row_ends(vertices, a) + row_ends(vertices, b),
{
    let f = ends_in(vertices);
    assert((a + b).map_values(f) =~= a.map_values(f) + b.map_values(f));
    vstd::seq_lib::lemma_flatten_concat(a.map_values(f), b.map_values(f));
}

proof fn lemma_row_ends_one(vertices: Map<Seq<char>, VertexView>, fmri: Seq<char>)
    ensures
        row_ends(vertices, seq![fmri]) == ends(vertices[fmri]),
{
    let f = ends_in(vertices);
    assert(seq![fmri].map_values(f) =~= seq![ends(vertices[fmri])]);
    seq![ends(vertices[fmri])].lemma_flatten_one_element();
}

/// What a walk comes by at one depth is where the edges of the depth above lead.
proof fn lemma_walk_rows(
    vertices: Map<Seq<char>, VertexView>,
    vtx: VertexView,
    depth: nat,
    levels: nat,
    k: nat,
)
    requires
        keyed(vertices),
        vertices.contains_key(vtx.fmri),
        vertices[vtx.fmri] == vtx,
        walk_end(vertices, vtx, levels) == WalkEnd::Finished,
        k > depth,
    ensures
        at_depth(walk_visits(vertices, vtx, depth, levels), k + 1) == row_ends(
            vertices,
            at_depth(walk_visits(vertices, vtx, depth, levels), k),
        ),
    decreases levels, 0nat,
{
    let visits = walk_visits(vertices, vtx, depth, levels);
    let first = seq![Visit { depth: depth + 1, fmri: vtx.fmri }];
    let below = (levels - 1) as nat;
    let rest = edges_visits(vertices, vtx.edges(), depth + 1, below);
    assert(visits == first + rest);
    assert(vtx.edges() =~= ends(vtx));
    lemma_edges(vertices, vtx.edges(), depth + 1, below);
    lemma_walk(vertices, vtx, depth, levels);
    lemma_at_depth_add(first, rest, k);
    lemma_at_depth_add(first, rest, k + 1);
    reveal_with_fuel(at_depth, 2);
    assert(first.drop_last() =~= Seq::empty());
    assert(at_depth(first, k + 1) =~= Seq::empty());
    if k == depth + 1 {
        assert(at_depth(visits, k) == seq![vtx.fmri]);
        lemma_row_ends_one(vertices, vtx.fmri);
        assert(at_depth(visits, k + 1) =~= vtx.edges());
    } else {
        lemma_edges_rows(vertices, vtx.edges(), depth + 1, below, k);
        assert(at_depth(first, k) =~= Seq::empty());
        assert(at_depth(visits, k) =~= at_depth(rest, k));
        assert(at_depth(visits, k + 1) =~= at_depth(rest, k + 1));
    }
}

/// What walks along edges come by at one depth is where the edges of the depth above lead.
proof fn lemma_edges_rows(
    vertices: Map<Seq<char>, VertexView>,
    edges: Seq<Seq<char>>,
    depth: nat,
    levels: nat,
    k: nat,
)
    requires
        keyed(vertices),
        edges_end(vertices, edges, levels) == WalkEnd::Finished,
        k > depth,
    ensures
        at_depth(edges_visits(vertices, edges, depth, levels), k + 1) == row_ends(
            vertices,
            at_depth(edges_visits(vertices, edges, depth, levels), k),
        ),
    decreases levels, edges.len(),
{
    let visits = edges_visits(vertices, edges, depth, levels);
    if edges.len() == 0 {
        assert(at_depth(visits, k).map_values(ends_in(vertices)) =~= Seq::empty());
    } else {
        let before = edges_visits(vertices, edges.drop_last(), depth, levels);
        let vtx = vertices[edges.last()];
        let last = walk_visits(vertices, vtx, depth, levels);
        assert(visits == before + last);
        lemma_edges_rows(vertices, edges.drop_last(), depth, levels, k);
        lemma_walk_rows(vertices, vtx, depth, levels, k);
        lemma_at_depth_add(before, last, k);
        lemma_at_depth_add(before, last, k + 1);
        lemma_row_ends_add(vertices, at_depth(before, k), at_depth(last, k));
    }
}

/// Each column holds the ends of the edges of the column before it: those of its first
/// vertex, then those of its second, and so on, as often as they are led to. The edges of
/// the last column lead nowhere.
pub proof fn law_columns_follow_one_another(d: DigraphView, k: nat)
    requires
        keyed(d.vertices),
        fabric_end(d) == WalkEnd::Finished,
        1 <= k <= layout_of(d).max_depth,
    ensures
        k < layout_of(d).max_depth ==> layout_of(d).column(k + 1) == row_ends(
            d.vertices,
            layout_of(d).column(k),
        ),
        k == layout_of(d).max_depth ==> row_ends(d.vertices, layout_of(d).column(k)).len() == 0,
{
    let visits = fabric_visits(d);
    lemma_layout(d);
    lemma_edges_rows(d.vertices, d.initiators, 0, u32::MAX as nat, k);
    assert(layout_of(d).column(k) == at_depth(visits, k));
    if k < layout_of(d).max_depth {
        assert(layout_of(d).column(k + 1) == at_depth(visits, k + 1));
    } else {
        lemma_deepest_is_reached(visits);
        if at_depth(visits, k + 1).len() > 0 {
            let fmri = at_depth(visits, k + 1)[0];
            lemma_at_depth_contains(visits, k + 1, fmri);
            assert(visits.contains(Visit { depth: k + 1, fmri }));
        }
    }
}

/// There are columns where there are initiators.
pub proof fn law_no_columns_without_initiators(d: DigraphView)
    requires
        keyed(d.vertices),
        fabric_end(d) == WalkEnd::Finished,
    ensures
        layout_of(d).max_depth == 0 <==> d.initiators.len() == 0,
        d.initiators.len() > 0 ==> layout_of(d).column(1) == d.initiators,
{
    let visits = fabric_visits(d);
    lemma_edges(d.vertices, d.initiators, 0, u32::MAX as nat);
    lemma_deepest_is_reached(visits);
    lemma_layout(d);
    if d.initiators.len() > 0 {
        lemma_at_depth_contains(visits, 1, d.initiators[0]);
        assert(at_depth(visits, 1)[0] == d.initiators[0]);
        assert(visits.contains(Visit { depth: 1, fmri: d.initiators[0] }));
        assert(layout_of(d).column(1) == at_depth(visits, 1));
    }
}

/// There is a column for each depth from the first to the last, and no other.
pub proof fn law_columns_are_numbered_from_one(d: DigraphView, k: u32)
    requires
        keyed(d.vertices),
        fabric_end(d) == WalkEnd::Finished,
    ensures
        layout_of(d).columns.contains_key(k) <==> 1 <= k <= layout_of(d).max_depth,
        1 <= k <= layout_of(d).max_depth ==> layout_of(d).columns[k] == layout_of(d).column(
            k as nat,
        ),
{
    let visits = fabric_visits(d);
    let nothing = Map::<u32, Seq<Seq<char>>>::empty();
    lemma_edges(d.vertices, d.initiators, 0, u32::MAX as nat);
    lemma_deepest_is_reached(visits);
    lemma_layout(d);
    assert forall|v: Visit| #[trigger] visits.contains(v) implies v.depth <= u32::MAX by {}
    lemma_filed_column(nothing, visits, k);
    if 1 <= k <= layout_of(d).max_depth {
        assert(layout_of(d).column(k as nat) == at_depth(visits, k as nat));
        assert(layout_of(d).column(k as nat).len() > 0);
    } else if at_depth(visits, k as nat).len() > 0 {
        let fmri = at_depth(visits, k as nat)[0];
        lemma_at_depth_contains(visits, k as nat, fmri);
        assert(visits.contains(Visit { depth: k as nat, fmri }));
    }
}

/// The height of the layout is that of a column, and no column is taller.
pub proof fn law_tallest_column_gives_height(d: DigraphView)
    requires
        keyed(d.vertices),
        fabric_end(d) == WalkEnd::Finished,
    ensures
        layout_of(d).max_depth == 0 ==> layout_of(d).max_height == 0,
        layout_of(d).max_depth > 0 ==> exists|k: nat|
            1 <= k <= layout_of(d).max_depth && (#[trigger] layout_of(d).column(k)).len()
                == layout_of(d).max_height,
        forall|k: nat|
            1 <= k <= layout_of(d).max_depth ==> (#[trigger] layout_of(d).column(k)).len()
                <= layout_of(d).max_height,
{
    let l = layout_of(d);
    lemma_layout(d);
    if l.max_depth > 0 {
        assert(l.column(1).len() > 0);
        lemma_tallest(l.columns, l.max_depth, 1);
        let k = lemma_tallest_is_column(l.columns, l.max_depth);
        assert(l.column(k).len() == l.max_height);
    }
}

proof fn lemma_tallest_is_column(columns: Map<u32, Seq<Seq<char>>>, n: nat) -> (k: nat)
    requires
        tallest(columns, n) > 0,
    ensures
        1 <= k <= n,
        column(columns, k as u32).len() == tallest(columns, n),
    decreases n,
{
    if column(columns, n as u32).len() > tallest(columns, (n - 1) as nat) {
        n
    } else {
        lemma_tallest_is_column(columns, (n - 1) as nat)
    }
}

/// Walks are done in order: along the edges behind only where all those before have
/// finished.
pub proof fn law_walks_go_in_order(
    vertices: Map<Seq<char>, VertexView>,
    a: Seq<Seq<char>>,
    b: Seq<Seq<char>>,
    depth: nat,
    levels: nat,
)
    ensures
        edges_end(vertices, a, levels) != WalkEnd::Finished ==> edges_end(vertices, a + b, levels)
            == edges_end(vertices, a, levels) && edges_visits(vertices, a + b, depth, levels)
            == edges_visits(vertices, a, depth, levels),
        edges_end(vertices, a, levels) == WalkEnd::Finished ==> edges_end(vertices, a + b, levels)
            == edges_end(vertices, b, levels) && edges_visits(vertices, a + b, depth, levels)
            == edges_visits(vertices, a, depth, levels) + edges_visits(vertices, b, depth, levels),
    decreases b.len(),
{
    if b.len() == 0 {
        assert(a + b =~= a);
        assert(edges_visits(vertices, a, depth, levels) + edges_visits(vertices, b, depth, levels)
            =~= edges_visits(vertices, a, depth, levels));
    } else {
        assert((a + b).drop_last() =~= a + b.drop_last());
        assert((a + b).last() == b.last());
        law_walks_go_in_order(vertices, a, b.drop_last(), depth, levels);
        if edges_end(vertices, a, levels) == WalkEnd::Finished {
            assert(edges_visits(vertices, a + b, depth, levels) =~= edges_visits(
                vertices,
                a,
                depth,
                levels,
            ) + edges_visits(vertices, b, depth, levels));
        }
    }
}

/// A walk along one edge comes by its end, one level deeper, and goes on along the edges of
/// that. It fails where the end is not there, and gives up where no level is left.
pub proof fn law_walk_along_one_edge(
    vertices: Map<Seq<char>, VertexView>,
    fmri: Seq<char>,
    depth: nat,
    levels: nat,
)
    ensures
        edges_end(vertices, Seq::empty(), levels) == WalkEnd::Finished,
        edges_visits(vertices, Seq::empty(), depth, levels).len() == 0,
        !vertices.contains_key(fmri) ==> edges_end(vertices, seq![fmri], levels)
            == WalkEnd::Missing && edges_visits(vertices, seq![fmri], depth, levels).len() == 0,
        vertices.contains_key(fmri) && levels == 0 ==> edges_end(vertices, seq![fmri], levels)
            == WalkEnd::Unfinished && edges_visits(vertices, seq![fmri], depth, levels).len() == 0,
        vertices.contains_key(fmri) && levels > 0 ==> edges_end(vertices, seq![fmri], levels)
            == edges_end(vertices, ends(vertices[fmri]), (levels - 1) as nat) && edges_visits(
            vertices,
            seq![fmri],
            depth,
            levels,
        ) == seq![Visit { depth: depth + 1, fmri: vertices[fmri].fmri }] + edges_visits(
            vertices,
            ends(vertices[fmri]),
            depth + 1,
            (levels - 1) as nat,
        ),
{
    let one = seq![fmri];
    let vtx = vertices[fmri];
    assert(one.drop_last() =~= Seq::empty());
    assert(one.last() == fmri);
    assert(vtx.edges() =~= ends(vtx));
    assert(edges_end(vertices, one.drop_last(), levels) == WalkEnd::Finished);
    assert(edges_visits(vertices, one.drop_last(), depth, levels) =~= Seq::empty());
    if vertices.contains_key(fmri) {
        assert(edges_end(vertices, one, levels) == walk_end(vertices, vtx, levels));
        assert(edges_visits(vertices, one, depth, levels) =~= walk_visits(
            vertices,
            vtx,
            depth,
            levels,
        ));
    }
}

/// The walk from a vertex comes by the vertex, one level deeper, and then goes along its
/// edges.
pub proof fn law_walk_starts_at_its_vertex(
    vertices: Map<Seq<char>, VertexView>,
    vtx: VertexView,
    depth: nat,
    levels: nat,
)
    ensures
        levels == 0 ==> walk_end(vertices, vtx, levels) == WalkEnd::Unfinished && walk_visits(
            vertices,
            vtx,
            depth,
            levels,
        ).len() == 0,
        levels > 0 ==> walk_end(vertices, vtx, levels) == edges_end(
            vertices,
            ends(vtx),
            (levels - 1) as nat,
        ) && walk_visits(vertices, vtx, depth, levels) == seq![
            Visit { depth: depth + 1, fmri: vtx.fmri },
        ] + edges_visits(vertices, ends(vtx), depth + 1, (levels - 1) as nat),
{
    assert(vtx.edges() =~= ends(vtx));
}

/// The visits at one depth.
pub open spec fn lies_at(depth: nat) -> spec_fn(Visit) -> bool {
    |v: Visit| v.depth == depth
}

/// Filing visits puts their FMRIs, in order, behind what their columns hold, and changes no
/// other column.
pub proof fn law_filing_appends(
    columns: Map<u32, Seq<Seq<char>>>,
    visits: Seq<Visit>,
    depth: u32,
)
    requires
        forall|i: int| 0 <= i < visits.len() ==> (#[trigger] visits[i]).depth <= u32::MAX,
    ensures
        column(filed(columns, visits), depth) == column(columns, depth) + visits.filter(
            lies_at(depth as nat),
        ).map_values(|v: Visit| v.fmri),
        filed(columns, visits).contains_key(depth) <==> columns.contains_key(depth)
            || visits.filter(lies_at(depth as nat)).len() > 0,
{
    assert forall|v: Visit| #[trigger] visits.contains(v) implies v.depth <= u32::MAX by {
        let i = choose|i: int| 0 <= i < visits.len() && visits[i] == v;
        assert(visits[i].depth <= u32::MAX);
    }
    lemma_filed_column(columns, visits, depth);
    lemma_at_depth_filter(visits, depth as nat);
}

proof fn lemma_at_depth_filter(visits: Seq<Visit>, depth: nat)
    ensures
        at_depth(visits, depth) == visits.filter(lies_at(depth)).map_values(|v: Visit| v.fmri),
    decreases visits.len(),
{
    reveal(Seq::filter);
    if visits.len() > 0 {
        lemma_at_depth_filter(visits.drop_last(), depth);
    }
    assert(at_depth(visits, depth) =~= visits.filter(lies_at(depth)).map_values(
        |v: Visit| v.fmri,
    ));
}

/// The depth of visits is that of one of them, and none lies deeper.
pub proof fn law_deepest_is_greatest(visits: Seq<Visit>)
    ensures
        visits.len() == 0 ==> deepest(visits) == 0,
        visits.len() > 0 ==> exists|i: int|
            0 <= i < visits.len() && (#[trigger] visits[i]).depth == deepest(visits),
        forall|i: int| 0 <= i < visits.len() ==> (#[trigger] visits[i]).depth <= deepest(visits),
    decreases visits.len(),
{
    if visits.len() > 0 {
        let front = visits.drop_last();
        law_deepest_is_greatest(front);
        assert(visits[visits.len() - 1] == visits.last());
        assert forall|i: int| 0 <= i < visits.len() implies (#[trigger] visits[i]).depth
            <= deepest(visits) by {
            if i < front.len() {
                assert(front[i] == visits[i]);
            }
        }
        if visits.last().depth > deepest(front) {
            assert(visits[visits.len() - 1].depth == deepest(visits));
        } else if front.len() > 0 {
            let i = choose|i: int|
                0 <= i < front.len() && (#[trigger] front[i]).depth == deepest(front);
            assert(visits[i].depth == deepest(visits));
        } else {
            assert(visits[0].depth == deepest(visits));
        }
    }
}

/// A path that starts along one of the edges.
pub open spec fn path_along(
    vertices: Map<Seq<char>, VertexView>,
    edges: Seq<Seq<char>>,
    path: Seq<Seq<char>>,
) -> bool {
    &&& path.len() > 0
    &&& edges.contains(path[0])
    &&& forall|i: int|
        0 <= i < path.len() - 1 ==> ends(vertices[#[trigger] path[i]]).contains(path[i + 1])
}

/// The vertices of a path, from its start up to a place.
pub open spec fn known_up_to(
    vertices: Map<Seq<char>, VertexView>,
    path: Seq<Seq<char>>,
    n: int,
) -> bool {
    forall|i: int| 0 <= i < n ==> vertices.contains_key(#[trigger] path[i])
}

/// Where walks finish, all paths along the edges come by known vertices only, and none is
/// longer than the levels.
pub proof fn law_finished_walks_have_short_paths(
    vertices: Map<Seq<char>, VertexView>,
    edges: Seq<Seq<char>>,
    levels: nat,
    path: Seq<Seq<char>>,
)
    requires
        edges_end(vertices, edges, levels) == WalkEnd::Finished,
        path_along(vertices, edges, path),
    ensures
        path.len() <= levels,
        known_up_to(vertices, path, path.len() as int),
    decreases levels, path.len(),
{
    lemma_each_edge_finishes(vertices, edges, levels, path[0]);
    let vtx = vertices[path[0]];
    assert(vtx.edges() =~= ends(vtx));
    if path.len() > 1 {
        let rest = path.drop_first();
        assert(ends(vertices[path[0]]).contains(path[1]));
        assert forall|i: int| 0 <= i < rest.len() - 1 implies ends(
            vertices[#[trigger] rest[i]],
        ).contains(rest[i + 1]) by {
            assert(rest[i] == path[i + 1]);
            assert(rest[i + 1] == path[i + 2]);
        }
        law_finished_walks_have_short_paths(vertices, vtx.edges(), (levels - 1) as nat, rest);
        assert forall|i: int| 0 <= i < path.len() implies vertices.contains_key(
            #[trigger] path[i],
        ) by {
            if i > 0 {
                assert(rest[i - 1] == path[i]);
            }
        }
    }
}

proof fn lemma_each_edge_finishes(
    vertices: Map<Seq<char>, VertexView>,
    edges: Seq<Seq<char>>,
    levels: nat,
    fmri: Seq<char>,
)
    requires
        edges_end(vertices, edges, levels) == WalkEnd::Finished,
        edges.contains(fmri),
    ensures
        vertices.contains_key(fmri),
        levels > 0,
        edges_end(vertices, vertices[fmri].edges(), (levels - 1) as nat) == WalkEnd::Finished,
    decreases edges.len(),
{
    let front = edges.drop_last();
    assert(edges_end(vertices, front, levels) == WalkEnd::Finished);
    assert(walk_end(vertices, vertices[edges.last()], levels) == WalkEnd::Finished);
    if fmri != edges.last() {
        let i = choose|i: int| 0 <= i < edges.len() && edges[i] == fmri;
        assert(front[i] == fmri);
        lemma_each_edge_finishes(vertices, front, levels, fmri);
    }
}

/// Where walks fail, a path along the edges leads to a vertex that is not there.
pub proof fn law_failed_walks_have_a_missing_end(
    vertices: Map<Seq<char>, VertexView>,
    edges: Seq<Seq<char>>,
    levels: nat,
) -> (path: Seq<Seq<char>>)
    requires
        edges_end(vertices, edges, levels) == WalkEnd::Missing,
    ensures
        path_along(vertices, edges, path),
        path.len() <= levels + 1,
        known_up_to(vertices, path, path.len() - 1),
        !vertices.contains_key(path.last()),
    decreases levels, edges.len(),
{
    let front = edges.drop_last();
    if edges_end(vertices, front, levels) != WalkEnd::Finished {
        let path = law_failed_walks_have_a_missing_end(vertices, front, levels);
        let i = choose|i: int| 0 <= i < front.len() && front[i] == path[0];
        assert(edges[i] == path[0]);
        path
    } else if !vertices.contains_key(edges.last()) {
        let path = seq![edges.last()];
        assert(edges[edges.len() - 1] == path[0]);
        path
    } else {
        let vtx = vertices[edges.last()];
        assert(walk_end(vertices, vtx, levels) == WalkEnd::Missing);
        assert(vtx.edges() =~= ends(vtx));
        let rest = law_failed_walks_have_a_missing_end(
            vertices,
            vtx.edges(),
            (levels - 1) as nat,
        );
        lemma_longer_path(vertices, edges, rest)
    }
}

/// Where walks do not end within the levels, a path along the edges is longer than these.
pub proof fn law_unfinished_walks_have_a_long_path(
    vertices: Map<Seq<char>, VertexView>,
    edges: Seq<Seq<char>>,
    levels: nat,
) -> (path: Seq<Seq<char>>)
    requires
        edges_end(vertices, edges, levels) == WalkEnd::Unfinished,
    ensures
        path_along(vertices, edges, path),
        path.len() == levels + 1,
        known_up_to(vertices, path, path.len() as int),
    decreases levels, edges.len(),
{
    let front = edges.drop_last();
    if edges_end(vertices, front, levels) != WalkEnd::Finished {
        let path = law_unfinished_walks_have_a_long_path(vertices, front, levels);
        let i = choose|i: int| 0 <= i < front.len() && front[i] == path[0];
        assert(edges[i] == path[0]);
        path
    } else if levels == 0 {
        let path = seq![edges.last()];
        assert(edges[edges.len() - 1] == path[0]);
        path
    } else {
        let vtx = vertices[edges.last()];
        assert(walk_end(vertices, vtx, levels) == WalkEnd::Unfinished);
        assert(vtx.edges() =~= ends(vtx));
        let rest = law_unfinished_walks_have_a_long_path(
            vertices,
            vtx.edges(),
            (levels - 1) as nat,
        );
        lemma_longer_path(vertices, edges, rest)
    }
}

proof fn lemma_longer_path(
    vertices: Map<Seq<char>, VertexView>,
    edges: Seq<Seq<char>>,
    rest: Seq<Seq<char>>,
) -> (path: Seq<Seq<char>>)
    requires
        edges.len() > 0,
        vertices.contains_key(edges.last()),
        path_along(vertices, ends(vertices[edges.last()]), rest),
    ensures
        path_along(vertices, edges, path),
        path.len() == rest.len() + 1,
        path.last() == rest.last(),
        forall|n: int|
            0 <= n <= rest.len() && #[trigger] known_up_to(vertices, rest, n) ==> known_up_to(
                vertices,
                path,
                n + 1,
            ),
{
    let path = seq![edges.last()] + rest;
    assert(edges[edges.len() - 1] == path[0]);
    assert forall|i: int| 0 <= i < path.len() - 1 implies ends(
        vertices[#[trigger] path[i]],
    ).contains(path[i + 1]) by {
        if i > 0 {
            assert(path[i] == rest[i - 1]);
            assert(path[i + 1] == rest[i]);
        }
    }
    assert forall|n: int|
        0 <= n <= rest.len() && #[trigger] known_up_to(vertices, rest, n) implies known_up_to(
        vertices,
        path,
        n + 1,
    ) by {
        assert forall|i: int| 0 <= i < n + 1 implies vertices.contains_key(#[trigger] path[i]) by {
            if i > 0 {
                assert(path[i] == rest[i - 1]);
            }
        }
    }
    path
}

/// The walk through a fabric goes along its initiators, as far down as depths can be counted.
pub proof fn law_fabric_is_walked_from_its_initiators(d: DigraphView)
    ensures
        fabric_end(d) == edges_end(d.vertices, d.initiators, 0xffff_ffff),
        fabric_visits(d) == edges_visits(d.vertices, d.initiators, 0, 0xffff_ffff),
{
}

} // verus!
