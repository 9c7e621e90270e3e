//! Laws of the library: what holds of every fabric.

use vstd::prelude::*;

use crate::digraph::{keyed, DigraphView, PropertyView, SasGeometry, VertexView};
use crate::drawing::{
    all_placements, drawing, drawn, lemma_laid_out, lemma_placements_known, page_height, page_width,
    vertex_nodes,
};
use crate::elements::{vertex_node, with_properties};
use crate::ending::{lemma_settled, settled};
use crate::layout::{
    all_known, box_of, layout_of, lemma_box_fits, lemma_last_box, lemma_layout, lemma_placed,
    not_given_from, placed, Placement,
};
use crate::paths::{
    at_depth, lemma_at_depth_contains, lemma_deepest_is_reached, lemma_edges, visits_all,
};
use crate::text::{behind_two_bytes, digit_char, digit_value, digits, digits_value, number_of};
use crate::topology::{
    digraph_of, vertex_of, with_vertices, NvNames, Reading, TopoDigraphXML, VertexXML,
};
use crate::walk::{
    deepest, edges_end, edges_visits, fabric_end, fabric_visits, walk_end, walk_visits, Visit,
    WalkEnd,
};

verus! {

/// A walk that ends does so alike, and comes by the same, if it may descend further.
pub proof fn law_more_levels_change_nothing(
    vertices: Map<Seq<char>, VertexView>,
    edges: Seq<Seq<char>>,
    depth: nat,
    levels: nat,
    more: nat,
)
    requires
        edges_end(vertices, edges, levels) != WalkEnd::Unfinished,
        levels <= more,
    ensures
        edges_end(vertices, edges, more) == edges_end(vertices, edges, levels),
        edges_visits(vertices, edges, depth, more) == edges_visits(
            vertices,
            edges,
            depth,
            levels,
        ),
    decreases levels, edges.len(),
{
    if edges.len() > 0 {
        let front = edges.drop_last();
        law_more_levels_change_nothing(vertices, front, depth, levels, more);
        if edges_end(vertices, front, levels) == WalkEnd::Finished && vertices.contains_key(
            edges.last(),
        ) {
            let vtx = vertices[edges.last()];
            assert(walk_end(vertices, vtx, levels) != WalkEnd::Unfinished);
            law_more_levels_change_nothing(
                vertices,
                vtx.edges(),
                depth + 1,
                (levels - 1) as nat,
                (more - 1) as nat,
            );
            assert(walk_end(vertices, vtx, more) == walk_end(vertices, vtx, levels));
            assert(walk_visits(vertices, vtx, depth, more) == walk_visits(
                vertices,
                vtx,
                depth,
                levels,
            ));
        }
    }
}

/// The vertices from which walks of a number of levels end.
spec fn ending(vertices: Map<Seq<char>, VertexView>, levels: nat) -> Set<Seq<char>> {
    vertices.dom().filter(
        |k: Seq<char>| walk_end(vertices, vertices[k], levels) != WalkEnd::Unfinished,
    )
}

/// A walk from a vertex that ends does so alike if it may descend further.
proof fn lemma_walk_end_keeps(
    vertices: Map<Seq<char>, VertexView>,
    vtx: VertexView,
    levels: nat,
)
    requires
        walk_end(vertices, vtx, levels) != WalkEnd::Unfinished,
    ensures
        walk_end(vertices, vtx, levels + 1) == walk_end(vertices, vtx, levels),
{
    law_more_levels_change_nothing(vertices, vtx.edges(), 0, (levels - 1) as nat, levels);
}

/// With each level more vertices end their walks, or one level more makes no difference.
proof fn lemma_settles(vertices: Map<Seq<char>, VertexView>, levels: nat)
    requires
        vertices.dom().finite(),
    ensures
        ending(vertices, levels).finite(),
        ending(vertices, levels).len() >= levels || exists|f: nat|
            f < levels && #[trigger] settled(vertices, f),
    decreases levels,
{
    let now = ending(vertices, levels);
    vertices.dom().lemma_len_filter(
        |k: Seq<char>| walk_end(vertices, vertices[k], levels) != WalkEnd::Unfinished,
    );
    if levels > 0 {
        let f = (levels - 1) as nat;
        let before = ending(vertices, f);
        lemma_settles(vertices, f);
        assert(before.subset_of(now)) by {
            assert forall|k: Seq<char>| before.contains(k) implies now.contains(k) by {
                lemma_walk_end_keeps(vertices, vertices[k], f);
            }
        }
        vstd::set_lib::lemma_len_subset(before, now);
        if before.len() == now.len() {
            vstd::set_lib::lemma_subset_equality(before, now);
            assert forall|k: Seq<char>| #[trigger] vertices.contains_key(k) implies walk_end(
                vertices,
                vertices[k],
                f,
            ) == walk_end(vertices, vertices[k], f + 1) by {
                if before.contains(k) {
                    lemma_walk_end_keeps(vertices, vertices[k], f);
                } else {
                    assert(!now.contains(k));
                }
            }
            assert(settled(vertices, f));
        }
    }
}

/// The walk through a fabric that it finishes goes no deeper than there are vertices.
pub proof fn law_depth_at_most_vertices(d: DigraphView)
    requires
        keyed(d.vertices),
        d.vertices.dom().finite(),
        fabric_end(d) == WalkEnd::Finished,
    ensures
        layout_of(d).max_depth <= d.vertices.dom().len(),
{
    let vs = d.vertices;
    let n = vs.dom().len();
    lemma_settles(vs, n + 1);
    vs.dom().lemma_len_filter(
        |k: Seq<char>| walk_end(vs, vs[k], n + 1) != WalkEnd::Unfinished,
    );
    let f = choose|f: nat| f < n + 1 && #[trigger] settled(vs, f);
    if f <= u32::MAX {
        lemma_settled(vs, d.initiators, f, u32::MAX as nat);
        law_more_levels_change_nothing(vs, d.initiators, 0, f, u32::MAX as nat);
        lemma_edges(vs, d.initiators, 0, f);
    } else {
        lemma_edges(vs, d.initiators, 0, u32::MAX as nat);
    }
    let visits = fabric_visits(d);
    lemma_deepest_is_reached(visits);
    if deepest(visits) > 0 {
        let fmri = at_depth(visits, deepest(visits))[0];
        lemma_at_depth_contains(visits, deepest(visits), fmri);
        assert(visits.contains(Visit { depth: deepest(visits), fmri }));
    }
}

/// Each FMRI of a path but the first is one to which an edge of the vertex before leads.
pub open spec fn is_path(vertices: Map<Seq<char>, VertexView>, path: Seq<Seq<char>>) -> bool {
    forall|i: int|
        0 <= i < path.len() - 1 ==> vertices[#[trigger] path[i]].edges().contains(path[i + 1])
}

/// The vertices of a path are visited one level deeper each.
proof fn lemma_path_visited(d: DigraphView, path: Seq<Seq<char>>, depth: nat, i: int)
    requires
        keyed(d.vertices),
        fabric_end(d) == WalkEnd::Finished,
        is_path(d.vertices, path),
        0 <= i < path.len(),
        fabric_visits(d).contains(Visit { depth, fmri: path[0] }),
    ensures
        fabric_visits(d).contains(Visit { depth: (depth + i) as nat, fmri: path[i] }),
    decreases i,
{
    if i > 0 {
        lemma_path_visited(d, path, depth, i - 1);
        lemma_layout(d);
        let visits = fabric_visits(d);
        let v = Visit { depth: (depth + i - 1) as nat, fmri: path[i - 1] };
        let edges = d.vertices[path[i - 1]].edges();
        assert(visits.contains(v));
        assert(visits_all(d.vertices, visits, edges, v.depth + 1));
        assert(edges.contains(path[i]));
        let j = choose|j: int| 0 <= j < edges.len() && edges[j] == path[i];
        assert(visits.contains(Visit { depth: v.depth + 1, fmri: edges[j] }));
    }
}

/// Going round a cycle leads to every depth.
proof fn lemma_round_and_round(d: DigraphView, path: Seq<Seq<char>>, depth: nat, rounds: nat)
    requires
        keyed(d.vertices),
        fabric_end(d) == WalkEnd::Finished,
        is_path(d.vertices, path),
        path.len() > 1,
        path.last() == path[0],
        fabric_visits(d).contains(Visit { depth, fmri: path[0] }),
    ensures
        exists|deep: nat|
            deep >= rounds && #[trigger] fabric_visits(d).contains(
                Visit { depth: deep, fmri: path[0] },
            ),
    decreases rounds,
{
    if rounds > 0 {
        lemma_round_and_round(d, path, depth, (rounds - 1) as nat);
        let deep = choose|deep: nat|
            deep >= rounds - 1 && #[trigger] fabric_visits(d).contains(
                Visit { depth: deep, fmri: path[0] },
            );
        lemma_path_visited(d, path, deep, path.len() - 1);
        assert(fabric_visits(d).contains(
            Visit { depth: (deep + path.len() - 1) as nat, fmri: path[0] },
        ));
    } else {
        assert(depth >= 0);
    }
}

/// A fabric whose walk finishes has no cycle that the walk could come by: no path from a
/// visited vertex leads back to it.
pub proof fn law_no_cycles(d: DigraphView, path: Seq<Seq<char>>, depth: nat)
    requires
        keyed(d.vertices),
        fabric_end(d) == WalkEnd::Finished,
        is_path(d.vertices, path),
        path.len() > 1,
        fabric_visits(d).contains(Visit { depth, fmri: path[0] }),
    ensures
        path.last() != path[0],
{
    if path.last() == path[0] {
        let rounds = u32::MAX as nat + 1;
        lemma_round_and_round(d, path, depth, rounds);
        lemma_edges(d.vertices, d.initiators, 0, u32::MAX as nat);
        let deep = choose|deep: nat|
            deep >= rounds && #[trigger] fabric_visits(d).contains(
                Visit { depth: deep, fmri: path[0] },
            );
        assert(fabric_visits(d).contains(Visit { depth: deep, fmri: path[0] }));
    }
}

/// No column up to the last is empty, and none is taller than the tallest.
pub proof fn law_columns_are_filled(d: DigraphView, k: nat)
    requires
        keyed(d.vertices),
        fabric_end(d) == WalkEnd::Finished,
        1 <= k <= layout_of(d).max_depth,
    ensures
        0 < layout_of(d).column(k).len() <= layout_of(d).max_height,
        layout_of(d).column(k) == at_depth(fabric_visits(d), k),
{
    lemma_layout(d);
}

/// The first column holds the initiators, in their order.
pub proof fn law_first_column_holds_initiators(d: DigraphView)
    requires
        keyed(d.vertices),
        fabric_end(d) == WalkEnd::Finished,
        d.initiators.len() > 0,
    ensures
        layout_of(d).column(1) == d.initiators,
{
    let visits = fabric_visits(d);
    lemma_edges(d.vertices, d.initiators, 0, u32::MAX as nat);
    lemma_at_depth_contains(visits, 1, d.initiators[0]);
    assert(at_depth(visits, 1)[0] == d.initiators[0]);
    assert(visits.contains(Visit { depth: 1, fmri: d.initiators[0] }));
    lemma_deepest_is_reached(visits);
    lemma_layout(d);
    assert(layout_of(d).column(1) == at_depth(visits, 1));
}

/// Every edge of a vertex in a column leads to a vertex that stands in the next.
pub proof fn law_edges_lead_to_next_column(d: DigraphView, k: nat, i: int, j: int)
    requires
        keyed(d.vertices),
        fabric_end(d) == WalkEnd::Finished,
        1 <= k <= layout_of(d).max_depth,
        0 <= i < layout_of(d).column(k).len(),
        0 <= j < d.vertices[layout_of(d).column(k)[i]].edges().len(),
    ensures
        k < layout_of(d).max_depth,
        layout_of(d).column(k + 1).contains(d.vertices[layout_of(d).column(k)[i]].edges()[j]),
{
    let visits = fabric_visits(d);
    let l = layout_of(d);
    let fmri = l.column(k)[i];
    let edges = d.vertices[fmri].edges();
    lemma_layout(d);
    assert(l.column(k) == at_depth(visits, k));
    lemma_at_depth_contains(visits, k, fmri);
    assert(visits.contains(Visit { depth: k, fmri }));
    assert(visits_all(d.vertices, visits, edges, k + 1));
    assert(visits.contains(Visit { depth: k + 1, fmri: edges[j] }));
    lemma_deepest_is_reached(visits);
    lemma_at_depth_contains(visits, k + 1, edges[j]);
    assert(l.column(k + 1) == at_depth(visits, k + 1));
}

/// Two boxes share no point.
pub open spec fn apart(a: SasGeometry, b: SasGeometry) -> bool {
    ||| a.x + a.width < b.x
    ||| b.x + b.width < a.x
    ||| a.y + a.height < b.y
    ||| b.y + b.height < a.y
}

/// The box of the vertex at a place in a column of a fabric.
pub open spec fn box_in(d: DigraphView, k: nat, i: nat) -> SasGeometry {
    box_of(k, i, layout_of(d).column(k).len(), layout_of(d).max_height)
}

/// Different places in the columns have boxes that share no point.
pub proof fn law_boxes_do_not_overlap(d: DigraphView, k1: nat, i1: nat, k2: nat, i2: nat)
    requires
        keyed(d.vertices),
        fabric_end(d) == WalkEnd::Finished,
        layout_of(d).fits(),
        1 <= k1 <= layout_of(d).max_depth,
        i1 < layout_of(d).column(k1).len(),
        1 <= k2 <= layout_of(d).max_depth,
        i2 < layout_of(d).column(k2).len(),
        k1 != k2 || i1 != i2,
    ensures
        apart(box_in(d, k1, i1), box_in(d, k2, i2)),
{
    let l = layout_of(d);
    lemma_layout(d);
    lemma_box_fits(l, k1, i1);
    lemma_box_fits(l, k2, i2);
    if k1 == k2 {
        let f = l.max_height / l.column(k1).len();
        assert(f >= 1);
        if i1 < i2 {
            assert(i1 * f + 1 <= i2 * f) by (nonlinear_arith)
                requires
                    i1 + 1 <= i2,
                    f >= 1,
            ;
        } else {
            assert(i2 * f + 1 <= i1 * f) by (nonlinear_arith)
                requires
                    i2 + 1 <= i1,
                    f >= 1,
            ;
        }
    }
}

/// Every box lies within the height of the page.
pub proof fn law_boxes_within_page_height(d: DigraphView, k: nat, i: nat)
    requires
        keyed(d.vertices),
        fabric_end(d) == WalkEnd::Finished,
        layout_of(d).fits(),
        1 <= k <= layout_of(d).max_depth,
        i < layout_of(d).column(k).len(),
    ensures
        box_in(d, k, i).y + box_in(d, k, i).height <= page_height(layout_of(d)),
{
    let l = layout_of(d);
    lemma_layout(d);
    lemma_box_fits(l, k, i);
    let len = l.column(k).len();
    let f = l.max_height / len;
    assert(i * f + f <= l.max_height) by (nonlinear_arith)
        requires
            i + 1 <= len,
            f == l.max_height / len,
            len > 0,
    ;
}

/// Every box lies within the width of the page, unless there are just five columns: then the
/// boxes of the last reach beyond it.
pub proof fn law_boxes_within_page_width(d: DigraphView, k: nat, i: nat)
    requires
        keyed(d.vertices),
        fabric_end(d) == WalkEnd::Finished,
        layout_of(d).fits(),
        1 <= k <= layout_of(d).max_depth,
        i < layout_of(d).column(k).len(),
        k < 5 || layout_of(d).max_depth != 5,
    ensures
        box_in(d, k, i).x + box_in(d, k, i).width <= page_width(layout_of(d)),
{
    lemma_box_fits(layout_of(d), k, i);
}

/// Drawing moves boxes and changes nothing else: the host, the initiators, and of each
/// vertex all but its box stay as they were, and a vertex that is not drawn stays as it was.
pub proof fn law_drawing_only_moves_boxes(d: DigraphView, k: Seq<char>)
    requires
        keyed(d.vertices),
        fabric_end(d) == WalkEnd::Finished,
        d.vertices.contains_key(k),
    ensures
        drawn(d).nodename == d.nodename,
        drawn(d).os_version == d.os_version,
        drawn(d).timestamp == d.timestamp,
        drawn(d).initiators == d.initiators,
        drawn(d).vertices.dom() == d.vertices.dom(),
        drawn(d).vertices[k] == d.vertices[k].placed(drawn(d).vertices[k].geometry),
        not_given_from(all_placements(d), 0, k) ==> drawn(d).vertices[k] == d.vertices[k],
{
    lemma_all_known(d);
    lemma_placed(d.vertices, all_placements(d));
}

/// All vertices in the drawing of a fabric are there.
proof fn lemma_all_known(d: DigraphView)
    requires
        keyed(d.vertices),
        fabric_end(d) == WalkEnd::Finished,
    ensures
        all_known(d.vertices, all_placements(d)),
{
    lemma_laid_out(d);
    lemma_placements_known(layout_of(d), d.vertices, layout_of(d).max_depth);
}

/// A vertex that is drawn several times is joined to its edges where it was drawn last.
pub proof fn law_last_box_counts(d: DigraphView, i: int)
    requires
        0 <= i < all_placements(d).len(),
        not_given_from(all_placements(d), i + 1, all_placements(d)[i].fmri),
    ensures
        drawn(d).vertices[all_placements(d)[i].fmri].geometry == all_placements(d)[i].geometry,
{
    lemma_last_box(d.vertices, all_placements(d), i);
}

/// Two sets of vertices have the same FMRIs and edges.
pub open spec fn same_edges(
    a: Map<Seq<char>, VertexView>,
    b: Map<Seq<char>, VertexView>,
) -> bool {
    &&& a.dom() == b.dom()
    &&& forall|k: Seq<char>| #[trigger]
        a.contains_key(k) ==> a[k].fmri == b[k].fmri && a[k].edges() == b[k].edges()
}

/// The walk goes by FMRIs and edges alone.
pub proof fn law_walk_goes_by_edges(
    a: Map<Seq<char>, VertexView>,
    b: Map<Seq<char>, VertexView>,
    edges: Seq<Seq<char>>,
    depth: nat,
    levels: nat,
)
    requires
        same_edges(a, b),
    ensures
        edges_end(a, edges, levels) == edges_end(b, edges, levels),
        edges_visits(a, edges, depth, levels) == edges_visits(b, edges, depth, levels),
    decreases levels, edges.len(),
{
    if edges.len() > 0 {
        law_walk_goes_by_edges(a, b, edges.drop_last(), depth, levels);
        let k = edges.last();
        assert(a.contains_key(k) == b.contains_key(k));
        if a.contains_key(k) {
            if levels > 0 {
                law_walk_goes_by_edges(a, b, a[k].edges(), depth + 1, (levels - 1) as nat);
            }
            assert(walk_end(a, a[k], levels) == walk_end(b, b[k], levels));
            assert(walk_visits(a, a[k], depth, levels) == walk_visits(b, b[k], depth, levels));
        }
    }
}

/// The box that a vertex ends with goes by the boxes that it is given, where there are any.
proof fn lemma_same_box(
    a: Map<Seq<char>, VertexView>,
    b: Map<Seq<char>, VertexView>,
    ps: Seq<Placement>,
    k: Seq<char>,
)
    requires
        not_given_from(ps, 0, k) ==> a[k].geometry == b[k].geometry,
    ensures
        placed(a, ps)[k].geometry == placed(b, ps)[k].geometry,
    decreases ps.len(),
{
    if ps.len() > 0 && ps.last().fmri != k {
        let front = ps.drop_last();
        if not_given_from(front, 0, k) {
            assert forall|i: int| 0 <= i < ps.len() implies (#[trigger] ps[i]).fmri != k by {
                if i < front.len() {
                    assert(front[i] == ps[i]);
                }
            }
        }
        lemma_same_box(a, b, front, k);
    }
}

/// Drawing a fabric once more gives the same drawing, and leaves the boxes where they are.
pub proof fn law_drawing_again_changes_nothing(d: DigraphView)
    requires
        keyed(d.vertices),
        fabric_end(d) == WalkEnd::Finished,
    ensures
        fabric_end(drawn(d)) == WalkEnd::Finished,
        drawing(drawn(d)) == drawing(d),
        drawn(drawn(d)) == drawn(d),
{
    let again = drawn(d);
    let ps = all_placements(d);
    lemma_all_known(d);
    lemma_placed(d.vertices, ps);
    law_walk_goes_by_edges(d.vertices, again.vertices, d.initiators, 0, u32::MAX as nat);
    assert(layout_of(again) == layout_of(d));
    assert(all_known(again.vertices, ps)) by {
        assert forall|i: int| 0 <= i < ps.len() implies again.vertices.contains_key(
            (#[trigger] ps[i]).fmri,
        ) by {
            assert(d.vertices.contains_key(ps[i].fmri));
        }
    }
    lemma_placed(again.vertices, ps);
    let twice = placed(again.vertices, ps);
    assert forall|k: Seq<char>| again.vertices.contains_key(k) implies #[trigger] twice[k]
        == again.vertices[k] by {
        assert(d.vertices.contains_key(k));
        lemma_same_box(d.vertices, again.vertices, ps, k);
    }
    assert(twice =~= again.vertices);
    assert(vertex_nodes(again.vertices, ps) =~= vertex_nodes(d.vertices, ps)) by {
        assert forall|i: int| 0 <= i < ps.len() implies vertex_node(
            again.vertices[(#[trigger] ps[i]).fmri],
            ps[i].geometry,
        ) == vertex_node(d.vertices[ps[i].fmri], ps[i].geometry) by {
            assert(d.vertices.contains_key(ps[i].fmri));
        }
    }
    assert(drawn(again) =~= again);
}

/// A drawn vertex carries each of its properties as an attribute; of several properties with
/// the same name the last counts.
pub proof fn law_properties_are_attributes(
    attributes: Map<Seq<char>, Seq<char>>,
    properties: Seq<PropertyView>,
    i: int,
)
    requires
        0 <= i < properties.len(),
        forall|j: int|
            i < j < properties.len() ==> (#[trigger] properties[j]).name != properties[i].name,
    ensures
        with_properties(attributes, properties).contains_key(properties[i].name),
        with_properties(attributes, properties)[properties[i].name] == properties[i].value,
    decreases properties.len(),
{
    let front = properties.drop_last();
    if i < front.len() {
        assert(properties[properties.len() - 1].name != properties[i].name);
        assert forall|j: int| i < j < front.len() implies (#[trigger] front[j]).name
            != front[i].name by {
            assert(front[j] == properties[j]);
        }
        law_properties_are_attributes(attributes, front, i);
    }
}

/// Properties leave the attributes with other names as they are.
pub proof fn law_properties_keep_other_attributes(
    attributes: Map<Seq<char>, Seq<char>>,
    properties: Seq<PropertyView>,
    name: Seq<char>,
)
    requires
        attributes.contains_key(name),
        forall|j: int| 0 <= j < properties.len() ==> (#[trigger] properties[j]).name != name,
    ensures
        with_properties(attributes, properties).contains_key(name),
        with_properties(attributes, properties)[name] == attributes[name],
    decreases properties.len(),
{
    if properties.len() > 0 {
        let front = properties.drop_last();
        assert(properties[properties.len() - 1].name != name);
        assert forall|j: int| 0 <= j < front.len() implies (#[trigger] front[j]).name != name by {
            assert(front[j] == properties[j]);
        }
        law_properties_keep_other_attributes(attributes, front, name);
    }
}

/// The FMRIs of the vertices of a document that are named initiators, in order.
pub open spec fn initiator_fmris(vertices: Seq<VertexXML>) -> Seq<Seq<char>>
    decreases vertices.len(),
{
    if vertices.len() == 0 {
        Seq::empty()
    } else {
        let before = initiator_fmris(vertices.drop_last());
        if vertices.last().name@ == "initiator"@ {
            before.push(vertices.last().fmri@)
        } else {
            before
        }
    }
}

/// The FMRIs of the vertices of a document.
pub open spec fn fmris(vertices: Seq<VertexXML>) -> Seq<Seq<char>> {
    Seq::new(vertices.len(), |i: int| vertices[i].fmri@)
}

/// Adding vertices to a fabric without any.
proof fn lemma_with_vertices(empty: DigraphView, vertices: Seq<VertexXML>, names: NvNames)
    requires
        empty.vertices == Map::<Seq<char>, VertexView>::empty(),
        empty.initiators == Seq::<Seq<char>>::empty(),
    ensures
        with_vertices(empty, vertices, names) matches Reading::Read(d) ==> {
            &&& keyed(d.vertices)
            &&& d.vertices.dom().finite()
            &&& d.initiators == initiator_fmris(vertices)
            &&& forall|i: int|
                0 <= i < d.initiators.len() ==> d.vertices.contains_key(#[trigger] d.initiators[i])
            &&& forall|k: Seq<char>| #[trigger]
                d.vertices.contains_key(k) <==> fmris(vertices).contains(k)
            &&& d.nodename == empty.nodename
            &&& d.os_version == empty.os_version
            &&& d.timestamp == empty.timestamp
        },
    decreases vertices.len(),
{
    if vertices.len() == 0 {
        assert(fmris(vertices) =~= Seq::empty());
    } else {
        let front = vertices.drop_last();
        lemma_with_vertices(empty, front, names);
        if let Reading::Read(d) = with_vertices(empty, vertices, names) {
            let before = with_vertices(empty, front, names)->Read_0;
            let vtx = vertex_of(vertices.last(), names)->Read_0;
            assert(d == before.with_vertex(vtx));
            assert(fmris(vertices) =~= fmris(front).push(vtx.fmri));
            assert forall|k: Seq<char>| #[trigger]
                d.vertices.contains_key(k) <==> fmris(vertices).contains(k) by {
                if fmris(front).contains(k) {
                    let i = choose|i: int|
                        0 <= i < fmris(front).len() && fmris(front)[i] == k;
                    assert(fmris(vertices)[i] == k);
                }
                if k == vtx.fmri {
                    assert(fmris(vertices)[vertices.len() - 1] == k);
                }
                if fmris(vertices).contains(k) && k != vtx.fmri {
                    let i = choose|i: int|
                        0 <= i < fmris(vertices).len() && fmris(vertices)[i] == k;
                    assert(fmris(front)[i] == k);
                }
            }
            assert forall|i: int| 0 <= i < d.initiators.len() implies d.vertices.contains_key(
                #[trigger] d.initiators[i],
            ) by {
                if i < before.initiators.len() {
                    assert(before.vertices.contains_key(before.initiators[i]));
                    assert(d.initiators[i] == before.initiators[i]);
                }
            }
        }
    }
}

/// A fabric that was read has the vertices of the document, each under its FMRI, and as
/// initiators those that are named so, in order. All of them are among its vertices.
pub proof fn law_read_vertices(xml: TopoDigraphXML, names: NvNames)
    requires
        digraph_of(xml, names) is Read,
    ensures
        keyed(digraph_of(xml, names)->Read_0.vertices),
        digraph_of(xml, names)->Read_0.vertices.dom().finite(),
        digraph_of(xml, names)->Read_0.initiators == initiator_fmris(xml.vertices@),
        forall|i: int|
            0 <= i < initiator_fmris(xml.vertices@).len() ==> digraph_of(
                xml,
                names,
            )->Read_0.vertices.contains_key(#[trigger] initiator_fmris(xml.vertices@)[i]),
        forall|k: Seq<char>| #[trigger]
            digraph_of(xml, names)->Read_0.vertices.contains_key(k) <==> fmris(
                xml.vertices@,
            ).contains(k),
{
    let empty = DigraphView {
        nodename: xml.nodename@,
        os_version: xml.os_version@,
        timestamp: xml.timestamp@,
        vertices: Map::empty(),
        initiators: Seq::empty(),
    };
    lemma_with_vertices(empty, xml.vertices@, names);
}

/// Of several vertices of a document with the same FMRI the last counts.
pub proof fn law_last_vertex_counts(
    empty: DigraphView,
    vertices: Seq<VertexXML>,
    names: NvNames,
    i: int,
)
    requires
        with_vertices(empty, vertices, names) is Read,
        0 <= i < vertices.len(),
        forall|j: int|
            i < j < vertices.len() ==> (#[trigger] vertices[j]).fmri@ != vertices[i].fmri@,
    ensures
        vertex_of(vertices[i], names) == Reading::Read(
            with_vertices(empty, vertices, names)->Read_0.vertices[vertices[i].fmri@],
        ),
    decreases vertices.len(),
{
    let front = vertices.drop_last();
    if i < front.len() {
        assert(vertices[vertices.len() - 1].fmri@ != vertices[i].fmri@);
        assert forall|j: int| i < j < front.len() implies (#[trigger] front[j]).fmri@
            != front[i].fmri@ by {
            assert(front[j] == vertices[j]);
        }
        law_last_vertex_counts(empty, front, names, i);
    }
}

/// An edge of some vertex leads to a vertex that is not there.
pub open spec fn dangling(vertices: Map<Seq<char>, VertexView>) -> bool {
    exists|k: Seq<char>, j: int|
        #![trigger vertices[k].edges()[j]]
        vertices.contains_key(k) && 0 <= j < vertices[k].edges().len() && !vertices.contains_key(
            vertices[k].edges()[j],
        )
}

/// A walk ends at a vertex that is not there only where one of the edges that it starts
/// along, or an edge of a vertex, leads there.
pub proof fn law_missing_means_dangling(
    vertices: Map<Seq<char>, VertexView>,
    edges: Seq<Seq<char>>,
    levels: nat,
)
    requires
        edges_end(vertices, edges, levels) == WalkEnd::Missing,
    ensures
        dangling(vertices) || exists|j: int|
            0 <= j < edges.len() && !vertices.contains_key(#[trigger] edges[j]),
    decreases levels, edges.len(),
{
    let front = edges.drop_last();
    let last = edges.last();
    if edges_end(vertices, front, levels) == WalkEnd::Missing {
        law_missing_means_dangling(vertices, front, levels);
        if !dangling(vertices) {
            let j = choose|j: int|
                0 <= j < front.len() && !vertices.contains_key(#[trigger] front[j]);
            assert(edges[j] == front[j]);
        }
    } else if !vertices.contains_key(last) {
        assert(edges[edges.len() - 1] == last);
    } else {
        let out = vertices[last].edges();
        assert(walk_end(vertices, vertices[last], levels) == WalkEnd::Missing);
        law_missing_means_dangling(vertices, out, (levels - 1) as nat);
        if exists|j: int| 0 <= j < out.len() && !vertices.contains_key(#[trigger] out[j]) {
            let j = choose|j: int| 0 <= j < out.len() && !vertices.contains_key(#[trigger] out[j]);
            assert(!vertices.contains_key(vertices[last].edges()[j]));
        }
    }
}

/// A fabric that was read lacks a vertex on its walk only where an edge of one of its
/// vertices leads to none.
pub proof fn law_read_fabric_lacks_only_ends_of_edges(xml: TopoDigraphXML, names: NvNames)
    requires
        digraph_of(xml, names) is Read,
        fabric_end(digraph_of(xml, names)->Read_0) == WalkEnd::Missing,
    ensures
        dangling(digraph_of(xml, names)->Read_0.vertices),
{
    let d = digraph_of(xml, names)->Read_0;
    law_read_vertices(xml, names);
    law_missing_means_dangling(d.vertices, d.initiators, u32::MAX as nat);
}

/// The value of the character of a digit is the digit.
proof fn lemma_digit_round_trip(d: nat)
    requires
        d < 36,
    ensures
        digit_value(digit_char(d)) == Some(d),
        digit_char(d) != '+',
{
}

/// The digits of a number denote it.
proof fn lemma_digits_round_trip(n: nat, radix: nat)
    requires
        2 <= radix <= 36,
    ensures
        digits_value(digits(n, radix), radix) == Some(n),
        digits(n, radix).len() > 0,
        digits(n, radix)[0] != '+',
    decreases n,
{
    if n < radix {
        lemma_digit_round_trip(n);
        let s = digits(n, radix);
        assert(s.drop_last() =~= Seq::empty());
        assert(digits_value(s.drop_last(), radix) == Some(0nat));
        assert(0 * radix == 0) by (nonlinear_arith);
    } else {
        vstd::arithmetic::div_mod::lemma_div_decreases(n as int, radix as int);
        vstd::arithmetic::div_mod::lemma_mod_bound(n as int, radix as int);
        lemma_digits_round_trip(n / radix, radix);
        lemma_digit_round_trip(n % radix);
        let s = digits(n, radix);
        assert(s.drop_last() =~= digits(n / radix, radix));
        vstd::arithmetic::div_mod::lemma_fundamental_div_mod(n as int, radix as int);
        assert(radix * (n / radix) == (n / radix) * radix) by (nonlinear_arith);
    }
}

/// The label of an instance number reads back as the number.
pub proof fn law_instance_label_reads_back(instance: u64)
    ensures
        number_of(digits(instance as nat, 16), 16) == Some(instance),
{
    lemma_digits_round_trip(instance as nat, 16);
}

/// Behind a prefix of two ASCII characters, such as `0x`, the rest of a text is left.
pub proof fn law_prefix_is_skipped(a: char, b: char, rest: Seq<char>)
    requires
        a as u32 <= 0x7f,
        b as u32 <= 0x7f,
    ensures
        behind_two_bytes(seq![a, b] + rest) == Some(rest),
{
    let s = seq![a, b] + rest;
    let t = s.drop_first();
    let bytes = vstd::utf8::encode_utf8(s);
    let tail = vstd::utf8::encode_utf8(t);
    assert(t.drop_first() =~= rest);
    vstd::utf8::encode_utf8_valid_utf8(s);
    vstd::utf8::encode_utf8_valid_utf8(t);
    vstd::utf8::encode_utf8_valid_utf8(rest);
    vstd::utf8::encode_utf8_first_scalar(s);
    vstd::utf8::encode_utf8_first_scalar(t);
    assert(vstd::utf8::pop_first_scalar(bytes) =~= tail);
    assert(vstd::utf8::pop_first_scalar(tail) =~= vstd::utf8::encode_utf8(rest));
    reveal_with_fuel(vstd::utf8::is_char_boundary, 3);
    assert(vstd::utf8::is_char_boundary(bytes, 2));
    assert(bytes.subrange(2, bytes.len() as int) =~= vstd::utf8::encode_utf8(rest));
    vstd::utf8::encode_utf8_decode_utf8(rest);
}

} // verus!
