//! What holds of every walk that finishes.

use vstd::prelude::*;

use crate::digraph::{keyed, VertexView};
use crate::walk::{
    column, deepest, edges_end, edges_visits, filed, walk_end, walk_visits, Visit, WalkEnd,
};

verus! {

/// The FMRIs of the visits at one depth, in order.
pub open spec fn at_depth(visits: Seq<Visit>, depth: nat) -> Seq<Seq<char>>
    decreases visits.len(),
{
    if visits.len() == 0 {
        Seq::empty()
    } else {
        let before = at_depth(visits.drop_last(), depth);
        if visits.last().depth == depth {
            before.push(visits.last().fmri)
        } else {
            before
        }
    }
}

/// All visits lie deeper than `least`, and none deeper than `most`.
pub open spec fn between(visits: Seq<Visit>, least: nat, most: nat) -> bool {
    forall|v: Visit| #[trigger] visits.contains(v) ==> least < v.depth <= most
}

/// Every edge of a visited vertex leads to a vertex that is visited one level deeper.
pub open spec fn follows_edges(
    vertices: Map<Seq<char>, VertexView>,
    visits: Seq<Visit>,
) -> bool {
    forall|v: Visit| #[trigger]
        visits.contains(v) ==> vertices.contains_key(v.fmri) && visits_all(
            vertices,
            visits,
            vertices[v.fmri].edges(),
            v.depth + 1,
        )
}

/// Every FMRI of a list is that of a vertex, and visited at the given depth.
pub open spec fn visits_all(
    vertices: Map<Seq<char>, VertexView>,
    visits: Seq<Visit>,
    fmris: Seq<Seq<char>>,
    depth: nat,
) -> bool {
    forall|j: int|
        0 <= j < fmris.len() ==> vertices.contains_key(#[trigger] fmris[j]) && visits.contains(
            Visit { depth, fmri: fmris[j] },
        )
}

/// Above every visit that is deeper than `top` there is one a level higher.
pub open spec fn without_gaps(visits: Seq<Visit>, top: nat) -> bool {
    forall|v: Visit| #[trigger]
        visits.contains(v) && v.depth > top ==> at_depth(visits, (v.depth - 1) as nat).len() > 0
}

/// The FMRIs at one depth of two runs of visits, one after the other.
pub proof fn lemma_at_depth_add(a: Seq<Visit>, b: Seq<Visit>, depth: nat)
    ensures
        at_depth(a + b, depth) == at_depth(a, depth) + at_depth(b, depth),
    decreases b.len(),
{
    if b.len() == 0 {
        assert(a + b =~= a);
        assert(at_depth(a, depth) + at_depth(b, depth) =~= at_depth(a, depth));
    } else {
        assert((a + b).drop_last() =~= a + b.drop_last());
        lemma_at_depth_add(a, b.drop_last(), depth);
        assert(at_depth(a + b, depth) =~= at_depth(a, depth) + at_depth(b, depth));
    }
}

/// A vertex is visited at a depth where its FMRI is among those of that depth.
pub proof fn lemma_at_depth_contains(visits: Seq<Visit>, depth: nat, fmri: Seq<char>)
    ensures
        visits.contains(Visit { depth, fmri }) <==> at_depth(visits, depth).contains(fmri),
    decreases visits.len(),
{
    broadcast use vstd::seq_lib::group_seq_properties;

    if visits.len() > 0 {
        lemma_at_depth_contains(visits.drop_last(), depth, fmri);
        assert(visits =~= visits.drop_last().push(visits.last()));
    }
}

/// There is nothing at a depth where no visit lies.
proof fn lemma_at_depth_empty(visits: Seq<Visit>, depth: nat)
    requires
        forall|v: Visit| #[trigger] visits.contains(v) ==> v.depth != depth,
    ensures
        at_depth(visits, depth).len() == 0,
    decreases visits.len(),
{
    if visits.len() > 0 {
        assert(visits.contains(visits.last()));
        assert forall|v: Visit| #[trigger] visits.drop_last().contains(v) implies v.depth
            != depth by {
            let i = choose|i: int|
                0 <= i < visits.drop_last().len() && visits.drop_last()[i] == v;
            assert(visits[i] == v);
            assert(visits.contains(v));
        }
        lemma_at_depth_empty(visits.drop_last(), depth);
    }
}

/// The visits of a walk that finishes.
pub proof fn lemma_walk(
    vertices: Map<Seq<char>, VertexView>,
    vtx: VertexView,
    depth: nat,
    levels: nat,
)
    requires
        keyed(vertices),
        vertices.contains_key(vtx.fmri),
        vertices[vtx.fmri] == vtx,
        walk_end(vertices, vtx, levels) == WalkEnd::Finished,
    ensures
        between(walk_visits(vertices, vtx, depth, levels), depth, depth + levels),
        follows_edges(vertices, walk_visits(vertices, vtx, depth, levels)),
        without_gaps(walk_visits(vertices, vtx, depth, levels), depth + 1),
        at_depth(walk_visits(vertices, vtx, depth, levels), depth + 1) == seq![vtx.fmri],
    decreases levels, 0nat,
{
    broadcast use vstd::seq_lib::group_seq_properties;

    let visits = walk_visits(vertices, vtx, depth, levels);
    let first = seq![Visit { depth: depth + 1, fmri: vtx.fmri }];
    let rest = edges_visits(vertices, vtx.edges(), depth + 1, (levels - 1) as nat);
    lemma_edges(vertices, vtx.edges(), depth + 1, (levels - 1) as nat);
    assert(visits == first + rest);
    assert forall|v: Visit| #[trigger] visits.contains(v) implies v == first[0] || rest.contains(
        v,
    ) by {
        if first.contains(v) {
            assert(v == first[0]);
        }
    }
    assert(first.contains(first[0]));
    assert forall|v: Visit| #[trigger] visits.contains(v) implies vertices.contains_key(v.fmri)
        && visits_all(vertices, visits, vertices[v.fmri].edges(), v.depth + 1) by {
        let edges = vertices[v.fmri].edges();
        assert forall|j: int| 0 <= j < edges.len() implies vertices.contains_key(
            #[trigger] edges[j],
        ) && visits.contains(Visit { depth: v.depth + 1, fmri: edges[j] }) by {
            assert(rest.contains(Visit { depth: v.depth + 1, fmri: edges[j] }));
        }
    }
    assert forall|d: nat| #[trigger] at_depth(visits, d) == at_depth(first, d) + at_depth(
        rest,
        d,
    ) by {
        lemma_at_depth_add(first, rest, d);
    }
    reveal_with_fuel(at_depth, 2);
    assert(first.drop_last() =~= Seq::empty());
    assert(at_depth(first, depth + 1) =~= seq![vtx.fmri]);
    lemma_at_depth_empty(rest, depth + 1);
    assert(at_depth(visits, depth + 1) =~= seq![vtx.fmri]);
    assert forall|v: Visit| #[trigger] visits.contains(v) && v.depth > depth + 1 implies at_depth(
        visits,
        (v.depth - 1) as nat,
    ).len() > 0 by {
        assert(rest.contains(v));
        if v.depth > depth + 2 {
            assert(at_depth(rest, (v.depth - 1) as nat).len() > 0);
        }
    }
}

/// The visits of walks along edges, where all of them finish.
pub proof fn lemma_edges(
    vertices: Map<Seq<char>, VertexView>,
    edges: Seq<Seq<char>>,
    depth: nat,
    levels: nat,
)
    requires
        keyed(vertices),
        edges_end(vertices, edges, levels) == WalkEnd::Finished,
    ensures
        between(edges_visits(vertices, edges, depth, levels), depth, depth + levels),
        follows_edges(vertices, edges_visits(vertices, edges, depth, levels)),
        without_gaps(edges_visits(vertices, edges, depth, levels), depth + 1),
        at_depth(edges_visits(vertices, edges, depth, levels), depth + 1) == edges,
        visits_all(vertices, edges_visits(vertices, edges, depth, levels), edges, depth + 1),
    decreases levels, edges.len(),
{
    broadcast use vstd::seq_lib::group_seq_properties;

    let visits = edges_visits(vertices, edges, depth, levels);
    if edges.len() > 0 {
        let before = edges_visits(vertices, edges.drop_last(), depth, levels);
        let vtx = vertices[edges.last()];
        let last = walk_visits(vertices, vtx, depth, levels);
        lemma_edges(vertices, edges.drop_last(), depth, levels);
        lemma_walk(vertices, vtx, depth, levels);
        assert(visits == before + last);
        assert forall|v: Visit| #[trigger] visits.contains(v) implies vertices.contains_key(v.fmri)
            && visits_all(vertices, visits, vertices[v.fmri].edges(), v.depth + 1) by {
            let part = if before.contains(v) {
                before
            } else {
                last
            };
            let out = vertices[v.fmri].edges();
            assert(part.contains(v));
            assert forall|j: int| 0 <= j < out.len() implies vertices.contains_key(
                #[trigger] out[j],
            ) && visits.contains(Visit { depth: v.depth + 1, fmri: out[j] }) by {
                assert(part.contains(Visit { depth: v.depth + 1, fmri: out[j] }));
            }
        }
        assert forall|d: nat| #[trigger] at_depth(visits, d) == at_depth(before, d) + at_depth(
            last,
            d,
        ) by {
            lemma_at_depth_add(before, last, d);
        }
        assert forall|v: Visit| #[trigger] visits.contains(v) && v.depth > depth
            + 1 implies at_depth(visits, (v.depth - 1) as nat).len() > 0 by {
            if before.contains(v) {
                assert(at_depth(before, (v.depth - 1) as nat).len() > 0);
            } else {
                assert(at_depth(last, (v.depth - 1) as nat).len() > 0);
            }
        }
        assert(at_depth(visits, depth + 1) =~= edges);
        assert forall|j: int| 0 <= j < edges.len() implies vertices.contains_key(
            #[trigger] edges[j],
        ) && visits.contains(Visit { depth: depth + 1, fmri: edges[j] }) by {
            lemma_at_depth_contains(visits, depth + 1, edges[j]);
            if j < edges.len() - 1 {
                assert(edges.drop_last()[j] == edges[j]);
            }
        }
    }
}

/// Below the depth of the deepest visit no depth is left out.
pub proof fn lemma_no_depth_left_out(visits: Seq<Visit>, depth: nat)
    requires
        without_gaps(visits, 1),
        1 <= depth <= deepest(visits),
    ensures
        at_depth(visits, depth).len() > 0,
    decreases deepest(visits) - depth,
{
    if depth == deepest(visits) {
        lemma_deepest_is_reached(visits);
    } else {
        lemma_no_depth_left_out(visits, depth + 1);
        let fmri = at_depth(visits, depth + 1)[0];
        lemma_at_depth_contains(visits, depth + 1, fmri);
        assert(visits.contains(Visit { depth: depth + 1, fmri }));
    }
}

/// A visit lies at the depth of the deepest, and none lies deeper.
pub proof fn lemma_deepest_is_reached(visits: Seq<Visit>)
    ensures
        deepest(visits) > 0 ==> at_depth(visits, deepest(visits)).len() > 0,
        forall|v: Visit| #[trigger] visits.contains(v) ==> v.depth <= deepest(visits),
    decreases visits.len(),
{
    broadcast use vstd::seq_lib::group_seq_properties;

    if visits.len() > 0 {
        lemma_deepest_is_reached(visits.drop_last());
        assert(visits =~= visits.drop_last().push(visits.last()));
    }
}

/// Filing puts the FMRIs of each depth, in order, at the end of its column.
pub proof fn lemma_filed_column(
    columns: Map<u32, Seq<Seq<char>>>,
    visits: Seq<Visit>,
    depth: u32,
)
    requires
        forall|v: Visit| #[trigger] visits.contains(v) ==> v.depth <= u32::MAX,
    ensures
        column(filed(columns, visits), depth) == column(columns, depth) + at_depth(
            visits,
            depth as nat,
        ),
        filed(columns, visits).contains_key(depth) <==> columns.contains_key(depth) || at_depth(
            visits,
            depth as nat,
        ).len() > 0,
    decreases visits.len(),
{
    broadcast use vstd::seq_lib::group_seq_properties;

    if visits.len() > 0 {
        assert(visits =~= visits.drop_last().push(visits.last()));
        assert(visits.contains(visits.last()));
        assert forall|v: Visit| #[trigger] visits.drop_last().contains(v) implies v.depth
            <= u32::MAX by {
            assert(visits.contains(v));
        }
        lemma_filed_column(columns, visits.drop_last(), depth);
    }
    assert(column(filed(columns, visits), depth) =~= column(columns, depth) + at_depth(
        visits,
        depth as nat,
    ));
}

} // verus!
