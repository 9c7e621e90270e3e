//! The walk through the fabric: every path from the initiators, in depth first order.

use std::collections::HashMap;

use vstd::prelude::*;

use crate::digraph::{texts, DigraphView, SasDigraphVertex, SimpleError, VertexMap, VertexView};

verus! {

broadcast use vstd::std_specs::hash::group_hash_axioms;

/// How a walk ends: with all its paths followed, at an edge to a vertex that is not there,
/// or not within the levels that it may descend.
#[derive(Debug, Clone, Copy, PartialEq, Eq, Structural)]
pub enum WalkEnd {
    Finished,
    Missing,
    Unfinished,
}

/// A vertex that the walk comes by, and how deep it lies there.
pub struct Visit {
    pub depth: nat,
    pub fmri: Seq<char>,
}

/// How the walk from a vertex ends.
pub open spec fn walk_end(
    vertices: Map<Seq<char>, VertexView>,
    vtx: VertexView,
    levels: nat,
) -> WalkEnd
    decreases levels, 0nat,
{
    if levels == 0 {
        WalkEnd::Unfinished
    } else {
        edges_end(vertices, vtx.edges(), (levels - 1) as nat)
    }
}

/// How the walks along a list of edges end: as the first that does not finish.
pub open spec fn edges_end(
    vertices: Map<Seq<char>, VertexView>,
    edges: Seq<Seq<char>>,
    levels: nat,
) -> WalkEnd
    decreases levels, edges.len(),
{
    if edges.len() == 0 {
        WalkEnd::Finished
    } else {
        let before = edges_end(vertices, edges.drop_last(), levels);
        if before != WalkEnd::Finished {
            before
        } else if !vertices.contains_key(edges.last()) {
            WalkEnd::Missing
        } else {
            walk_end(vertices, vertices[edges.last()], levels)
        }
    }
}

/// What the walk from a vertex comes by: the vertex itself, then all that its edges lead to.
pub open spec fn walk_visits(
    vertices: Map<Seq<char>, VertexView>,
    vtx: VertexView,
    depth: nat,
    levels: nat,
) -> Seq<Visit>
    decreases levels, 0nat,
{
    if levels == 0 {
        Seq::empty()
    } else {
        seq![Visit { depth: depth + 1, fmri: vtx.fmri }] + edges_visits(
            vertices,
            vtx.edges(),
            depth + 1,
            (levels - 1) as nat,
        )
    }
}

/// What the walks along a list of edges come by, one after the other.
pub open spec fn edges_visits(
    vertices: Map<Seq<char>, VertexView>,
    edges: Seq<Seq<char>>,
    depth: nat,
    levels: nat,
) -> Seq<Visit>
    decreases levels, edges.len(),
{
    if edges.len() == 0 {
        Seq::empty()
    } else {
        let before = edges_visits(vertices, edges.drop_last(), depth, levels);
        if edges_end(vertices, edges.drop_last(), levels) != WalkEnd::Finished
            || !vertices.contains_key(edges.last()) {
            before
        } else {
            before + walk_visits(vertices, vertices[edges.last()], depth, levels)
        }
    }
}

/// The greatest depth among the visits, 0 where there are none.
pub open spec fn deepest(visits: Seq<Visit>) -> nat
    decreases visits.len(),
{
    if visits.len() == 0 {
        0
    } else {
        let before = deepest(visits.drop_last());
        if visits.last().depth > before {
            visits.last().depth
        } else {
            before
        }
    }
}

/// The FMRIs that stand in a column.
pub open spec fn column(columns: Map<u32, Seq<Seq<char>>>, depth: u32) -> Seq<Seq<char>> {
    if columns.contains_key(depth) {
        columns[depth]
    } else {
        Seq::empty()
    }
}

/// The columns once each visit has put its FMRI at the end of the column of its depth.
pub open spec fn filed(
    columns: Map<u32, Seq<Seq<char>>>,
    visits: Seq<Visit>,
) -> Map<u32, Seq<Seq<char>>>
    decreases visits.len(),
{
    if visits.len() == 0 {
        columns
    } else {
        let before = filed(columns, visits.drop_last());
        let depth = visits.last().depth as u32;
        before.insert(depth, column(before, depth).push(visits.last().fmri))
    }
}

/// Columns of strings as columns of texts.
pub open spec fn columns_view(columns: Map<u32, Vec<String>>) -> Map<u32, Seq<Seq<char>>> {
    Map::new(|d: u32| columns.contains_key(d), |d: u32| texts(columns[d]@))
}

/// How the walk from all the initiators ends.
pub open spec fn fabric_end(d: DigraphView) -> WalkEnd {
    edges_end(d.vertices, d.initiators, u32::MAX as nat)
}

/// What the walk from all the initiators comes by.
pub open spec fn fabric_visits(d: DigraphView) -> Seq<Visit> {
    edges_visits(d.vertices, d.initiators, 0, u32::MAX as nat)
}

/// Filing is done visit by visit.
pub proof fn lemma_filed_add(columns: Map<u32, Seq<Seq<char>>>, a: Seq<Visit>, b: Seq<Visit>)
    ensures
        filed(columns, a + b) == filed(filed(columns, a), b),
    decreases b.len(),
{
    if b.len() == 0 {
        assert(a + b =~= a);
    } else {
        assert((a + b).drop_last() =~= a + b.drop_last());
        lemma_filed_add(columns, a, b.drop_last());
    }
}

/// The depth of two runs of visits is that of the deeper.
pub proof fn lemma_deepest_add(a: Seq<Visit>, b: Seq<Visit>)
    ensures
        deepest(a + b) == if deepest(a) > deepest(b) {
            deepest(a)
        } else {
            deepest(b)
        },
    decreases b.len(),
{
    if b.len() == 0 {
        assert(a + b =~= a);
    } else {
        assert((a + b).drop_last() =~= a + b.drop_last());
        lemma_deepest_add(a, b.drop_last());
    }
}

/// Walks along edges stop with the first that does not finish.
pub proof fn lemma_stops(
    vertices: Map<Seq<char>, VertexView>,
    edges: Seq<Seq<char>>,
    n: int,
    depth: nat,
    levels: nat,
)
    requires
        0 <= n <= edges.len(),
        edges_end(vertices, edges.take(n), levels) != WalkEnd::Finished,
    ensures
        edges_end(vertices, edges, levels) == edges_end(vertices, edges.take(n), levels),
        edges_visits(vertices, edges, depth, levels) == edges_visits(
            vertices,
            edges.take(n),
            depth,
            levels,
        ),
    decreases edges.len(),
{
    if n == edges.len() {
        assert(edges.take(n) =~= edges);
    } else {
        assert(edges.drop_last().take(n) =~= edges.take(n));
        lemma_stops(vertices, edges.drop_last(), n, depth, levels);
    }
}

/// Puts the FMRI of each vertex on the paths from `vtx` into the column of its depth, and
/// returns the depth of the deepest.
pub fn visit_vertex(
    vertices: &VertexMap,
    vtx: &SasDigraphVertex,
    column_hash: &mut HashMap<u32, Vec<String>>,
    depth: u32,
) -> (r: Result<u32, SimpleError>)
    requires
        vertices.wf(),
        walk_end(vertices@, vtx@, (u32::MAX - depth) as nat) != WalkEnd::Unfinished,
    ensures
        columns_view(final(column_hash)@) == filed(
            columns_view(old(column_hash)@),
            walk_visits(vertices@, vtx@, depth as nat, (u32::MAX - depth) as nat),
        ),
        match r {
            Ok(rc) => walk_end(vertices@, vtx@, (u32::MAX - depth) as nat) == WalkEnd::Finished
                && rc == deepest(
                walk_visits(vertices@, vtx@, depth as nat, (u32::MAX - depth) as nat),
            ),
            Err(e) => walk_end(vertices@, vtx@, (u32::MAX - depth) as nat) == WalkEnd::Missing
                && e@ == "failed to lookup vertex"@,
        },
    decreases u32::MAX - depth,
{
    let ghost before = columns_view(column_hash@);
    let ghost levels = (u32::MAX - depth - 1) as nat;
    let mut max_depth: u32 = depth + 1;
    let ghost first = seq![Visit { depth: depth as nat + 1, fmri: vtx@.fmri }];
    file(column_hash, max_depth, &vtx.fmri);
    proof {
        assert(first.drop_last() =~= Seq::empty());
        reveal_with_fuel(filed, 2);
        reveal_with_fuel(deepest, 2);
    }
    if let Some(edges) = &vtx.outgoing_edges {
        let ghost all = texts(edges@);
        let mut i: usize = 0;
        assert(all.take(0) =~= Seq::empty());
        assert(first + Seq::<Visit>::empty() =~= first);
        while i < edges.len()
            invariant
                i <= edges@.len(),
                all == texts(edges@),
                before == columns_view(old(column_hash)@),
                levels == u32::MAX - depth - 1,
                vertices.wf(),
                edges_end(vertices@, all, levels) != WalkEnd::Unfinished,
                edges_end(vertices@, all.take(i as int), levels) == WalkEnd::Finished,
                columns_view(column_hash@) == filed(
                    before,
                    first + edges_visits(
                        vertices@,
                        all.take(i as int),
                        depth as nat + 1,
                        levels,
                    ),
                ),
                max_depth == deepest(
                    first + edges_visits(
                        vertices@,
                        all.take(i as int),
                        depth as nat + 1,
                        levels,
                    ),
                ),
                walk_end(vertices@, vtx@, (u32::MAX - depth) as nat) == edges_end(
                    vertices@,
                    all,
                    levels,
                ),
                walk_visits(vertices@, vtx@, depth as nat, (u32::MAX - depth) as nat) == first
                    + edges_visits(vertices@, all, depth as nat + 1, levels),
            decreases edges@.len() - i,
        {
            let ghost part = all.take(i as int);
            let ghost next = all.take(i + 1);
            let ghost so_far = edges_visits(vertices@, part, depth as nat + 1, levels);
            assert(next.drop_last() =~= part);
            assert(next.last() == edges@[i as int]@);
            proof {
                if edges_end(vertices@, next, levels) != WalkEnd::Finished {
                    lemma_stops(vertices@, all, i + 1, depth as nat + 1, levels);
                }
            }
            match vertices.get(edges[i].as_str()) {
                Some(next_vtx) => {
                    let ghost deeper = walk_visits(
                        vertices@,
                        next_vtx@,
                        depth as nat + 1,
                        levels,
                    );
                    proof {
                        lemma_filed_add(before, first + so_far, deeper);
                        lemma_deepest_add(first + so_far, deeper);
                        assert(first + so_far + deeper =~= first + (so_far + deeper));
                    }
                    match visit_vertex(vertices, next_vtx, column_hash, depth + 1) {
                        Ok(rc) => {
                            if rc > max_depth {
                                max_depth = rc;
                            }
                        },
                        Err(e) => {
                            return Err(e);
                        },
                    }
                },
                None => {
                    return Err(SimpleError("failed to lookup vertex".to_string()));
                },
            }
            i = i + 1;
        }
        assert(all.take(i as int) =~= all);
    } else {
        assert(first + Seq::<Visit>::empty() =~= first);
    }
    Ok(max_depth)
}

/// Puts an FMRI at the end of a column.
fn file(column_hash: &mut HashMap<u32, Vec<String>>, depth: u32, fmri: &String)
    ensures
        columns_view(final(column_hash)@) == columns_view(old(column_hash)@).insert(
            depth,
            column(columns_view(old(column_hash)@), depth).push(fmri@),
        ),
{
    let ghost before = column_hash@;
    column_hash.entry(depth).or_insert(Vec::new()).push(fmri.clone());
    proof {
        let col = column_hash@[depth]@;
        assert(texts(col) =~= column(columns_view(before), depth).push(fmri@));
        assert(columns_view(column_hash@) =~= columns_view(before).insert(
            depth,
            column(columns_view(before), depth).push(fmri@),
        ));
    }
}

} // verus!
