//! How the walk through the fabric ends, found out without walking.
//!
//! A fabric with a cycle has paths without end. What the walk from a vertex comes to within
//! one level more follows from what the walks from its neighbours come to, so the levels
//! are gone through for all vertices at once, until one level changes nothing.

use vstd::prelude::*;

use crate::digraph::{texts, SasDigraph, VertexMap, VertexView};
use crate::walk::{edges_end, fabric_end, walk_end, WalkEnd};

verus! {

/// One level more makes no difference to the walk from any vertex.
pub open spec fn settled(vertices: Map<Seq<char>, VertexView>, levels: nat) -> bool {
    forall|k: Seq<char>| #[trigger]
        vertices.contains_key(k) ==> walk_end(vertices, vertices[k], levels) == walk_end(
            vertices,
            vertices[k],
            levels + 1,
        )
}

/// Where one level more makes no difference to a vertex, it makes none to a list of edges.
proof fn lemma_settled_edges(
    vertices: Map<Seq<char>, VertexView>,
    edges: Seq<Seq<char>>,
    levels: nat,
)
    requires
        settled(vertices, levels),
    ensures
        edges_end(vertices, edges, levels) == edges_end(vertices, edges, levels + 1),
    decreases edges.len(),
{
    if edges.len() > 0 {
        lemma_settled_edges(vertices, edges.drop_last(), levels);
    }
}

/// Once one level more makes no difference, no number of levels does.
pub proof fn lemma_settled(
    vertices: Map<Seq<char>, VertexView>,
    edges: Seq<Seq<char>>,
    levels: nat,
    more: nat,
)
    requires
        settled(vertices, levels),
        levels <= more,
    ensures
        settled(vertices, more),
        edges_end(vertices, edges, levels) == edges_end(vertices, edges, more),
    decreases more,
{
    if levels < more {
        let less = (more - 1) as nat;
        lemma_settled(vertices, edges, levels, less);
        lemma_settled_edges(vertices, edges, less);
        assert forall|k: Seq<char>| #[trigger] vertices.contains_key(k) implies walk_end(
            vertices,
            vertices[k],
            more,
        ) == walk_end(vertices, vertices[k], more + 1) by {
            lemma_settled_edges(vertices, vertices[k].edges(), less);
        }
    }
}

/// The ends of the walks from all vertices are known for a number of levels.
spec fn known(vertices: &VertexMap, ends: Seq<WalkEnd>, levels: nat) -> bool {
    &&& ends.len() == vertices.entries().len()
    &&& forall|i: int|
        0 <= i < ends.len() ==> #[trigger] ends[i] == walk_end(
            vertices@,
            vertices.entries()[i],
            levels,
        )
}

/// How the walks along a list of edges end, given how those from all vertices do.
fn end_of_edges(
    vertices: &VertexMap,
    ends: &Vec<WalkEnd>,
    edges: &Vec<String>,
    Ghost(levels): Ghost<nat>,
) -> (r: WalkEnd)
    requires
        vertices.wf(),
        known(vertices, ends@, levels),
    ensures
        r == edges_end(vertices@, texts(edges@), levels),
{
    let ghost all = texts(edges@);
    let mut i: usize = 0;
    let mut end = WalkEnd::Finished;
    assert(all.take(0) =~= Seq::empty());
    while i < edges.len()
        invariant
            i <= edges@.len(),
            all == texts(edges@),
            vertices.wf(),
            known(vertices, ends@, levels),
            end == edges_end(vertices@, all.take(i as int), levels),
        decreases edges@.len() - i,
    {
        assert(all.take(i + 1).drop_last() =~= all.take(i as int));
        if end == WalkEnd::Finished {
            match vertices.position(edges[i].as_str()) {
                Some(p) => {
                    end = ends[p];
                },
                None => {
                    end = WalkEnd::Missing;
                },
            }
        }
        i = i + 1;
    }
    assert(all.take(i as int) =~= all);
    end
}

/// How the walks from all vertices end with one level more.
fn one_level_more(
    vertices: &VertexMap,
    ends: &Vec<WalkEnd>,
    Ghost(levels): Ghost<nat>,
) -> (r: Vec<WalkEnd>)
    requires
        vertices.wf(),
        known(vertices, ends@, levels),
    ensures
        known(vertices, r@, levels + 1),
{
    let mut r: Vec<WalkEnd> = Vec::new();
    let mut i: usize = 0;
    while i < vertices.len()
        invariant
            i <= vertices.entries().len(),
            r@.len() == i,
            vertices.wf(),
            known(vertices, ends@, levels),
            forall|j: int|
                0 <= j < i ==> #[trigger] r@[j] == walk_end(
                    vertices@,
                    vertices.entries()[j],
                    levels + 1,
                ),
        decreases vertices.entries().len() - i,
    {
        let vtx = vertices.entry(i);
        let end = match &vtx.outgoing_edges {
            Some(edges) => end_of_edges(vertices, ends, edges, Ghost(levels)),
            None => WalkEnd::Finished,
        };
        assert(end == walk_end(vertices@, vertices.entries()[i as int], levels + 1));
        r.push(end);
        i = i + 1;
    }
    r
}

/// Whether two lists of ends are the same.
fn same_ends(a: &Vec<WalkEnd>, b: &Vec<WalkEnd>) -> (r: bool)
    requires
        a@.len() == b@.len(),
    ensures
        r == (a@ == b@),
{
    let mut i: usize = 0;
    while i < a.len()
        invariant
            i <= a@.len(),
            a@.len() == b@.len(),
            forall|j: int| 0 <= j < i ==> a@[j] == b@[j],
        decreases a@.len() - i,
    {
        if a[i] != b[i] {
            return false;
        }
        i = i + 1;
    }
    assert(a@ =~= b@);
    true
}

impl SasDigraph {
    /// How the walk from all the initiators ends.
    pub fn walk_outcome(&self) -> (r: WalkEnd)
        requires
            self.wf(),
        ensures
            r == fabric_end(self@),
    {
        let vertices = &self.vertices;
        let ghost vs = vertices@;
        let mut ends: Vec<WalkEnd> = Vec::new();
        let n: usize = vertices.len();
        while ends.len() < n
            invariant
                ends@.len() <= n,
                forall|j: int| 0 <= j < ends@.len() ==> #[trigger] ends@[j] == WalkEnd::Unfinished,
            decreases n - ends@.len(),
        {
            ends.push(WalkEnd::Unfinished);
        }
        let mut levels: u32 = 0;
        let mut done = false;
        while !done && levels < u32::MAX
            invariant
                vertices.wf(),
                vs == vertices@,
                known(vertices, ends@, levels as nat),
                done ==> settled(vs, levels as nat),
            decreases u32::MAX - levels, (if done { 0int } else { 1int }),
        {
            let next = one_level_more(vertices, &ends, Ghost(levels as nat));
            if same_ends(&ends, &next) {
                proof {
                    vertices.lemma_entries();
                    assert forall|k: Seq<char>| #[trigger] vs.contains_key(k) implies walk_end(
                        vs,
                        vs[k],
                        levels as nat,
                    ) == walk_end(vs, vs[k], levels as nat + 1) by {
                        let i = choose|i: int|
                            0 <= i < vertices.entries().len() && #[trigger] vertices.entries()[i]
                                == vs[k];
                        assert(ends@[i] == next@[i]);
                    }
                }
                done = true;
            } else {
                ends = next;
                levels = levels + 1;
            }
        }
        proof {
            if done {
                lemma_settled(vs, self@.initiators, levels as nat, u32::MAX as nat);
            }
        }
        end_of_edges(vertices, &ends, &self.initiators, Ghost(levels as nat))
    }
}

} // verus!
