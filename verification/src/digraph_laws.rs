//! Laws of the graph: what its views tell, and what a vertex more changes.

use vstd::prelude::*;

use crate::digraph::{
    DigraphView, SasDigraph, SasDigraphVertex, SasGeometry, VertexView, EXPANDER, INITIATOR, PORT,
    TARGET,
};
use crate::walk::columns_view;

verus! {

/// The kinds of vertices go by these names.
pub proof fn law_names_of_kinds()
    ensures
        INITIATOR@ == "initiator"@,
        PORT@ == "port"@,
        EXPANDER@ == "expander"@,
        TARGET@ == "target"@,
{
}

/// A fabric with one vertex more holds the vertex under its FMRI, in the place of one that
/// was there before, and all others as they were. A vertex named `initiator` becomes the last
/// of the initiators; no other changes them.
pub proof fn law_one_vertex_more(d: DigraphView, vtx: VertexView, fmri: Seq<char>)
    ensures
        ({
            let more = d.with_vertex(vtx);
            &&& more.vertices.contains_key(vtx.fmri) && more.vertices[vtx.fmri] == vtx
            &&& fmri != vtx.fmri ==> (more.vertices.contains_key(fmri) <==> d.vertices.contains_key(
                fmri,
            )) && more.vertices[fmri] == d.vertices[fmri]
            &&& vtx.name == "initiator"@ ==> more.initiators.len() == d.initiators.len() + 1
                && more.initiators.last() == vtx.fmri && more.initiators.drop_last()
                == d.initiators
            &&& vtx.name != "initiator"@ ==> more.initiators == d.initiators
            &&& more.nodename == d.nodename
            &&& more.os_version == d.os_version
            &&& more.timestamp == d.timestamp
        }),
{
    assert(d.initiators.push(vtx.fmri).drop_last() =~= d.initiators);
}

/// The view of a vertex tells all of it: each property with its name and value, and each edge,
/// in order.
pub proof fn law_vertex_view_tells_all(vtx: SasDigraphVertex)
    ensures
        vtx@.fmri == vtx.fmri@,
        vtx@.name == vtx.name@,
        vtx@.instance == vtx.instance,
        vtx@.geometry == vtx.geometry,
        vtx@.properties.len() == vtx.properties@.len(),
        forall|i: int|
            0 <= i < vtx.properties@.len() ==> (#[trigger] vtx@.properties[i]).name
                == vtx.properties@[i].name@ && vtx@.properties[i].value
                == vtx.properties@[i].value@,
        vtx@.outgoing_edges is None <==> vtx.outgoing_edges is None,
        vtx.outgoing_edges matches Some(edges) ==> vtx@.outgoing_edges->0.len() == edges@.len() && (
        forall|j: int|
            0 <= j < edges@.len() ==> #[trigger] vtx@.outgoing_edges->0[j] == edges@[j]@),
{
}

/// The view of a fabric tells its host and its initiators.
pub proof fn law_fabric_view_tells_all(d: SasDigraph)
    ensures
        d@.nodename == d.nodename@,
        d@.os_version == d.os_version@,
        d@.timestamp == d.timestamp@,
        d@.vertices == d.vertices@,
        d@.initiators.len() == d.initiators@.len(),
        forall|i: int|
            0 <= i < d.initiators@.len() ==> #[trigger] d@.initiators[i] == d.initiators@[i]@,
{
}

/// Columns of strings are told text by text.
pub proof fn law_columns_view_tells_all(columns: Map<u32, Vec<String>>, depth: u32)
    ensures
        columns_view(columns).contains_key(depth) <==> columns.contains_key(depth),
        columns.contains_key(depth) ==> columns_view(columns)[depth].len() == columns[depth]@.len()
            && forall|i: int|
            0 <= i < columns[depth]@.len() ==> #[trigger] columns_view(columns)[depth][i]
                == columns[depth]@[i]@,
{
}

/// Another box changes nothing else of a vertex, and where its edges lead is told by its list
/// of edges.
pub proof fn law_box_is_all_that_placing_changes(vtx: VertexView, g: SasGeometry)
    ensures
        vtx.placed(g).geometry == g,
        vtx.placed(g).fmri == vtx.fmri,
        vtx.placed(g).name == vtx.name,
        vtx.placed(g).instance == vtx.instance,
        vtx.placed(g).properties == vtx.properties,
        vtx.placed(g).outgoing_edges == vtx.outgoing_edges,
        vtx.outgoing_edges is None ==> vtx.edges().len() == 0,
        vtx.outgoing_edges matches Some(edges) ==> vtx.edges() == edges,
{
}

} // verus!
