//! Laws of the drawing: what its elements show.

use vstd::prelude::*;

use crate::digraph::{keyed, DigraphView, PropertyView, SasGeometry, VertexView};
use crate::drawing::{
    all_placements, drawing, drawn, edge_nodes, lemma_laid_out, lemma_placements_known, page,
    page_height, page_width, script_element, vertex_nodes, Rendering,
};
use crate::elements::{
    frame_attributes, heading_at, info_panel, joints, label_at, line_between, vertex_lines,
    vertex_node, with_properties,
};
use crate::laws::{
    law_edges_lead_to_next_column, law_properties_are_attributes,
    law_properties_keep_other_attributes,
};
use crate::layout::{
    layout_of, lemma_box_fits, lemma_layout, lemma_placed, lemma_placed_all, not_given_from,
    placed, Placement,
};
use crate::layout_laws::{
    before_column, law_boxes_stand_on_a_grid, lemma_fmri_of_box, lemma_place_of_box,
};
use crate::markup::{document_node, no_attributes, SvgNode};
use crate::rendering::is_rendering;
use crate::script::ONCLICK;
use crate::text::digits;
use crate::walk::{fabric_end, WalkEnd};
use crate::walking_laws::law_no_columns_without_initiators;

verus! {

/// An element has an attribute with a text.
pub open spec fn has(node: SvgNode, name: Seq<char>, text: Seq<char>) -> bool {
    &&& node is Element
    &&& node->attributes.contains_key(name)
    &&& node->attributes[name] == text
}

/// An element has an attribute with a number.
pub open spec fn has_number(node: SvgNode, name: Seq<char>, n: int) -> bool {
    n >= 0 && has(node, name, digits(n as nat, 10))
}

/// A line from one point to another.
pub open spec fn is_line(node: SvgNode, x1: int, y1: int, x2: int, y2: int) -> bool {
    &&& node is Element
    &&& node->tag == "line"@
    &&& node->children.len() == 0
    &&& has_number(node, "x1"@, x1)
    &&& has_number(node, "y1"@, y1)
    &&& has_number(node, "x2"@, x2)
    &&& has_number(node, "y2"@, y2)
    &&& has(node, "stroke"@, "black"@)
    &&& has(node, "stroke-width"@, "2"@)
    &&& node->attributes.dom() == set![
        "x1"@,
        "y1"@,
        "x2"@,
        "y2"@,
        "stroke"@,
        "stroke-width"@,
    ]
}

/// A text at a point.
pub open spec fn is_text(node: SvgNode, x: int, y: int, content: Seq<char>) -> bool {
    &&& node is Element
    &&& node->tag == "text"@
    &&& has_number(node, "x"@, x)
    &&& has_number(node, "y"@, y)
    &&& has(node, "font-family"@, "Courier New, Courier, monospace"@)
    &&& node->attributes.dom() == set!["x"@, "y"@, "font-family"@]
    &&& node->children.len() == 1
    &&& node->children[0] == SvgNode::Text(content)
}

/// A large text at a point.
pub open spec fn is_heading(node: SvgNode, x: int, y: int, content: Seq<char>) -> bool {
    &&& node is Element
    &&& node->tag == "text"@
    &&& has_number(node, "x"@, x)
    &&& has_number(node, "y"@, y)
    &&& has(node, "font-family"@, "Courier New, Courier, monospace"@)
    &&& has(node, "font-size"@, "x-large"@)
    &&& node->attributes.dom() == set!["x"@, "y"@, "font-size"@, "font-family"@]
    &&& node->children.len() == 1
    &&& node->children[0] == SvgNode::Text(content)
}

/// A black frame, which may have a name.
pub open spec fn is_frame(node: SvgNode, x: int, y: int, width: int, height: int) -> bool {
    &&& node is Element
    &&& node->tag == "rect"@
    &&& node->children.len() == 0
    &&& has_number(node, "x"@, x)
    &&& has_number(node, "y"@, y)
    &&& has_number(node, "width"@, width)
    &&& has_number(node, "height"@, height)
    &&& has(node, "fill"@, "none"@)
    &&& has(node, "stroke"@, "black"@)
    &&& has_number(node, "stroke-width"@, 3)
    &&& node->attributes.dom().remove("name"@) == set![
        "x"@,
        "y"@,
        "width"@,
        "height"@,
        "fill"@,
        "stroke"@,
        "stroke-width"@,
    ]
}

/// The names of the attributes of a line differ.
proof fn lemma_line_names()
    ensures
        "x1"@ != "y1"@,
        "x1"@ != "x2"@,
        "x1"@ != "y2"@,
        "y1"@ != "x2"@,
        "y1"@ != "y2"@,
        "x2"@ != "y2"@,
        "x1"@.len() == 2,
        "y1"@.len() == 2,
        "x2"@.len() == 2,
        "y2"@.len() == 2,
        "stroke"@.len() == 6,
        "stroke-width"@.len() == 12,
{
    reveal_strlit("x1");
    reveal_strlit("y1");
    reveal_strlit("x2");
    reveal_strlit("y2");
    reveal_strlit("stroke");
    reveal_strlit("stroke-width");
    assert("x1"@[0] != "y1"@[0]);
    assert("x1"@[1] != "x2"@[1]);
    assert("x1"@[0] != "y2"@[0]);
    assert("y1"@[0] != "x2"@[0]);
    assert("y1"@[1] != "y2"@[1]);
    assert("x2"@[0] != "y2"@[0]);
}

/// The names of the attributes of boxes and labels differ.
proof fn lemma_box_names()
    ensures
        "x"@ != "y"@,
        "name"@ != "fill"@,
        "name"@ != "fmri"@,
        "width"@ != "stroke"@,
        "width"@ != "height"@,
        "stroke"@ != "height"@,
        "x"@.len() == 1,
        "y"@.len() == 1,
        "fill"@.len() == 4,
        "fmri"@.len() == 4,
        "name"@.len() == 4,
        "width"@.len() == 5,
        "height"@.len() == 6,
        "stroke"@.len() == 6,
        "onclick"@.len() == 7,
        "font-size"@.len() == 9,
        "font-family"@.len() == 11,
        "stroke-width"@.len() == 12,
{
    reveal_strlit("x");
    reveal_strlit("y");
    reveal_strlit("fill");
    reveal_strlit("fmri");
    reveal_strlit("name");
    reveal_strlit("width");
    reveal_strlit("height");
    reveal_strlit("stroke");
    reveal_strlit("onclick");
    reveal_strlit("font-size");
    reveal_strlit("font-family");
    reveal_strlit("stroke-width");
    assert("x"@[0] != "y"@[0]);
    assert("name"@[0] != "fill"@[0]);
    assert("name"@[0] != "fmri"@[0]);
    assert("stroke"@[0] != "height"@[0]);
    assert("width"@.len() != "height"@.len());
    assert("width"@.len() != "stroke"@.len());
}

proof fn lemma_line(x1: nat, y1: nat, x2: nat, y2: nat)
    ensures
        is_line(line_between(x1, y1, x2, y2), x1 as int, y1 as int, x2 as int, y2 as int),
{
    lemma_line_names();
    assert("stroke"@.len() != "stroke-width"@.len());
    assert("x1"@.len() != "stroke"@.len());
    assert("x1"@.len() != "stroke-width"@.len());
    assert(line_between(x1, y1, x2, y2)->attributes.dom() =~= set![
        "x1"@,
        "y1"@,
        "x2"@,
        "y2"@,
        "stroke"@,
        "stroke-width"@,
    ]);
}

proof fn lemma_text(x: nat, y: nat, content: Seq<char>)
    ensures
        is_text(label_at(x, y, content), x as int, y as int, content),
        is_heading(heading_at(x, y, content), x as int, y as int, content),
{
    lemma_box_names();
    assert("x"@.len() != "font-size"@.len());
    assert("x"@.len() != "font-family"@.len());
    assert("font-size"@.len() != "font-family"@.len());
    assert(label_at(x, y, content)->attributes.dom() =~= set!["x"@, "y"@, "font-family"@]);
    assert(heading_at(x, y, content)->attributes.dom() =~= set![
        "x"@,
        "y"@,
        "font-size"@,
        "font-family"@,
    ]);
}

proof fn lemma_frame(g: SasGeometry, node: SvgNode)
    requires
        node == (SvgNode::Element {
            tag: "rect"@,
            attributes: frame_attributes(g),
            children: Seq::empty(),
        }) || node == (SvgNode::Element {
            tag: "rect"@,
            attributes: frame_attributes(g).insert("name"@, "infobox"@),
            children: Seq::empty(),
        }),
    ensures
        is_frame(node, g.x as int, g.y as int, g.width as int, g.height as int),
{
    lemma_box_names();
    assert("x"@.len() != "name"@.len());
    assert("name"@.len() != "width"@.len());
    assert("name"@.len() != "height"@.len());
    assert("name"@.len() != "stroke"@.len());
    assert("name"@.len() != "stroke-width"@.len());
    assert("fill"@.len() != "stroke"@.len());
    assert("stroke"@.len() != "stroke-width"@.len());
    assert("width"@.len() != "stroke-width"@.len());
    assert(node->attributes.dom().remove("name"@) =~= set![
        "x"@,
        "y"@,
        "width"@,
        "height"@,
        "fill"@,
        "stroke"@,
        "stroke-width"@,
    ]);
}

/// The panel shows the host: its name, the version of its system and the time of the
/// snapshot, each behind what it is, below a heading, and it ends with a heading for the
/// properties of a vertex.
pub open spec fn shows_host(panel: SvgNode, d: DigraphView) -> bool {
    &&& panel is Element
    &&& panel->tag == "g"@
    &&& panel->attributes.dom() == Set::<Seq<char>>::empty()
    &&& panel->children.len() == 6
    &&& is_frame(panel->children[0], 10, 10, 700, 1000)
    &&& has(panel->children[0], "name"@, "infobox"@)
    &&& is_heading(panel->children[1], 15, 30, "Host Information"@)
    &&& is_text(panel->children[2], 15, 50, "Nodename: "@ + d.nodename)
    &&& is_text(panel->children[3], 15, 70, "OS Version: "@ + d.os_version)
    &&& is_text(panel->children[4], 15, 90, "Snapshot Time: "@ + d.timestamp)
    &&& is_heading(panel->children[5], 15, 130, "Node Properties"@)
}

/// The panel shows the host, whatever else the fabric holds.
pub proof fn law_panel_shows_host(d: DigraphView)
    ensures
        shows_host(info_panel(d), d),
{
    let panel = info_panel(d);
    lemma_frame(SasGeometry { x: 10, y: 10, width: 700, height: 1000 }, panel->children[0]);
    lemma_text(15, 30, "Host Information"@);
    lemma_text(15, 50, "Nodename: "@ + d.nodename);
    lemma_text(15, 70, "OS Version: "@ + d.os_version);
    lemma_text(15, 90, "Snapshot Time: "@ + d.timestamp);
    lemma_text(15, 130, "Node Properties"@);
    assert(panel->attributes.dom() =~= Set::<Seq<char>>::empty());
}

/// A property is the last with its name.
pub open spec fn last_of_name(properties: Seq<PropertyView>, i: int) -> bool {
    &&& 0 <= i < properties.len()
    &&& forall|j: int|
        i < j < properties.len() ==> (#[trigger] properties[j]).name != properties[i].name
}

/// No property has a name.
pub open spec fn none_named(properties: Seq<PropertyView>, name: Seq<char>) -> bool {
    forall|j: int| 0 <= j < properties.len() ==> (#[trigger] properties[j]).name != name
}

/// The element of a vertex carries all its properties as attributes, and where they do not
/// say otherwise its name, its FMRI and what a click does, and no other attribute.
pub open spec fn carries_properties(node: SvgNode, vtx: VertexView) -> bool {
    &&& forall|i: int| #[trigger]
        last_of_name(vtx.properties, i) ==> has(
            node,
            vtx.properties[i].name,
            vtx.properties[i].value,
        )
    &&& none_named(vtx.properties, "onclick"@) ==> has(node, "onclick"@, "showInfo(evt)"@)
    &&& none_named(vtx.properties, "name"@) ==> has(node, "name"@, vtx.name)
    &&& none_named(vtx.properties, "fmri"@) ==> has(node, "fmri"@, vtx.fmri)
    &&& forall|name: Seq<char>| #[trigger]
        node->attributes.contains_key(name) && none_named(vtx.properties, name) ==> name
            == "onclick"@ || name == "name"@ || name == "fmri"@
}

/// An element shows a vertex in a box: a frame, and in it the name of the vertex and below
/// that its instance number in hexadecimal digits.
pub open spec fn shows_vertex(node: SvgNode, vtx: VertexView, g: SasGeometry) -> bool {
    &&& node is Element
    &&& node->tag == "g"@
    &&& carries_properties(node, vtx)
    &&& node->children.len() == 3
    &&& is_frame(
        node->children[0],
        g.x as int,
        g.y as int,
        g.width as int,
        g.height as int,
    )
    &&& !node->children[0]->attributes.contains_key("name"@)
    &&& is_text(node->children[1], g.x + 10, g.y + 20, vtx.name)
    &&& is_text(node->children[2], g.x + 10, g.y + 50, digits(vtx.instance as nat, 16))
}

proof fn lemma_no_more_attributes(
    attributes: Map<Seq<char>, Seq<char>>,
    properties: Seq<PropertyView>,
    name: Seq<char>,
)
    requires
        none_named(properties, name),
        with_properties(attributes, properties).contains_key(name),
    ensures
        attributes.contains_key(name),
    decreases properties.len(),
{
    if properties.len() > 0 {
        let front = properties.drop_last();
        assert(properties[properties.len() - 1].name != name);
        assert forall|j: int| 0 <= j < front.len() implies (#[trigger] front[j]).name != name by {
            assert(front[j] == properties[j]);
        }
        lemma_no_more_attributes(attributes, front, name);
    }
}

/// The element of a vertex shows the vertex, whatever its edges: its box, its name, its
/// instance number, and as attributes every property that no later one of the same name
/// follows.
pub proof fn law_element_shows_vertex(vtx: VertexView, g: SasGeometry)
    ensures
        shows_vertex(vertex_node(vtx, g), vtx, g),
{
    let node = vertex_node(vtx, g);
    let own = no_attributes().insert("onclick"@, "showInfo(evt)"@).insert(
        "name"@,
        vtx.name,
    ).insert("fmri"@, vtx.fmri);
    lemma_box_names();
    assert("name"@.len() != "onclick"@.len());
    assert("fmri"@.len() != "onclick"@.len());
    assert(node->attributes == with_properties(own, vtx.properties));
    assert forall|i: int| #[trigger] last_of_name(vtx.properties, i) implies has(
        node,
        vtx.properties[i].name,
        vtx.properties[i].value,
    ) by {
        law_properties_are_attributes(own, vtx.properties, i);
    }
    if none_named(vtx.properties, "onclick"@) {
        law_properties_keep_other_attributes(own, vtx.properties, "onclick"@);
    }
    if none_named(vtx.properties, "name"@) {
        law_properties_keep_other_attributes(own, vtx.properties, "name"@);
    }
    if none_named(vtx.properties, "fmri"@) {
        law_properties_keep_other_attributes(own, vtx.properties, "fmri"@);
    }
    assert forall|name: Seq<char>| #[trigger]
        node->attributes.contains_key(name) && none_named(vtx.properties, name) implies name
        == "onclick"@ || name == "name"@ || name == "fmri"@ by {
        lemma_no_more_attributes(own, vtx.properties, name);
    }
    assert(carries_properties(node, vtx));
    lemma_frame(g, node->children[0]);
    assert("name"@.len() != "x"@.len());
    assert("name"@.len() != "width"@.len());
    assert("name"@.len() != "height"@.len());
    assert("name"@.len() != "stroke-width"@.len());
    lemma_text((g.x + 10) as nat, (g.y + 20) as nat, vtx.name);
    lemma_text((g.x + 10) as nat, (g.y + 50) as nat, digits(vtx.instance as nat, 16));
}

/// How many lines the edges of a vertex take: none without a list of edges, else one that
/// leaves the vertex and two to each end.
pub open spec fn line_count(vtx: VertexView) -> nat {
    if vtx.outgoing_edges is Some {
        1 + 2 * vtx.outgoing_edges->0.len()
    } else {
        0
    }
}

/// Lines join a vertex to the ends of its edges: the first leaves the right side of its box
/// at half the height. From where that ends, one goes up or down to half the height of the
/// end's box, and one from there to the left side of that box.
pub open spec fn lines_join(
    lines: Seq<SvgNode>,
    vertices: Map<Seq<char>, VertexView>,
    vtx: VertexView,
) -> bool {
    let g = vtx.geometry;
    &&& lines.len() == line_count(vtx)
    &&& vtx.outgoing_edges is Some ==> is_line(
        lines[0],
        g.x + 180,
        g.y + 35,
        g.x + 180 + 50,
        g.y + 35,
    )
    &&& vtx.outgoing_edges is Some ==> forall|j: int|
        0 <= j < vtx.outgoing_edges->0.len() ==> {
            let end = vertices[#[trigger] vtx.outgoing_edges->0[j]].geometry;
            &&& is_line(lines[1 + 2 * j], g.x + 180 + 50, g.y + 35, g.x + 180 + 50, end.y + 35)
            &&& is_line(lines[2 + 2 * j], g.x + 180 + 50, end.y + 35, end.x as int, end.y + 35)
        }
}

proof fn lemma_joints(
    vertices: Map<Seq<char>, VertexView>,
    vtx: VertexView,
    edges: Seq<Seq<char>>,
)
    ensures
        joints(vertices, vtx, edges).len() == 2 * edges.len(),
        forall|j: int|
            0 <= j < edges.len() ==> {
                let end = vertices[#[trigger] edges[j]].geometry;
                let g = vtx.geometry;
                let lines = joints(vertices, vtx, edges);
                &&& is_line(lines[2 * j], g.x + 180 + 50, g.y + 35, g.x + 180 + 50, end.y + 35)
                &&& is_line(
                    lines[2 * j + 1],
                    g.x + 180 + 50,
                    end.y + 35,
                    end.x as int,
                    end.y + 35,
                )
            },
    decreases edges.len(),
{
    if edges.len() > 0 {
        let front = edges.drop_last();
        let before = joints(vertices, vtx, front);
        let lines = joints(vertices, vtx, edges);
        lemma_joints(vertices, vtx, front);
        assert forall|j: int| 0 <= j < edges.len() implies {
            let end = vertices[#[trigger] edges[j]].geometry;
            let g = vtx.geometry;
            &&& is_line(lines[2 * j], g.x + 180 + 50, g.y + 35, g.x + 180 + 50, end.y + 35)
            &&& is_line(lines[2 * j + 1], g.x + 180 + 50, end.y + 35, end.x as int, end.y + 35)
        } by {
            if j < front.len() {
                assert(front[j] == edges[j]);
                assert(lines[2 * j] == before[2 * j]);
                assert(lines[2 * j + 1] == before[2 * j + 1]);
            } else {
                let g = vtx.geometry;
                let end = vertices[edges[j]].geometry;
                lemma_line(
                    (g.x + 180 + 50) as nat,
                    (g.y + 35) as nat,
                    (g.x + 180 + 50) as nat,
                    (end.y + 35) as nat,
                );
                lemma_line(
                    (g.x + 180 + 50) as nat,
                    (end.y + 35) as nat,
                    end.x as nat,
                    (end.y + 35) as nat,
                );
            }
        }
    }
}

proof fn lemma_vertex_lines(vertices: Map<Seq<char>, VertexView>, vtx: VertexView)
    ensures
        lines_join(vertex_lines(vertices, vtx), vertices, vtx),
{
    if vtx.outgoing_edges is Some {
        let edges = vtx.outgoing_edges->0;
        let g = vtx.geometry;
        let lines = vertex_lines(vertices, vtx);
        lemma_line(
            (g.x + 180) as nat,
            (g.y + 35) as nat,
            (g.x + 180 + 50) as nat,
            (g.y + 35) as nat,
        );
        lemma_joints(vertices, vtx, edges);
        assert forall|j: int| 0 <= j < edges.len() implies {
            let end = vertices[#[trigger] edges[j]].geometry;
            &&& is_line(lines[1 + 2 * j], g.x + 180 + 50, g.y + 35, g.x + 180 + 50, end.y + 35)
            &&& is_line(lines[2 + 2 * j], g.x + 180 + 50, end.y + 35, end.x as int, end.y + 35)
        } by {
            assert(lines[1 + 2 * j] == joints(vertices, vtx, edges)[2 * j]);
            assert(lines[2 + 2 * j] == joints(vertices, vtx, edges)[2 * j + 1]);
        }
    }
}

/// How many lines the vertices of the first boxes take.
pub open spec fn lines_before(
    vertices: Map<Seq<char>, VertexView>,
    ps: Seq<Placement>,
    b: int,
) -> nat
    decreases b,
{
    if b <= 0 {
        0
    } else {
        lines_before(vertices, ps, b - 1) + line_count(vertices[ps[b - 1].fmri])
    }
}

proof fn lemma_lines_before_front(
    vertices: Map<Seq<char>, VertexView>,
    ps: Seq<Placement>,
    b: int,
)
    requires
        0 <= b < ps.len(),
    ensures
        lines_before(vertices, ps.drop_last(), b) == lines_before(vertices, ps, b),
    decreases b,
{
    if b > 0 {
        lemma_lines_before_front(vertices, ps, b - 1);
        assert(ps.drop_last()[b - 1] == ps[b - 1]);
    }
}

proof fn lemma_edge_nodes_at(vertices: Map<Seq<char>, VertexView>, ps: Seq<Placement>, b: int)
    requires
        0 <= b < ps.len(),
    ensures
        edge_nodes(vertices, ps).len() == lines_before(vertices, ps, ps.len() as int),
        lines_before(vertices, ps, b) + line_count(vertices[ps[b].fmri]) <= edge_nodes(
            vertices,
            ps,
        ).len(),
        edge_nodes(vertices, ps).subrange(
            lines_before(vertices, ps, b) as int,
            (lines_before(vertices, ps, b) + line_count(vertices[ps[b].fmri])) as int,
        ) == vertex_lines(vertices, vertices[ps[b].fmri]),
    decreases ps.len(),
{
    let front = ps.drop_last();
    let before = edge_nodes(vertices, front);
    let last = vertex_lines(vertices, vertices[ps.last().fmri]);
    let all = edge_nodes(vertices, ps);
    lemma_vertex_lines(vertices, vertices[ps.last().fmri]);
    lemma_lines_before_front(vertices, ps, front.len() as int);
    lemma_edge_nodes_len(vertices, front);
    if b < front.len() {
        lemma_edge_nodes_at(vertices, front, b);
        lemma_lines_before_front(vertices, ps, b);
        assert(front[b] == ps[b]);
        let start = lines_before(vertices, ps, b) as int;
        let end = start + line_count(vertices[ps[b].fmri]);
        assert(all.subrange(start, end) =~= before.subrange(start, end));
    } else {
        assert(all.subrange(before.len() as int, all.len() as int) =~= last);
    }
}

proof fn lemma_edge_nodes_len(vertices: Map<Seq<char>, VertexView>, ps: Seq<Placement>)
    ensures
        edge_nodes(vertices, ps).len() == lines_before(vertices, ps, ps.len() as int),
    decreases ps.len(),
{
    if ps.len() > 0 {
        lemma_edge_nodes_len(vertices, ps.drop_last());
        lemma_lines_before_front(vertices, ps, ps.len() - 1);
        lemma_vertex_lines(vertices, vertices[ps.last().fmri]);
    }
}

/// The vertex at every place of the columns is shown in the drawing, behind the script and
/// the panel, in the order of the boxes: at the coordinates of its place.
pub proof fn law_drawing_shows_every_place(d: DigraphView, k: nat, i: int)
    requires
        keyed(d.vertices),
        fabric_end(d) == WalkEnd::Finished,
        layout_of(d).fits(),
        1 <= k <= layout_of(d).max_depth,
        0 <= i < layout_of(d).column(k).len(),
    ensures
        ({
            let l = layout_of(d);
            let at = 2 + before_column(l, k) + i;
            let x = 750 + 250 * (k - 1);
            let y = 10 + 100 * (i * (l.max_height / l.column(k).len()));
            &&& at < drawing(d)->children.len()
            &&& 0 <= x <= u32::MAX && 0 <= y <= u32::MAX
            &&& shows_vertex(
                drawing(d)->children[at],
                d.vertices[l.column(k)[i]],
                SasGeometry { x: x as u32, y: y as u32, width: 180, height: 70 },
            )
        }),
{
    let l = layout_of(d);
    let b = before_column(l, k) + i;
    let ps = all_placements(d);
    law_boxes_stand_on_a_grid(d, k, i);
    law_element_shows_vertex(d.vertices[ps[b].fmri], ps[b].geometry);
    assert(drawing(d)->children[2 + b] == vertex_nodes(d.vertices, ps)[b]);
}

/// All boxes of drawn vertices have the same size.
proof fn lemma_drawn_size(d: DigraphView, k: nat, i: int)
    requires
        keyed(d.vertices),
        fabric_end(d) == WalkEnd::Finished,
        layout_of(d).fits(),
        1 <= k <= layout_of(d).max_depth,
        0 <= i < layout_of(d).column(k).len(),
    ensures
        drawn(d).vertices[layout_of(d).column(k)[i]].geometry.width == 180,
        drawn(d).vertices[layout_of(d).column(k)[i]].geometry.height == 70,
{
    let l = layout_of(d);
    let ps = all_placements(d);
    let sized = |g: SasGeometry| g.width == 180 && g.height == 70;
    assert forall|b: int| 0 <= b < ps.len() implies sized((#[trigger] ps[b]).geometry) by {
        let (m, j) = lemma_place_of_box(l, l.max_depth, b);
        law_boxes_stand_on_a_grid(d, m, j);
    }
    lemma_placed_all(d.vertices, ps, sized);
    law_boxes_stand_on_a_grid(d, k, i);
    let b = before_column(l, k) + i;
    assert(sized(placed(d.vertices, ps)[ps[b].fmri].geometry));
}

/// The lines of the vertex at a place of the columns, in the drawing.
pub open spec fn lines_of_place(d: DigraphView, k: nat, i: int) -> Seq<SvgNode> {
    let ps = all_placements(d);
    let vtx = d.vertices[layout_of(d).column(k)[i]];
    let start = 2 + ps.len() + lines_before(
        d.vertices,
        ps,
        before_column(layout_of(d), k) + i,
    );
    drawing(d)->children.subrange(start as int, (start + line_count(vtx)) as int)
}

/// Behind all vertices the drawing holds the lines of their edges, vertex by vertex, and
/// nothing else. They join the boxes that the vertices have once the fabric is drawn.
pub proof fn law_drawing_joins_every_place(d: DigraphView, k: nat, i: int)
    requires
        keyed(d.vertices),
        fabric_end(d) == WalkEnd::Finished,
        layout_of(d).fits(),
        1 <= k <= layout_of(d).max_depth,
        0 <= i < layout_of(d).column(k).len(),
    ensures
        drawing(d)->children.len() == 2 + all_placements(d).len() + lines_before(
            d.vertices,
            all_placements(d),
            all_placements(d).len() as int,
        ),
        lines_join(
            lines_of_place(d, k, i),
            drawn(d).vertices,
            drawn(d).vertices[layout_of(d).column(k)[i]],
        ),
{
    let vs = drawn(d).vertices;
    lemma_lines_of_place(d, k, i);
    lemma_vertex_lines(vs, vs[layout_of(d).column(k)[i]]);
}

proof fn lemma_part_of_end<A>(front: Seq<A>, end: Seq<A>, a: int, b: int)
    requires
        0 <= a <= b <= end.len(),
    ensures
        (front + end).subrange(front.len() + a, front.len() + b) == end.subrange(a, b),
{
    assert((front + end).subrange(front.len() + a, front.len() + b) =~= end.subrange(a, b));
}

proof fn lemma_lines_of_place(d: DigraphView, k: nat, i: int)
    requires
        keyed(d.vertices),
        fabric_end(d) == WalkEnd::Finished,
        layout_of(d).fits(),
        1 <= k <= layout_of(d).max_depth,
        0 <= i < layout_of(d).column(k).len(),
    ensures
        drawing(d)->children.len() == 2 + all_placements(d).len() + lines_before(
            d.vertices,
            all_placements(d),
            all_placements(d).len() as int,
        ),
        lines_of_place(d, k, i) == vertex_lines(
            drawn(d).vertices,
            drawn(d).vertices[layout_of(d).column(k)[i]],
        ),
{
    let ps = all_placements(d);
    let b = before_column(layout_of(d), k) + i;
    let fmri = layout_of(d).column(k)[i];
    let vs = drawn(d).vertices;
    law_boxes_stand_on_a_grid(d, k, i);
    lemma_edge_nodes_at(vs, ps, b);
    lemma_lines_before_drawn(d, b);
    lemma_lines_before_drawn(d, ps.len() as int);
    lemma_kept_edges(d, b);
    let start = lines_before(d.vertices, ps, b) as int;
    let end = start + line_count(d.vertices[fmri]);
    let front = seq![script_element(), info_panel(d)] + vertex_nodes(d.vertices, ps);
    let lines = edge_nodes(vs, ps);
    lemma_part_of_end(front, lines, start, end);
    assert(front.len() == 2 + ps.len());
    assert(drawing(d)->children == front + lines);
}

proof fn lemma_kept_edges(d: DigraphView, b: int)
    requires
        keyed(d.vertices),
        fabric_end(d) == WalkEnd::Finished,
        layout_of(d).fits(),
        0 <= b < all_placements(d).len(),
    ensures
        drawn(d).vertices[all_placements(d)[b].fmri].outgoing_edges
            == d.vertices[all_placements(d)[b].fmri].outgoing_edges,
{
    let ps = all_placements(d);
    lemma_laid_out(d);
    lemma_placements_known(layout_of(d), d.vertices, layout_of(d).max_depth);
    assert(d.vertices.contains_key(ps[b].fmri));
    lemma_placed(d.vertices, ps);
}

proof fn lemma_lines_before_drawn(d: DigraphView, b: int)
    requires
        keyed(d.vertices),
        fabric_end(d) == WalkEnd::Finished,
        layout_of(d).fits(),
        0 <= b <= all_placements(d).len(),
    ensures
        lines_before(drawn(d).vertices, all_placements(d), b) == lines_before(
            d.vertices,
            all_placements(d),
            b,
        ),
    decreases b,
{
    if b > 0 {
        lemma_lines_before_drawn(d, b - 1);
        lemma_kept_edges(d, b - 1);
    }
}

/// A line leaves the right side of a box.
pub open spec fn leaves(line: SvgNode, g: SasGeometry) -> bool {
    exists|x1: int, y1: int, x2: int, y2: int| #[trigger]
        is_line(line, x1, y1, x2, y2) && x1 == g.x + g.width && g.y < y1 < g.y + g.height
}

/// A line ends at the left side of a box.
pub open spec fn reaches(line: SvgNode, g: SasGeometry) -> bool {
    exists|x1: int, y1: int, x2: int, y2: int| #[trigger]
        is_line(line, x1, y1, x2, y2) && x2 == g.x && g.y < y2 < g.y + g.height
}

/// A line starts where another ends.
pub open spec fn continues(first: SvgNode, next: SvgNode) -> bool {
    exists|x1: int, y1: int, x: int, y: int, x2: int, y2: int| #[trigger]
        is_line(first, x1, y1, x, y) && #[trigger] is_line(next, x, y, x2, y2)
}

/// A way of lines leads from the box of every vertex that is drawn with a list of edges to
/// the box of each of the edges' ends: the first line leaves the right side of the vertex's
/// own box, each goes on where the one before on its way ended, and the last ends at the
/// left side of the box of the end.
pub proof fn law_lines_lead_from_box_to_box(d: DigraphView, k: nat, i: int)
    requires
        keyed(d.vertices),
        fabric_end(d) == WalkEnd::Finished,
        layout_of(d).fits(),
        1 <= k <= layout_of(d).max_depth,
        0 <= i < layout_of(d).column(k).len(),
        d.vertices[layout_of(d).column(k)[i]].outgoing_edges is Some,
    ensures
        ({
            let lines = lines_of_place(d, k, i);
            let fmri = layout_of(d).column(k)[i];
            let edges = d.vertices[fmri].outgoing_edges->0;
            let vs = drawn(d).vertices;
            &&& lines.len() == 1 + 2 * edges.len()
            &&& leaves(lines[0], vs[fmri].geometry)
            &&& forall|j: int|
                0 <= j < edges.len() ==> {
                    let end = vs[#[trigger] edges[j]].geometry;
                    &&& continues(lines[0], lines[1 + 2 * j])
                    &&& continues(lines[1 + 2 * j], lines[2 + 2 * j])
                    &&& reaches(lines[2 + 2 * j], end)
                }
        }),
{
    let l = layout_of(d);
    let lines = lines_of_place(d, k, i);
    let fmri = l.column(k)[i];
    let edges = d.vertices[fmri].outgoing_edges->0;
    let vs = drawn(d).vertices;
    let g = vs[fmri].geometry;
    law_boxes_stand_on_a_grid(d, k, i);
    lemma_kept_edges(d, before_column(l, k) + i);
    law_drawing_joins_every_place(d, k, i);
    lemma_drawn_size(d, k, i);
    assert(is_line(lines[0], g.x + 180, g.y + 35, g.x + 180 + 50, g.y + 35));
    assert forall|j: int| 0 <= j < edges.len() implies {
        let end = vs[#[trigger] edges[j]].geometry;
        &&& continues(lines[0], lines[1 + 2 * j])
        &&& continues(lines[1 + 2 * j], lines[2 + 2 * j])
        &&& reaches(lines[2 + 2 * j], end)
    } by {
        let end = vs[edges[j]].geometry;
        assert(d.vertices[fmri].edges() == edges);
        law_edges_lead_to_next_column(d, k, i, j);
        let next = l.column(k + 1);
        let m = choose|m: int| 0 <= m < next.len() && next[m] == edges[j];
        lemma_drawn_size(d, k + 1, m);
        assert(vs[fmri].outgoing_edges->0[j] == edges[j]);
        assert(is_line(lines[1 + 2 * j], g.x + 180 + 50, g.y + 35, g.x + 180 + 50, end.y + 35));
        assert(is_line(lines[2 + 2 * j], g.x + 180 + 50, end.y + 35, end.x as int, end.y + 35));
    }
}

/// The document of a drawing: the script that a click calls, then the panel, then the
/// vertices, as many as there are places in the columns.
pub proof fn law_document_begins_with_script_and_panel(d: DigraphView)
    ensures
        ({
            let node = drawing(d);
            let l = layout_of(d);
            &&& node is Element
            &&& node->tag == "svg"@
            &&& has(node, "xmlns"@, "http://www.w3.org/2000/svg"@)
            &&& has(node, "overflow"@, "scroll"@)
            &&& has(
                node,
                "viewbox"@,
                "0 0 "@ + digits(100 * l.max_depth, 10) + " "@ + digits(250 * l.max_height, 10),
            )
            &&& forall|name: Seq<char>| #[trigger]
                node->attributes.contains_key(name) ==> name == "xmlns"@ || name == "overflow"@
                    || name == "viewbox"@
            &&& node->children.len() >= 2
            &&& is_script(node->children[0])
            &&& shows_host(node->children[1], d)
        }),
{
    let node = drawing(d);
    let l = layout_of(d);
    reveal_strlit("xmlns");
    reveal_strlit("overflow");
    reveal_strlit("viewbox");
    assert("xmlns"@.len() != "overflow"@.len());
    assert("xmlns"@.len() != "viewbox"@.len());
    assert("overflow"@.len() != "viewbox"@.len());
    reveal_strlit("0 0 ");
    reveal_strlit(" ");
    assert(digits(0, 10) =~= seq!['0']);
    assert(digits(0, 10) + " "@ + digits(0, 10) + " "@ =~= "0 0 "@);
    law_panel_shows_host(d);
    assert(node->children[0] == script_element());
    assert(node->children[0]->attributes.dom() =~= set!["type"@]);
    assert(node->children[1] == info_panel(d));
}

/// The script element.
pub open spec fn is_script(node: SvgNode) -> bool {
    &&& node is Element
    &&& node->tag == "script"@
    &&& has(node, "type"@, "application/ecmascript"@)
    &&& node->attributes.dom() == set!["type"@]
    &&& node->children.len() == 1
    &&& node->children[0] == SvgNode::Text(ONCLICK@)
}

/// A fabric without columns is drawn as the script and the panel alone.
pub proof fn law_empty_drawing(d: DigraphView)
    requires
        keyed(d.vertices),
        fabric_end(d) == WalkEnd::Finished,
        d.initiators.len() == 0,
    ensures
        drawing(d)->children.len() == 2,
        drawn(d) == d,
{
    law_no_columns_without_initiators(d);
    assert(all_placements(d) =~= Seq::empty());
    assert(drawn(d) =~= d);
}

/// Drawing a fabric keeps everything but boxes, and leaves those of vertices that stand in no
/// column.
pub proof fn law_drawing_keeps_vertices(d: DigraphView, fmri: Seq<char>)
    requires
        keyed(d.vertices),
        fabric_end(d) == WalkEnd::Finished,
    ensures
        drawn(d).nodename == d.nodename,
        drawn(d).os_version == d.os_version,
        drawn(d).timestamp == d.timestamp,
        drawn(d).initiators == d.initiators,
        drawn(d).vertices.contains_key(fmri) <==> d.vertices.contains_key(fmri),
        d.vertices.contains_key(fmri) ==> {
            let before = d.vertices[fmri];
            let after = drawn(d).vertices[fmri];
            &&& after.fmri == before.fmri
            &&& after.name == before.name
            &&& after.instance == before.instance
            &&& after.properties == before.properties
            &&& after.outgoing_edges == before.outgoing_edges
        },
        d.vertices.contains_key(fmri) && (forall|k: nat|
            1 <= k <= layout_of(d).max_depth ==> !(#[trigger] layout_of(d).column(k)).contains(
                fmri,
            )) ==> drawn(d).vertices[fmri].geometry == d.vertices[fmri].geometry,
{
    let l = layout_of(d);
    let ps = all_placements(d);
    lemma_laid_out(d);
    lemma_placements_known(l, d.vertices, l.max_depth);
    lemma_placed(d.vertices, ps);
    if d.vertices.contains_key(fmri) && (forall|k: nat|
        1 <= k <= l.max_depth ==> !(#[trigger] l.column(k)).contains(fmri)) {
        assert forall|b: int| 0 <= b < ps.len() implies (#[trigger] ps[b]).fmri != fmri by {
            let (m, j) = lemma_place_of_box(l, l.max_depth, b);
            lemma_fmri_of_box(l, l.max_depth, m, j);
            assert(!l.column(m).contains(fmri));
            assert(l.column(m)[j] != fmri);
        }
        assert(not_given_from(ps, 0, fmri));
    }
}

/// The frame of the page is as wide as 375 for each column, but at least 1800, and as high as
/// 100 for each vertex of the tallest column, but at least 1100.
pub proof fn law_page_has_room(d: DigraphView)
    ensures
        ({
            let l = layout_of(d);
            let width = page_width(l);
            let height = page_height(l);
            &&& width >= 1800 && width >= 375 * l.max_depth
            &&& width == 1800 || width == 375 * l.max_depth
            &&& height >= 1100 && height >= 100 * l.max_height
            &&& height == 1100 || height == 100 * l.max_height
        }),
{
}

/// No box that is drawn reaches below the frame of the page, nor beyond its right side unless
/// there are just five columns.
pub proof fn law_drawn_boxes_lie_within_page(d: DigraphView, k: nat, i: int)
    requires
        keyed(d.vertices),
        fabric_end(d) == WalkEnd::Finished,
        layout_of(d).fits(),
        1 <= k <= layout_of(d).max_depth,
        0 <= i < layout_of(d).column(k).len(),
    ensures
        ({
            let l = layout_of(d);
            let g = all_placements(d)[before_column(l, k) + i].geometry;
            &&& g.y + g.height <= page_height(l)
            &&& k < 5 || l.max_depth != 5 ==> g.x + g.width <= page_width(l)
        }),
{
    let l = layout_of(d);
    let len = l.column(k).len();
    let f = l.max_height / len;
    law_boxes_stand_on_a_grid(d, k, i);
    assert(i * f + f <= l.max_height) by (nonlinear_arith)
        requires
            i + 1 <= len,
            f == l.max_height / len,
            len > 0,
            i >= 0,
    ;
    lemma_layout(d);
    assert(l.column(k).len() <= l.max_height);
    lemma_box_fits(l, k, i as nat);
}

/// The page names the drawing's file, and gives the frame its width and height.
pub proof fn law_page_frames_drawing(svg_path: Seq<char>, width: nat, height: nat)
    ensures
        page(svg_path, width, height)
            == "<html><title>SAS Topology</title><body>\n<iframe src=\""@ + svg_path
            + "\" width="@ + digits(width, 10) + " height="@ + digits(height, 10)
            + " scrollable=\"yes\" frameborder=\"no\" /></body></html>\n"@,
{
    reveal_strlit("<html><title>SAS Topology</title><body>\n<iframe src=\"");
    reveal_strlit("<html><title>SAS Topology</title><body>\n");
    reveal_strlit("<iframe src=\"");
    reveal_strlit(" scrollable=\"yes\" frameborder=\"no\" /></body></html>\n");
    reveal_strlit(" scrollable=\"yes\" frameborder=\"no\" />");
    reveal_strlit("</body></html>\n");
    assert("<html><title>SAS Topology</title><body>\n"@ + "<iframe src=\""@
        =~= "<html><title>SAS Topology</title><body>\n<iframe src=\""@);
    assert(" scrollable=\"yes\" frameborder=\"no\" />"@ + "</body></html>\n"@
        =~= " scrollable=\"yes\" frameborder=\"no\" /></body></html>\n"@);
    assert(page(svg_path, width, height)
        =~= "<html><title>SAS Topology</title><body>\n<iframe src=\""@ + svg_path
        + "\" width="@ + digits(width, 10) + " height="@ + digits(height, 10)
        + " scrollable=\"yes\" frameborder=\"no\" /></body></html>\n"@);
}

/// What is written of a fabric: its drawing, in the file that the page names, which is named
/// as the page with `.svg` behind it.
pub proof fn law_rendering_is_drawing_and_page(r: Rendering, html_path: Seq<char>, d: DigraphView)
    requires
        is_rendering(r, html_path, d),
    ensures
        document_node(r.document) == drawing(d),
        r.svg_path@ == html_path + ".svg"@,
        r.html@ == "<html><title>SAS Topology</title><body>\n<iframe src=\""@ + html_path
            + ".svg\" width="@ + digits(page_width(layout_of(d)), 10) + " height="@ + digits(
            page_height(layout_of(d)),
            10,
        ) + " scrollable=\"yes\" frameborder=\"no\" /></body></html>\n"@,
{
    let width = page_width(layout_of(d));
    let height = page_height(layout_of(d));
    law_page_frames_drawing(r.svg_path@, width, height);
    reveal_strlit(".svg");
    reveal_strlit("\" width=");
    reveal_strlit(".svg\" width=");
    assert(".svg"@ + "\" width="@ =~= ".svg\" width="@);
    let head = "<html><title>SAS Topology</title><body>\n<iframe src=\""@;
    assert(head + (html_path + ".svg"@) + "\" width="@ =~= head + html_path + (".svg"@
        + "\" width="@));
}

} // verus!
