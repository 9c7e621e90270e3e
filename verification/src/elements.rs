//! The elements of the drawing: labels, boxes and lines.

use svg::node::element::{Group, Line, Rectangle, Text};
use vstd::prelude::*;

use crate::digraph::{
    property_views, DigraphView, PropertyView, SasDigraph, SasDigraphVertex, SasGeometry,
    SimpleError, VertexView,
};
use crate::layout::{VTX_HEIGHT, VTX_WIDTH};
use crate::markup::{
    add_label_to_group, add_rectangle_to_group, add_text_to_label, group_attributes, group_children,
    group_node, label_node, line_node, new_group, new_label, new_line, new_rectangle, new_text,
    no_attributes, rectangle_node, set_on_group, set_on_label, set_on_line, set_on_rectangle,
    value_of_number, value_of_text, SvgNode,
};
use crate::text::{digits, number_text};

verus! {

/// The fonts of all labels.
pub const FONT: &'static str = "Courier New, Courier, monospace";

/// A line of text with its left end at the given point.
pub open spec fn label_at(x: nat, y: nat, content: Seq<char>) -> SvgNode {
    SvgNode::Element {
        tag: "text"@,
        attributes: no_attributes().insert("x"@, digits(x, 10)).insert("y"@, digits(y, 10)).insert(
            "font-family"@,
            FONT@,
        ),
        children: seq![SvgNode::Text(content)],
    }
}

/// A line of large text.
pub open spec fn heading_at(x: nat, y: nat, content: Seq<char>) -> SvgNode {
    SvgNode::Element {
        tag: "text"@,
        attributes: no_attributes().insert("x"@, digits(x, 10)).insert("y"@, digits(y, 10)).insert(
            "font-size"@,
            "x-large"@,
        ).insert("font-family"@, FONT@),
        children: seq![SvgNode::Text(content)],
    }
}

/// An empty box with a black frame.
pub open spec fn frame_attributes(g: SasGeometry) -> Map<Seq<char>, Seq<char>> {
    no_attributes().insert("x"@, digits(g.x as nat, 10)).insert(
        "y"@,
        digits(g.y as nat, 10),
    ).insert("width"@, digits(g.width as nat, 10)).insert(
        "height"@,
        digits(g.height as nat, 10),
    ).insert("fill"@, "none"@).insert("stroke"@, "black"@).insert("stroke-width"@, digits(3, 10))
}

/// A black line from one point to another.
pub open spec fn line_between(x1: nat, y1: nat, x2: nat, y2: nat) -> SvgNode {
    SvgNode::Element {
        tag: "line"@,
        attributes: no_attributes().insert("x1"@, digits(x1, 10)).insert(
            "y1"@,
            digits(y1, 10),
        ).insert("x2"@, digits(x2, 10)).insert("y2"@, digits(y2, 10)).insert(
            "stroke"@,
            "black"@,
        ).insert("stroke-width"@, "2"@),
        children: Seq::empty(),
    }
}

/// The panel that tells of the host, with room for the properties of a vertex.
pub open spec fn info_panel(d: DigraphView) -> SvgNode {
    SvgNode::Element {
        tag: "g"@,
        attributes: no_attributes(),
        children: seq![
            SvgNode::Element {
                tag: "rect"@,
                attributes: frame_attributes(
                    SasGeometry { x: 10, y: 10, width: 700, height: 1000 },
                ).insert("name"@, "infobox"@),
                children: Seq::empty(),
            },
            heading_at(15, 30, "Host Information"@),
            label_at(15, 50, "Nodename: "@ + d.nodename),
            label_at(15, 70, "OS Version: "@ + d.os_version),
            label_at(15, 90, "Snapshot Time: "@ + d.timestamp),
            heading_at(15, 130, "Node Properties"@),
        ],
    }
}

/// Attributes once those of a list of properties have been set, one after the other.
pub open spec fn with_properties(
    attributes: Map<Seq<char>, Seq<char>>,
    properties: Seq<PropertyView>,
) -> Map<Seq<char>, Seq<char>>
    decreases properties.len(),
{
    if properties.len() == 0 {
        attributes
    } else {
        with_properties(attributes, properties.drop_last()).insert(
            properties.last().name,
            properties.last().value,
        )
    }
}

/// A vertex as it is drawn: its box, its name and its instance number, with its properties
/// as attributes.
pub open spec fn vertex_node(vtx: VertexView, g: SasGeometry) -> SvgNode {
    SvgNode::Element {
        tag: "g"@,
        attributes: with_properties(
            no_attributes().insert("onclick"@, "showInfo(evt)"@).insert("name"@, vtx.name).insert(
                "fmri"@,
                vtx.fmri,
            ),
            vtx.properties,
        ),
        children: seq![
            SvgNode::Element {
                tag: "rect"@,
                attributes: frame_attributes(g),
                children: Seq::empty(),
            },
            label_at((g.x + 10) as nat, (g.y + 20) as nat, vtx.name),
            label_at((g.x + 10) as nat, (g.y + 50) as nat, digits(vtx.instance as nat, 16)),
        ],
    }
}

/// Where the lines of a vertex turn to their ends.
pub open spec fn bend_x(vtx: VertexView) -> nat {
    (vtx.geometry.x + VTX_WIDTH + 50) as nat
}

/// The height at which lines leave a vertex, or come to it.
pub open spec fn middle_y(vtx: VertexView) -> nat {
    (vtx.geometry.y + VTX_HEIGHT / 2) as nat
}

/// The lines to the ends of edges: for each one up or down, and one across.
pub open spec fn joints(
    vertices: Map<Seq<char>, VertexView>,
    vtx: VertexView,
    edges: Seq<Seq<char>>,
) -> Seq<SvgNode>
    decreases edges.len(),
{
    if edges.len() == 0 {
        Seq::empty()
    } else {
        let end = vertices[edges.last()];
        joints(vertices, vtx, edges.drop_last()).push(
            line_between(bend_x(vtx), middle_y(vtx), bend_x(vtx), middle_y(end)),
        ).push(line_between(bend_x(vtx), middle_y(end), end.geometry.x as nat, middle_y(end)))
    }
}

/// The lines of the edges of a vertex: one that leaves it, and those to their ends. There
/// are none where the vertex has no list of edges.
pub open spec fn vertex_lines(
    vertices: Map<Seq<char>, VertexView>,
    vtx: VertexView,
) -> Seq<SvgNode> {
    match vtx.outgoing_edges {
        Some(edges) => seq![
            line_between(
                (vtx.geometry.x + VTX_WIDTH) as nat,
                middle_y(vtx),
                bend_x(vtx),
                middle_y(vtx),
            ),
        ] + joints(vertices, vtx, edges),
        None => Seq::empty(),
    }
}

/// The box leaves room for its labels and for the lines that leave it.
pub open spec fn roomy(g: SasGeometry) -> bool {
    g.x + 230 <= u32::MAX && g.y + 50 <= u32::MAX
}

fn label(x: u32, y: u32, content: &str) -> (r: Text)
    ensures
        label_node(r) == label_at(x as nat, y as nat, content@),
{
    let e = new_label();
    let e = set_on_label(e, "x", value_of_number(x));
    let e = set_on_label(e, "y", value_of_number(y));
    let e = set_on_label(e, "font-family", value_of_text(FONT));
    add_text_to_label(e, new_text(content))
}

fn heading(x: u32, y: u32, content: &str) -> (r: Text)
    ensures
        label_node(r) == heading_at(x as nat, y as nat, content@),
{
    let e = new_label();
    let e = set_on_label(e, "x", value_of_number(x));
    let e = set_on_label(e, "y", value_of_number(y));
    let e = set_on_label(e, "font-size", value_of_text("x-large"));
    let e = set_on_label(e, "font-family", value_of_text(FONT));
    add_text_to_label(e, new_text(content))
}

fn frame(g: SasGeometry) -> (r: Rectangle)
    ensures
        rectangle_node(r) == (SvgNode::Element {
            tag: "rect"@,
            attributes: frame_attributes(g),
            children: Seq::empty(),
        }),
{
    let e = new_rectangle();
    let e = set_on_rectangle(e, "x", value_of_number(g.x));
    let e = set_on_rectangle(e, "y", value_of_number(g.y));
    let e = set_on_rectangle(e, "width", value_of_number(g.width));
    let e = set_on_rectangle(e, "height", value_of_number(g.height));
    let e = set_on_rectangle(e, "fill", value_of_text("none"));
    let e = set_on_rectangle(e, "stroke", value_of_text("black"));
    set_on_rectangle(e, "stroke-width", value_of_number(3))
}

pub(crate) fn line(x1: u32, y1: u32, x2: u32, y2: u32) -> (r: Line)
    ensures
        line_node(r) == line_between(x1 as nat, y1 as nat, x2 as nat, y2 as nat),
{
    let e = new_line();
    let e = set_on_line(e, "x1", value_of_number(x1));
    let e = set_on_line(e, "y1", value_of_number(y1));
    let e = set_on_line(e, "x2", value_of_number(x2));
    let e = set_on_line(e, "y2", value_of_number(y2));
    let e = set_on_line(e, "stroke", value_of_text("black"));
    set_on_line(e, "stroke-width", value_of_text("2"))
}

/// A caption and what it is of.
fn captioned(caption: &str, content: &str) -> (r: String)
    ensures
        r@ == caption@ + content@,
{
    let mut s = caption.to_string();
    s.append(content);
    s
}

/// The panel that tells of the host.
pub fn build_info_panel(digraph: &SasDigraph) -> (r: Result<Group, SimpleError>)
    ensures
        r matches Ok(g) && group_node(g) == info_panel(digraph@),
{
    let info_x: u32 = 10;
    let info_y: u32 = 10;
    let info_rect = frame(SasGeometry::new(info_x, info_y, 700, 1000));
    let info_rect = set_on_rectangle(info_rect, "name", value_of_text("infobox"));
    let heading1 = heading(info_x + 5, info_y + 20, "Host Information");
    let nodename = captioned("Nodename: ", digraph.nodename.as_str());
    let nodename = label(info_x + 5, info_y + 40, nodename.as_str());
    let os_version = captioned("OS Version: ", digraph.os_version.as_str());
    let os_version = label(info_x + 5, info_y + 60, os_version.as_str());
    let timestamp = captioned("Snapshot Time: ", digraph.timestamp.as_str());
    let timestamp = label(info_x + 5, info_y + 80, timestamp.as_str());
    let heading2 = heading(info_x + 5, info_y + 120, "Node Properties");
    let info_group = new_group();
    let info_group = add_rectangle_to_group(info_group, info_rect);
    let info_group = add_label_to_group(info_group, heading1);
    let info_group = add_label_to_group(info_group, nodename);
    let info_group = add_label_to_group(info_group, os_version);
    let info_group = add_label_to_group(info_group, timestamp);
    let info_group = add_label_to_group(info_group, heading2);
    assert(group_children(info_group) =~= info_panel(digraph@)->children);
    Ok(info_group)
}

/// Draws a vertex in the given box.
pub fn draw_vertex(vtx: &SasDigraphVertex, g: SasGeometry) -> (r: Group)
    requires
        roomy(g),
    ensures
        group_node(r) == vertex_node(vtx@, g),
{
    let rect = frame(g);
    let name_label = label(g.x + 10, g.y + 20, vtx.name.as_str());
    let instance = number_text(vtx.instance, 16);
    let inst_label = label(g.x + 10, g.y + 50, instance.as_str());
    let e = new_group();
    let e = set_on_group(e, "onclick", value_of_text("showInfo(evt)"));
    let e = set_on_group(e, "name", value_of_text(vtx.name.as_str()));
    let e = set_on_group(e, "fmri", value_of_text(vtx.fmri.as_str()));
    let e = add_rectangle_to_group(e, rect);
    let e = add_label_to_group(e, name_label);
    let mut e = add_label_to_group(e, inst_label);
    let ghost base = group_attributes(e);
    let ghost children = group_children(e);
    let ghost all = property_views(vtx.properties@);
    let mut i: usize = 0;
    assert(all.take(0) =~= Seq::empty());
    while i < vtx.properties.len()
        invariant
            i <= vtx.properties@.len(),
            all == property_views(vtx.properties@),
            group_attributes(e) == with_properties(base, all.take(i as int)),
            group_children(e) == children,
        decreases vtx.properties@.len() - i,
    {
        assert(all.take(i + 1).drop_last() =~= all.take(i as int));
        let prop = &vtx.properties[i];
        e = set_on_group(e, prop.name.as_str(), value_of_text(prop.value.as_str()));
        i = i + 1;
    }
    assert(all.take(i as int) =~= all);
    assert(children =~= vertex_node(vtx@, g)->children);
    e
}

} // verus!
