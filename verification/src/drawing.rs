//! The drawing of a fabric, and the page that shows it.

use svg::node::element::SVG;
use vstd::prelude::*;

use crate::config::Config;
use crate::digraph::{
    keyed, texts, DigraphView, SasDigraph, SasDigraphVertex, SasGeometry, SimpleError, VertexMap,
    VertexView,
};
use crate::elements::{
    bend_x, build_info_panel, draw_vertex, info_panel, joints, line, line_between, middle_y, roomy,
    vertex_lines, vertex_node,
};
use crate::layout::{
    all_known, column_placements, drawable, lay_out, layout_of, lemma_box_fits, lemma_layout,
    lemma_placed, lemma_placed_all, place_of, placed, placements, Layout, LayoutView, Placement,
    VTX_HEIGHT, VTX_WIDTH,
};
use crate::markup::{
    add_group_to_document, add_line_to_document, add_script_to_document, document_attributes,
    document_children, document_node, new_document, new_script, no_attributes, set_on_document,
    set_on_script, value_of_numbers, value_of_text, SvgNode,
};
use crate::paths::{
    at_depth, lemma_at_depth_contains, lemma_deepest_is_reached, lemma_edges, visits_all,
};
use crate::script::ONCLICK;
use crate::text::{digits, number_text};
use crate::walk::{fabric_end, fabric_visits, Visit, WalkEnd};

verus! {

/// The vertices of a list of boxes, as they are drawn.
pub open spec fn vertex_nodes(
    vertices: Map<Seq<char>, VertexView>,
    ps: Seq<Placement>,
) -> Seq<SvgNode> {
    Seq::new(ps.len(), |i: int| vertex_node(vertices[ps[i].fmri], ps[i].geometry))
}

/// The lines of the edges of all vertices of a list.
pub open spec fn edge_nodes(
    vertices: Map<Seq<char>, VertexView>,
    ps: Seq<Placement>,
) -> Seq<SvgNode>
    decreases ps.len(),
{
    if ps.len() == 0 {
        Seq::empty()
    } else {
        edge_nodes(vertices, ps.drop_last()) + vertex_lines(vertices, vertices[ps.last().fmri])
    }
}

/// All boxes of a fabric, in the order in which they are drawn.
pub open spec fn all_placements(d: DigraphView) -> Seq<Placement> {
    placements(layout_of(d), layout_of(d).max_depth)
}

/// The script as a node.
pub open spec fn script_element() -> SvgNode {
    SvgNode::Element {
        tag: "script"@,
        attributes: no_attributes().insert("type"@, "application/ecmascript"@),
        children: seq![SvgNode::Text(ONCLICK@)],
    }
}

/// The size of the drawing, as the document states it.
pub open spec fn view_box(l: LayoutView) -> Seq<char> {
    digits(0, 10) + " "@ + digits(0, 10) + " "@ + digits(100 * l.max_depth, 10) + " "@ + digits(
        250 * l.max_height,
        10,
    )
}

/// The drawing of a fabric: the script, the panel, then all vertices, then all edges, which
/// join the boxes that the vertices were given last.
pub open spec fn drawing(d: DigraphView) -> SvgNode {
    SvgNode::Element {
        tag: "svg"@,
        attributes: no_attributes().insert("xmlns"@, "http://www.w3.org/2000/svg"@).insert(
            "overflow"@,
            "scroll"@,
        ).insert("viewbox"@, view_box(layout_of(d))),
        children: seq![script_element(), info_panel(d)] + vertex_nodes(
            d.vertices,
            all_placements(d),
        ) + edge_nodes(placed(d.vertices, all_placements(d)), all_placements(d)),
    }
}

/// The fabric once it is drawn: the vertices have their boxes.
pub open spec fn drawn(d: DigraphView) -> DigraphView {
    DigraphView { vertices: placed(d.vertices, all_placements(d)), ..d }
}

/// The width of the frame that shows the drawing.
pub open spec fn page_width(l: LayoutView) -> nat {
    if 375 * l.max_depth > 1800 {
        375 * l.max_depth
    } else {
        1800
    }
}

/// The height of the frame that shows the drawing.
pub open spec fn page_height(l: LayoutView) -> nat {
    if 100 * l.max_height > 1100 {
        100 * l.max_height
    } else {
        1100
    }
}

/// The page with the drawing in a frame.
pub open spec fn page(svg_path: Seq<char>, width: nat, height: nat) -> Seq<char> {
    "<html><title>SAS Topology</title><body>\n"@ + "<iframe src=\""@ + svg_path + "\" width="@
        + digits(width, 10) + " height="@ + digits(height, 10)
        + " scrollable=\"yes\" frameborder=\"no\" />"@ + "</body></html>\n"@
}

/// What is to be written: the drawing, and the page that shows it.
pub struct Rendering {
    pub svg_path: String,
    pub document: SVG,
    pub html: String,
}

/// Giving boxes is done one by one.
proof fn lemma_placed_add(
    vertices: Map<Seq<char>, VertexView>,
    a: Seq<Placement>,
    b: Seq<Placement>,
)
    ensures
        placed(vertices, a + b) == placed(placed(vertices, a), b),
    decreases b.len(),
{
    if b.len() == 0 {
        assert(a + b =~= a);
    } else {
        assert((a + b).drop_last() =~= a + b.drop_last());
        lemma_placed_add(vertices, a, b.drop_last());
    }
}

/// Lines are drawn vertex by vertex.
proof fn lemma_edge_nodes_add(
    vertices: Map<Seq<char>, VertexView>,
    a: Seq<Placement>,
    b: Seq<Placement>,
)
    ensures
        edge_nodes(vertices, a + b) == edge_nodes(vertices, a) + edge_nodes(vertices, b),
    decreases b.len(),
{
    if b.len() == 0 {
        assert(a + b =~= a);
        assert(edge_nodes(vertices, a) + edge_nodes(vertices, b) =~= edge_nodes(vertices, a));
    } else {
        assert((a + b).drop_last() =~= a + b.drop_last());
        lemma_edge_nodes_add(vertices, a, b.drop_last());
        assert(edge_nodes(vertices, a + b) =~= edge_nodes(vertices, a) + edge_nodes(vertices, b));
    }
}

/// Vertices are drawn alike, whatever boxes they had before.
proof fn lemma_vertex_nodes_placed(
    vertices: Map<Seq<char>, VertexView>,
    given: Seq<Placement>,
    ps: Seq<Placement>,
)
    requires
        all_known(vertices, given),
        all_known(vertices, ps),
    ensures
        vertex_nodes(placed(vertices, given), ps) == vertex_nodes(vertices, ps),
{
    lemma_placed(vertices, given);
    assert(vertex_nodes(placed(vertices, given), ps) =~= vertex_nodes(vertices, ps));
}

/// The columns are there, and their vertices are known.
pub open spec fn laid_out(l: LayoutView, vertices: Map<Seq<char>, VertexView>) -> bool {
    &&& forall|k: nat|
        1 <= k <= l.max_depth ==> 0 < (#[trigger] l.column(k)).len() <= l.max_height
    &&& forall|k: nat, i: int|
        1 <= k <= l.max_depth && 0 <= i < l.column(k).len() ==> vertices.contains_key(
            #[trigger] l.column(k)[i],
        )
}

/// The boxes of columns that are there are of known vertices.
pub proof fn lemma_placements_known(
    l: LayoutView,
    vertices: Map<Seq<char>, VertexView>,
    n: nat,
)
    requires
        laid_out(l, vertices),
        n <= l.max_depth,
    ensures
        all_known(vertices, placements(l, n)),
    decreases n,
{
    if n > 0 {
        lemma_placements_known(l, vertices, (n - 1) as nat);
        let before = placements(l, (n - 1) as nat);
        let last = column_placements(l, n);
        assert forall|i: int| 0 <= i < placements(l, n).len() implies vertices.contains_key(
            (#[trigger] placements(l, n)[i]).fmri,
        ) by {
            if i < before.len() {
                assert(placements(l, n)[i] == before[i]);
            } else {
                assert(placements(l, n)[i] == last[i - before.len()]);
                assert(last[i - before.len()].fmri == l.column(n)[i - before.len()]);
            }
        }
    }
}

/// Draws the vertices of a column, and gives them their boxes.
fn draw_column(
    vertices: &mut VertexMap,
    layout: &Layout,
    column: &Vec<String>,
    depth: u32,
    document: SVG,
) -> (r: SVG)
    requires
        old(vertices).wf(),
        layout@.fits(),
        laid_out(layout@, old(vertices)@),
        1 <= depth <= layout.max_depth,
        texts(column@) == layout@.column(depth as nat),
    ensures
        final(vertices).wf(),
        final(vertices)@ == placed(
            old(vertices)@,
            column_placements(layout@, depth as nat),
        ),
        document_attributes(r) == document_attributes(document),
        document_children(r) == document_children(document) + vertex_nodes(
            old(vertices)@,
            column_placements(layout@, depth as nat),
        ),
{
    let ghost vs = vertices@;
    let ghost ps = column_placements(layout@, depth as nat);
    let ghost children = document_children(document);
    let ghost attributes = document_attributes(document);
    let mut document = document;
    let mut index: usize = 0;
    assert(ps.take(0) =~= Seq::empty());
    assert(vertex_nodes(vs, ps.take(0)) =~= Seq::empty());
    assert(children + vertex_nodes(vs, ps.take(0)) =~= children);
    while index < column.len()
        invariant
            index <= column@.len(),
            texts(column@) == layout@.column(depth as nat),
            ps == column_placements(layout@, depth as nat),
            ps.len() == column@.len(),
            layout@.fits(),
            laid_out(layout@, vs),
            1 <= depth <= layout.max_depth,
            vertices.wf(),
            vertices@ == placed(vs, ps.take(index as int)),
            document_attributes(document) == attributes,
            document_children(document) == children + vertex_nodes(vs, ps.take(index as int)),
        decreases column@.len() - index,
    {
        let ghost before = ps.take(index as int);
        let ghost next = ps.take(index + 1);
        let ghost fmri = column@[index as int]@;
        assert(next.drop_last() =~= before);
        proof {
            lemma_box_fits(layout@, depth as nat, index as nat);
            assert(fmri == layout@.column(depth as nat)[index as int]);
            assert forall|i: int| 0 <= i < before.len() implies vs.contains_key(
                (#[trigger] before[i]).fmri,
            ) by {
                assert(before[i].fmri == layout@.column(depth as nat)[i]);
            }
            lemma_placed(vs, before);
        }
        let geometry = place_of(depth, index, column.len(), layout.max_height);
        assert(next.last() == (Placement { fmri, geometry }));
        if let Some(vtx) = vertices.get(column[index].as_str()) {
            let group = draw_vertex(vtx, geometry);
            document = add_group_to_document(document, group);
        }
        vertices.place(column[index].as_str(), geometry);
        assert(vertex_nodes(vs, next) =~= vertex_nodes(vs, before).push(
            vertex_node(vs[fmri], geometry),
        ));
        assert(document_children(document) =~= children + vertex_nodes(vs, next));
        index = index + 1;
    }
    assert(ps.take(index as int) =~= ps);
    document
}

/// Draws all vertices, column by column.
fn draw_vertices(vertices: &mut VertexMap, layout: &Layout, document: SVG) -> (r: SVG)
    requires
        old(vertices).wf(),
        layout@.fits(),
        laid_out(layout@, old(vertices)@),
    ensures
        final(vertices).wf(),
        final(vertices)@ == placed(
            old(vertices)@,
            placements(layout@, layout@.max_depth),
        ),
        document_attributes(r) == document_attributes(document),
        document_children(r) == document_children(document) + vertex_nodes(
            old(vertices)@,
            placements(layout@, layout@.max_depth),
        ),
{
    let ghost vs = vertices@;
    let ghost children = document_children(document);
    let ghost attributes = document_attributes(document);
    let mut document = document;
    let mut depth: u32 = 0;
    assert(vertex_nodes(vs, placements(layout@, 0)) =~= Seq::empty());
    assert(children + Seq::<SvgNode>::empty() =~= children);
    while depth < layout.max_depth
        invariant
            depth <= layout.max_depth,
            layout@.fits(),
            laid_out(layout@, vs),
            vertices.wf(),
            vertices@ == placed(vs, placements(layout@, depth as nat)),
            document_attributes(document) == attributes,
            document_children(document) == children + vertex_nodes(
                vs,
                placements(layout@, depth as nat),
            ),
        decreases layout.max_depth - depth,
    {
        let ghost given = placements(layout@, depth as nat);
        let ghost ps = column_placements(layout@, depth as nat + 1);
        depth = depth + 1;
        proof {
            lemma_placements_known(layout@, vs, (depth - 1) as nat);
            lemma_placed(vs, given);
            assert(layout@.column(depth as nat).len() > 0);
            assert forall|i: int| 0 <= i < ps.len() implies vs.contains_key(
                (#[trigger] ps[i]).fmri,
            ) by {
                assert(ps[i].fmri == layout@.column(depth as nat)[i]);
            }
            lemma_vertex_nodes_placed(vs, given, ps);
            lemma_placed_add(vs, given, ps);
            assert(vertex_nodes(vs, given + ps) =~= vertex_nodes(vs, given) + vertex_nodes(
                vs,
                ps,
            ));
        }
        if let Some(column) = layout.column(depth) {
            document = draw_column(vertices, layout, column, depth, document);
        }
        assert(document_children(document) =~= children + vertex_nodes(vs, given + ps));
    }
    document
}

/// Draws the lines of the edges of a vertex.
fn draw_edges(vertices: &VertexMap, vtx: &SasDigraphVertex, document: SVG) -> (r: SVG)
    requires
        vertices.wf(),
        roomy(vtx.geometry),
        forall|j: int|
            0 <= j < vtx@.edges().len() ==> vertices@.contains_key(#[trigger] vtx@.edges()[j])
                && roomy(vertices@[vtx@.edges()[j]].geometry),
    ensures
        document_attributes(r) == document_attributes(document),
        document_children(r) == document_children(document) + vertex_lines(vertices@, vtx@),
{
    let ghost children = document_children(document);
    let ghost attributes = document_attributes(document);
    if let Some(edges) = &vtx.outgoing_edges {
        let start_x1: u32 = vtx.geometry.x + VTX_WIDTH;
        let start_y1: u32 = vtx.geometry.y + (VTX_HEIGHT / 2);
        let start_x2: u32 = start_x1 + 50;
        let start_y2: u32 = start_y1;
        let ghost all = texts(edges@);
        let ghost first = seq![
            line_between(
                (vtx.geometry.x + VTX_WIDTH) as nat,
                middle_y(vtx@),
                bend_x(vtx@),
                middle_y(vtx@),
            ),
        ];
        let mut document = add_line_to_document(
            document,
            line(start_x1, start_y1, start_x2, start_y2),
        );
        let mut i: usize = 0;
        assert(all.take(0) =~= Seq::empty());
        assert(document_children(document) =~= children + (first + joints(
            vertices@,
            vtx@,
            all.take(0),
        )));
        while i < edges.len()
            invariant
                i <= edges@.len(),
                all == texts(edges@),
                all == vtx@.edges(),
                vertices.wf(),
                start_x2 == bend_x(vtx@),
                start_y2 == middle_y(vtx@),
                forall|j: int|
                    0 <= j < vtx@.edges().len() ==> vertices@.contains_key(
                        #[trigger] vtx@.edges()[j],
                    ) && roomy(vertices@[vtx@.edges()[j]].geometry),
                document_attributes(document) == attributes,
                document_children(document) == children + (first + joints(
                    vertices@,
                    vtx@,
                    all.take(i as int),
                )),
            decreases edges@.len() - i,
        {
            let ghost part = all.take(i as int);
            let ghost next = all.take(i + 1);
            assert(next.drop_last() =~= part);
            assert(vtx@.edges()[i as int] == edges@[i as int]@);
            if let Some(edge_vtx) = vertices.get(edges[i].as_str()) {
                let mid_y2: u32 = edge_vtx.geometry.y + (VTX_HEIGHT / 2);
                document = add_line_to_document(
                    document,
                    line(start_x2, start_y2, start_x2, mid_y2),
                );
                let end_y1: u32 = edge_vtx.geometry.y + (VTX_HEIGHT / 2);
                let end_x2: u32 = edge_vtx.geometry.x;
                document = add_line_to_document(
                    document,
                    line(start_x2, end_y1, end_x2, end_y1),
                );
            }
            assert(document_children(document) =~= children + (first + joints(
                vertices@,
                vtx@,
                next,
            )));
            i = i + 1;
        }
        assert(all.take(i as int) =~= all);
        document
    } else {
        assert(children + vertex_lines(vertices@, vtx@) =~= children);
        document
    }
}

/// All vertices of the columns have boxes with room for what belongs to them, and so have
/// those to which their edges lead.
pub open spec fn joinable(l: LayoutView, vertices: Map<Seq<char>, VertexView>) -> bool {
    forall|k: nat, i: int|
        1 <= k <= l.max_depth && 0 <= i < l.column(k).len() ==> joinable_vertex(
            vertices,
            vertices[#[trigger] l.column(k)[i]],
        )
}

/// A vertex and those to which its edges lead have boxes with room.
pub open spec fn joinable_vertex(vertices: Map<Seq<char>, VertexView>, vtx: VertexView) -> bool {
    &&& roomy(vtx.geometry)
    &&& forall|j: int|
        0 <= j < vtx.edges().len() ==> vertices.contains_key(#[trigger] vtx.edges()[j])
            && roomy(vertices[vtx.edges()[j]].geometry)
}

/// Draws the edges of the vertices of a column.
fn draw_column_edges(
    vertices: &VertexMap,
    layout: &Layout,
    column: &Vec<String>,
    depth: u32,
    document: SVG,
) -> (r: SVG)
    requires
        vertices.wf(),
        laid_out(layout@, vertices@),
        joinable(layout@, vertices@),
        1 <= depth <= layout.max_depth,
        texts(column@) == layout@.column(depth as nat),
    ensures
        document_attributes(r) == document_attributes(document),
        document_children(r) == document_children(document) + edge_nodes(
            vertices@,
            column_placements(layout@, depth as nat),
        ),
{
    let ghost ps = column_placements(layout@, depth as nat);
    let ghost children = document_children(document);
    let ghost attributes = document_attributes(document);
    let mut document = document;
    let mut i: usize = 0;
    assert(ps.take(0) =~= Seq::empty());
    assert(children + edge_nodes(vertices@, ps.take(0)) =~= children);
    while i < column.len()
        invariant
            i <= column@.len(),
            texts(column@) == layout@.column(depth as nat),
            ps == column_placements(layout@, depth as nat),
            vertices.wf(),
            laid_out(layout@, vertices@),
            joinable(layout@, vertices@),
            1 <= depth <= layout.max_depth,
            document_attributes(document) == attributes,
            document_children(document) == children + edge_nodes(
                vertices@,
                ps.take(i as int),
            ),
        decreases column@.len() - i,
    {
        let ghost next = ps.take(i + 1);
        assert(next.drop_last() =~= ps.take(i as int));
        assert(column@[i as int]@ == layout@.column(depth as nat)[i as int]);
        assert(next.last().fmri == column@[i as int]@);
        if let Some(vtx) = vertices.get(column[i].as_str()) {
            assert(joinable_vertex(vertices@, vtx@));
            document = draw_edges(vertices, vtx, document);
        }
        assert(document_children(document) =~= children + edge_nodes(vertices@, next));
        i = i + 1;
    }
    assert(ps.take(i as int) =~= ps);
    document
}

/// Draws all edges, column by column.
fn draw_all_edges(vertices: &VertexMap, layout: &Layout, document: SVG) -> (r: SVG)
    requires
        vertices.wf(),
        laid_out(layout@, vertices@),
        joinable(layout@, vertices@),
    ensures
        document_attributes(r) == document_attributes(document),
        document_children(r) == document_children(document) + edge_nodes(
            vertices@,
            placements(layout@, layout@.max_depth),
        ),
{
    let ghost children = document_children(document);
    let ghost attributes = document_attributes(document);
    let mut document = document;
    let mut depth: u32 = 0;
    assert(children + edge_nodes(vertices@, placements(layout@, 0)) =~= children);
    while depth < layout.max_depth
        invariant
            depth <= layout.max_depth,
            vertices.wf(),
            laid_out(layout@, vertices@),
            joinable(layout@, vertices@),
            document_attributes(document) == attributes,
            document_children(document) == children + edge_nodes(
                vertices@,
                placements(layout@, depth as nat),
            ),
        decreases layout.max_depth - depth,
    {
        let ghost before = placements(layout@, depth as nat);
        let ghost ps = column_placements(layout@, depth as nat + 1);
        depth = depth + 1;
        proof {
            lemma_edge_nodes_add(vertices@, before, ps);
            assert(layout@.column(depth as nat).len() > 0);
        }
        if let Some(column) = layout.column(depth) {
            document = draw_column_edges(vertices, layout, column, depth, document);
        }
        assert(document_children(document) =~= children + edge_nodes(vertices@, before + ps));
    }
    document
}

/// The page that shows a drawing in a frame.
pub fn html_page(svg_path: &str, width: u32, height: usize) -> (r: String)
    ensures
        r@ == page(svg_path@, width as nat, height as nat),
{
    let mut html = "<html><title>SAS Topology</title><body>\n".to_string();
    html.append("<iframe src=\"");
    html.append(svg_path);
    html.append("\" width=");
    html.append(number_text(width as u64, 10).as_str());
    html.append(" height=");
    html.append(number_text(height as u64, 10).as_str());
    html.append(" scrollable=\"yes\" frameborder=\"no\" />");
    html.append("</body></html>\n");
    html
}

/// Each vertex of the columns has a box among those of the drawing.
proof fn lemma_placements_cover(l: LayoutView, n: nat, k: nat, i: int)
    requires
        1 <= k <= n,
        0 <= i < l.column(k).len(),
    ensures
        exists|j: int|
            0 <= j < placements(l, n).len() && (#[trigger] placements(l, n)[j]).fmri == l.column(
                k,
            )[i],
    decreases n,
{
    let before = placements(l, (n - 1) as nat);
    let last = column_placements(l, n);
    if k == n {
        assert(last[i].fmri == l.column(k)[i]);
        assert(placements(l, n)[before.len() + i] == last[i]);
    } else {
        lemma_placements_cover(l, (n - 1) as nat, k, i);
        let j = choose|j: int|
            0 <= j < before.len() && (#[trigger] before[j]).fmri == l.column(k)[i];
        assert(placements(l, n)[j] == before[j]);
    }
}

/// In a drawing that fits, all boxes have room for what belongs to them.
proof fn lemma_placements_roomy(l: LayoutView, n: nat)
    requires
        l.fits(),
        n <= l.max_depth,
    ensures
        forall|j: int|
            0 <= j < placements(l, n).len() ==> roomy((#[trigger] placements(l, n)[j]).geometry),
    decreases n,
{
    if n > 0 {
        let before = placements(l, (n - 1) as nat);
        let last = column_placements(l, n);
        lemma_placements_roomy(l, (n - 1) as nat);
        assert forall|j: int| 0 <= j < placements(l, n).len() implies roomy(
            (#[trigger] placements(l, n)[j]).geometry,
        ) by {
            if j < before.len() {
                assert(placements(l, n)[j] == before[j]);
            } else {
                let i = j - before.len();
                assert(placements(l, n)[j] == last[i]);
                lemma_box_fits(l, n, i as nat);
            }
        }
    }
}

/// A vertex that is visited stands in the column of its depth.
proof fn lemma_visited_in_column(d: DigraphView, v: Visit) -> (i: int)
    requires
        keyed(d.vertices),
        fabric_end(d) == WalkEnd::Finished,
        fabric_visits(d).contains(v),
    ensures
        1 <= v.depth <= layout_of(d).max_depth,
        0 <= i < layout_of(d).column(v.depth).len(),
        layout_of(d).column(v.depth)[i] == v.fmri,
{
    let visits = fabric_visits(d);
    lemma_layout(d);
    lemma_edges(d.vertices, d.initiators, 0, u32::MAX as nat);
    lemma_deepest_is_reached(visits);
    lemma_at_depth_contains(visits, v.depth, v.fmri);
    assert(layout_of(d).column(v.depth) == at_depth(visits, v.depth));
    choose|i: int|
        0 <= i < at_depth(visits, v.depth).len() && at_depth(visits, v.depth)[i] == v.fmri
}

/// The columns of a fabric whose walk finishes are there, and their vertices are known.
pub proof fn lemma_laid_out(d: DigraphView)
    requires
        keyed(d.vertices),
        fabric_end(d) == WalkEnd::Finished,
    ensures
        laid_out(layout_of(d), d.vertices),
{
    let l = layout_of(d);
    let visits = fabric_visits(d);
    lemma_layout(d);
    assert forall|k: nat, i: int|
        1 <= k <= l.max_depth && 0 <= i < l.column(k).len() implies d.vertices.contains_key(
        #[trigger] l.column(k)[i],
    ) by {
        assert(l.column(k) == at_depth(visits, k));
        lemma_at_depth_contains(visits, k, l.column(k)[i]);
        assert(visits.contains(Visit { depth: k, fmri: l.column(k)[i] }));
    }
}

/// What the drawing of a fabric whose walk finishes rests on.
proof fn lemma_ready(d: DigraphView)
    requires
        keyed(d.vertices),
        fabric_end(d) == WalkEnd::Finished,
        layout_of(d).fits(),
    ensures
        laid_out(layout_of(d), d.vertices),
        laid_out(layout_of(d), drawn(d).vertices),
        joinable(layout_of(d), drawn(d).vertices),
{
    let l = layout_of(d);
    let visits = fabric_visits(d);
    let ps = all_placements(d);
    let vs = drawn(d).vertices;
    lemma_layout(d);
    lemma_laid_out(d);
    lemma_placements_known(l, d.vertices, l.max_depth);
    lemma_placed(d.vertices, ps);
    lemma_placements_roomy(l, l.max_depth);
    lemma_placed_all(d.vertices, ps, |g: SasGeometry| roomy(g));
    assert forall|k: nat, i: int|
        1 <= k <= l.max_depth && 0 <= i < l.column(k).len() implies roomy(
        vs[#[trigger] l.column(k)[i]].geometry,
    ) by {
        lemma_placements_cover(l, l.max_depth, k, i);
    }
    assert forall|k: nat, i: int|
        1 <= k <= l.max_depth && 0 <= i < l.column(k).len() implies joinable_vertex(
        vs,
        vs[#[trigger] l.column(k)[i]],
    ) by {
        let fmri = l.column(k)[i];
        let edges = vs[fmri].edges();
        assert(l.column(k) == at_depth(visits, k));
        lemma_at_depth_contains(visits, k, fmri);
        assert(visits.contains(Visit { depth: k, fmri }));
        assert(edges == d.vertices[fmri].edges());
        assert forall|j: int| 0 <= j < edges.len() implies vs.contains_key(#[trigger] edges[j])
            && roomy(vs[edges[j]].geometry) by {
            let v = Visit { depth: k + 1, fmri: edges[j] };
            assert(visits_all(d.vertices, visits, d.vertices[fmri].edges(), k + 1));
            assert(visits.contains(v));
            let at = lemma_visited_in_column(d, v);
            assert(l.column(k + 1)[at] == edges[j]);
        }
    }
}

/// Draws the fabric, and makes the page that shows the drawing.
pub fn build_svg(config: &Config, digraph: &mut SasDigraph) -> (r: Result<
    Rendering,
    SimpleError,
>)
    requires
        old(digraph).wf(),
        drawable(old(digraph)@),
    ensures
        final(digraph).wf(),
        match r {
            Ok(rendering) => {
                &&& fabric_end(old(digraph)@) == WalkEnd::Finished
                &&& document_node(rendering.document) == drawing(old(digraph)@)
                &&& rendering.svg_path@ == config.html_path@ + ".svg"@
                &&& rendering.html@ == page(
                    rendering.svg_path@,
                    page_width(layout_of(old(digraph)@)),
                    page_height(layout_of(old(digraph)@)),
                )
                &&& final(digraph)@ == drawn(old(digraph)@)
            },
            Err(e) => {
                &&& fabric_end(old(digraph)@) == WalkEnd::Missing
                &&& e@ == "failed to lookup vertex"@
                &&& final(digraph)@ == old(digraph)@
            },
        },
{
    let ghost d = digraph@;
    proof {
        digraph.vertices.lemma_entries();
    }
    let layout = match lay_out(digraph) {
        Ok(layout) => layout,
        Err(e) => {
            return Err(e);
        },
    };
    proof {
        lemma_ready(d);
    }
    let on_click = new_script(ONCLICK);
    let on_click = set_on_script(on_click, "type", value_of_text("application/ecmascript"));
    let info_group = match build_info_panel(digraph) {
        Ok(info_group) => info_group,
        Err(e) => {
            return Err(e);
        },
    };
    let document = new_document();
    let document = set_on_document(document, "overflow", value_of_text("scroll"));
    let document = set_on_document(
        document,
        "viewbox",
        value_of_numbers(0, 0, 100 * layout.max_depth, 250 * layout.max_height),
    );
    let document = add_script_to_document(document, on_click);
    let document = add_group_to_document(document, info_group);
    assert(document_children(document) =~= seq![script_element(), info_panel(d)]);
    let document = draw_vertices(&mut digraph.vertices, &layout, document);
    let document = draw_all_edges(&digraph.vertices, &layout, document);
    let mut svg_path = config.html_path.clone();
    svg_path.append(".svg");
    let wide: u32 = layout.max_depth * 375;
    let svg_width: u32 = if wide > 1800 {
        wide
    } else {
        1800
    };
    let high: usize = layout.max_height * 100;
    let svg_height: usize = if high > 1100 {
        high
    } else {
        1100
    };
    let html = html_page(svg_path.as_str(), svg_width, svg_height);
    assert(digraph@ =~= drawn(d));
    Ok(Rendering { svg_path, document, html })
}

} // verus!
