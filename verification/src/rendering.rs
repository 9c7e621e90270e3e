//! From the document of a fabric to what is written of it.

use vstd::prelude::*;

use crate::config::Config;
use crate::digraph::DigraphView;
use crate::drawing::{build_svg, drawing, page, page_height, page_width, Rendering};
use crate::layout::{drawable, layout_of};
use crate::markup::document_node;
use crate::topology::{
    digraph_of, try_read_digraph, NvNames, ReadError, ReadErrorView, Reading, TopoDigraphXML,
};
use crate::walk::{fabric_end, WalkEnd};

verus! {

/// What is to be written of a fabric: its drawing, beside the page that shows it.
pub open spec fn is_rendering(r: Rendering, html_path: Seq<char>, d: DigraphView) -> bool {
    &&& document_node(r.document) == drawing(d)
    &&& r.svg_path@ == html_path + ".svg"@
    &&& r.html@ == page(r.svg_path@, page_width(layout_of(d)), page_height(layout_of(d)))
}

/// Reads a fabric, and draws it. `None` where the document lacks a field that has to be
/// there, and where the fabric cannot be drawn: where it has a cycle, or is too large.
pub fn render_topology(config: &Config, sasxml: &TopoDigraphXML, names: &NvNames) -> (r: Option<
    Result<Rendering, ReadError>,
>)
    ensures
        match digraph_of(*sasxml, *names) {
            Reading::Absent => r is None,
            Reading::Failed(error) => r matches Some(Err(e)) && e@ == error,
            Reading::Read(d) => if !drawable(d) {
                r is None
            } else if fabric_end(d) == WalkEnd::Missing {
                r matches Some(Err(e)) && e@ == ReadErrorView::Simple("failed to lookup vertex"@)
            } else {
                r matches Some(Ok(rendering)) && is_rendering(rendering, config.html_path@, d)
            },
        },
{
    match try_read_digraph(sasxml, names) {
        Some(Ok(digraph)) => {
            let mut digraph = digraph;
            if !digraph.can_draw() {
                return None;
            }
            match build_svg(config, &mut digraph) {
                Ok(rendering) => Some(Ok(rendering)),
                Err(e) => Some(Err(ReadError::Simple(e))),
            }
        },
        Some(Err(e)) => Some(Err(e)),
        None => None,
    }
}

} // verus!
