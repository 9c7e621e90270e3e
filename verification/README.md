# sas_topo_svg

Draws the topology of a SAS fabric as an SVG document, and makes an HTML page that shows
the drawing in a scrollable frame.

- `src/` is the verified library: the graph, its document form, the walk from the
  initiators, the layout in columns and the composition of the drawing. `src/laws.rs` states
  what holds of every fabric.
- `src/markup.rs` holds the calls into the `svg` crate, each with what is taken for granted
  of it; `src/text.rs` does the same for `u64::from_str_radix`.
- `app/` reads and writes the files. It needs the `topo_digraph_xml` crate, which defines
  the XML format.
- `tests/` runs the library on concrete fabrics.
