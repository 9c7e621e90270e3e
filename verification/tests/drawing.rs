use sas_topo_svg::digraph::{SasDigraph, SasDigraphProperty, SasDigraphVertex, SasGeometry};
use sas_topo_svg::drawing::{build_svg, html_page};
use sas_topo_svg::elements::{build_info_panel, draw_vertex};
use sas_topo_svg::rendering::render_topology;
use sas_topo_svg::script::ONCLICK;
use sas_topo_svg::text::{number_text, skip_two_bytes};
use sas_topo_svg::topology::{EdgeXML, NvNames, ReadError, TopoDigraphXML, VertexXML};
use sas_topo_svg::{Config, EXPANDER, INITIATOR, PORT, TARGET};

const FONT: &str = "font-family=\"Courier New, Courier, monospace\"";

fn vertex(fmri: &str, name: &str, instance: u64, edges: Option<Vec<&str>>) -> SasDigraphVertex {
    SasDigraphVertex::new(
        fmri.to_string(),
        name.to_string(),
        instance,
        edges.map(|v| v.into_iter().map(|e| e.to_string()).collect()),
    )
}

fn fabric(vertices: Vec<SasDigraphVertex>) -> SasDigraph {
    let mut d =
        SasDigraph::new("host".to_string(), "5.11".to_string(), "2019-12-01".to_string());
    for v in vertices {
        d.add_vertex(v);
    }
    d
}

fn config() -> Config {
    Config::new("out/page.html".to_string(), "in.xml".to_string())
}

fn panel() -> String {
    let mut s = String::new();
    s.push_str("<g>\n<rect fill=\"none\" height=\"1000\" name=\"infobox\" stroke=\"black\" ");
    s.push_str("stroke-width=\"3\" width=\"700\" x=\"10\" y=\"10\"/>\n");
    for (large, y, text) in [
        (true, 30, "Host Information"),
        (false, 50, "Nodename: host"),
        (false, 70, "OS Version: 5.11"),
        (false, 90, "Snapshot Time: 2019-12-01"),
        (true, 130, "Node Properties"),
    ] {
        let size = if large { " font-size=\"x-large\"" } else { "" };
        s.push_str(&format!("<text {}{} x=\"15\" y=\"{}\">\n{}\n</text>\n", FONT, size, y, text));
    }
    s.push_str("</g>");
    s
}

fn boxed(attributes: &str, x: u32, y: u32, name: &str, instance: &str) -> String {
    let mut s = format!("<g {}>\n<rect fill=\"none\" height=\"70\" stroke=\"black\" ", attributes);
    s.push_str(&format!("stroke-width=\"3\" width=\"180\" x=\"{}\" y=\"{}\"/>\n", x, y));
    s.push_str(&format!(
        "<text {} x=\"{}\" y=\"{}\">\n{}\n</text>\n",
        FONT,
        x + 10,
        y + 20,
        name
    ));
    s.push_str(&format!(
        "<text {} x=\"{}\" y=\"{}\">\n{}\n</text>\n</g>",
        FONT,
        x + 10,
        y + 50,
        instance
    ));
    s
}

fn line(x1: u32, y1: u32, x2: u32, y2: u32) -> String {
    format!(
        "<line stroke=\"black\" stroke-width=\"2\" x1=\"{}\" x2=\"{}\" y1=\"{}\" y2=\"{}\"/>",
        x1, x2, y1, y2
    )
}

fn document(size: &str, parts: Vec<String>) -> String {
    let mut s = format!(
        "<svg overflow=\"scroll\" viewbox=\"{}\" xmlns=\"http://www.w3.org/2000/svg\">\n",
        size
    );
    s.push_str(&format!(
        "<script type=\"application/ecmascript\">\n{}\n</script>\n{}\n",
        ONCLICK,
        panel()
    ));
    for p in parts {
        s.push_str(&p);
        s.push('\n');
    }
    s.push_str("</svg>");
    s
}

#[test]
fn names_of_vertices() {
    assert_eq!((INITIATOR, PORT, EXPANDER, TARGET), ("initiator", "port", "expander", "target"));
}

#[test]
fn config_keeps_both_paths() {
    let c = config();
    assert_eq!(c.html_path, "out/page.html");
    assert_eq!(c.xml_path, "in.xml");
}

#[test]
fn script_is_character_data() {
    assert!(ONCLICK.starts_with("<![CDATA[\n//\n// When a graph vertex is clicked"));
    assert!(ONCLICK.ends_with("}\n]]>\n"));
}

#[test]
fn panel_tells_of_the_host() {
    assert_eq!(build_info_panel(&fabric(vec![])).ok().unwrap().to_string(), panel());
}

#[test]
fn vertex_has_box_labels_and_properties() {
    let mut v = vertex("f:1", "port", 0x2a, None);
    v.properties.push(SasDigraphProperty::new("model".to_string(), "X".to_string()));
    v.properties.push(SasDigraphProperty::new("model".to_string(), "Y".to_string()));
    v.properties.push(SasDigraphProperty::new("name".to_string(), "other".to_string()));
    let g = draw_vertex(&v, SasGeometry::new(5, 7, 180, 70));
    let attributes = "fmri=\"f:1\" model=\"Y\" name=\"other\" onclick=\"showInfo(evt)\"";
    assert_eq!(g.to_string(), boxed(attributes, 5, 7, "port", "2a"));
}

#[test]
fn empty_fabric_is_script_and_panel() {
    let mut d = fabric(vec![]);
    let r = build_svg(&config(), &mut d).ok().unwrap();
    assert_eq!(r.document.to_string(), document("0 0 0 0", vec![]));
    assert_eq!(r.svg_path, "out/page.html.svg");
}

#[test]
fn edges_join_boxes() {
    let mut d = fabric(vec![
        vertex("i", "initiator", 0, Some(vec!["p", "q"])),
        vertex("p", "port", 16, Some(vec![])),
        vertex("q", "port", 255, None),
    ]);
    let r = build_svg(&config(), &mut d).ok().unwrap();
    let at = |fmri: &str, name: &str| {
        format!("fmri=\"{}\" name=\"{}\" onclick=\"showInfo(evt)\"", fmri, name)
    };
    let want = document(
        "0 0 200 500",
        vec![
            boxed(&at("i", "initiator"), 750, 10, "initiator", "0"),
            boxed(&at("p", "port"), 1000, 10, "port", "10"),
            boxed(&at("q", "port"), 1000, 110, "port", "ff"),
            line(930, 45, 980, 45),
            line(980, 45, 980, 45),
            line(980, 45, 1000, 45),
            line(980, 45, 980, 145),
            line(980, 145, 1000, 145),
            line(1180, 45, 1230, 45),
        ],
    );
    assert_eq!(r.document.to_string(), want);
    let q = d.vertices.get("q").unwrap().geometry;
    assert_eq!((q.x, q.y, q.width, q.height), (1000, 110, 180, 70));
}

#[test]
fn a_vertex_drawn_twice_is_joined_where_it_was_drawn_last() {
    let mut d = fabric(vec![
        vertex("i", "initiator", 1, Some(vec!["t", "p"])),
        vertex("p", "port", 2, Some(vec!["t"])),
        vertex("t", "target", 3, None),
        vertex("off", "target", 4, None),
    ]);
    let r = build_svg(&config(), &mut d).ok().unwrap();
    let t = d.vertices.get("t").unwrap().geometry;
    assert_eq!((t.x, t.y), (1250, 10));
    let off = d.vertices.get("off").unwrap().geometry;
    assert_eq!((off.x, off.y, off.width), (0, 0, 0));
    let text = r.document.to_string();
    assert!(text.contains(&line(980, 45, 1250, 45)));
    assert!(!text.contains("fmri=\"off\""));
    assert_eq!(text.matches("fmri=\"t\"").count(), 2);
}

#[test]
fn drawing_again_changes_nothing() {
    let mut d = fabric(vec![
        vertex("i", "initiator", 1, Some(vec!["t", "p"])),
        vertex("p", "port", 2, Some(vec!["t"])),
        vertex("t", "target", 3, None),
    ]);
    let once = build_svg(&config(), &mut d).ok().unwrap();
    let twice = build_svg(&config(), &mut d).ok().unwrap();
    assert_eq!(once.document.to_string(), twice.document.to_string());
    assert_eq!(once.html, twice.html);
}

#[test]
fn a_vertex_that_is_not_there_is_an_error() {
    let mut d = fabric(vec![vertex("i", "initiator", 1, Some(vec!["gone"]))]);
    let e = build_svg(&config(), &mut d).err().unwrap();
    assert_eq!(e.to_string(), "failed to lookup vertex");
    assert_eq!(d.vertices.get("i").unwrap().geometry.width, 0);
}

#[test]
fn page_shows_the_drawing_in_a_frame() {
    assert_eq!(
        html_page("a.svg", 1800, 1100),
        "<html><title>SAS Topology</title><body>\n<iframe src=\"a.svg\" width=1800 height=1100 \
         scrollable=\"yes\" frameborder=\"no\" /></body></html>\n"
    );
}

#[test]
fn page_grows_with_the_fabric() {
    let mut targets: Vec<String> = Vec::new();
    for i in 0..12 {
        targets.push(format!("t{}", i));
    }
    let mut vertices: Vec<SasDigraphVertex> = Vec::new();
    for t in &targets {
        vertices.push(vertex(t, "target", 1, None));
    }
    let mut last: Vec<&str> = targets.iter().map(|t| t.as_str()).collect();
    for p in ["p4", "p3", "p2", "p1"] {
        vertices.push(vertex(p, "port", 1, Some(last)));
        last = vec![p];
    }
    vertices.push(vertex("i", "initiator", 1, Some(last)));
    let mut d = fabric(vertices);
    let r = build_svg(&config(), &mut d).ok().unwrap();
    assert!(r.html.contains("src=\"out/page.html.svg\" width=2250 height=1200 "));
    assert!(r.document.to_string().contains("viewbox=\"0 0 600 3000\""));
    let g = d.vertices.get("t11").unwrap().geometry;
    assert_eq!((g.x, g.y), (2000, 1110));
}

fn names() -> NvNames {
    NvNames {
        pg_name: "a".to_string(),
        pg_vals: "b".to_string(),
        prop_name: "c".to_string(),
        prop_value: "d".to_string(),
    }
}

fn topology(instance: &str, edge: &str) -> TopoDigraphXML {
    TopoDigraphXML {
        nodename: "host".to_string(),
        os_version: "5.11".to_string(),
        timestamp: "2019-12-01".to_string(),
        vertices: vec![VertexXML {
            fmri: "i".to_string(),
            name: "initiator".to_string(),
            instance: instance.to_string(),
            outgoing_edges: if edge.is_empty() {
                None
            } else {
                Some(vec![EdgeXML { fmri: edge.to_string() }])
            },
            propgroups: vec![],
        }],
    }
}

#[test]
fn rendering_a_document() {
    let r = render_topology(&config(), &topology("0xc0ffee", ""), &names());
    let r = r.unwrap().ok().unwrap();
    let attributes = "fmri=\"i\" name=\"initiator\" onclick=\"showInfo(evt)\"";
    assert_eq!(
        r.document.to_string(),
        document("0 0 100 250", vec![boxed(attributes, 750, 10, "initiator", "c0ffee")])
    );
    assert_eq!(r.svg_path, "out/page.html.svg");
    assert_eq!(r.html, html_page("out/page.html.svg", 1800, 1100));
}

#[test]
fn rendering_that_fails() {
    match render_topology(&config(), &topology("0x1", "gone"), &names()) {
        Some(Err(ReadError::Simple(e))) => assert_eq!(e.to_string(), "failed to lookup vertex"),
        _ => panic!("no error"),
    }
    match render_topology(&config(), &topology("0xg", ""), &names()) {
        Some(Err(ReadError::Instance(_))) => {}
        _ => panic!("no error"),
    }
    assert!(render_topology(&config(), &topology("0x1", "i"), &names()).is_none());
    assert!(render_topology(&config(), &topology("0", ""), &names()).is_none());
}

#[test]
fn numbers_as_text() {
    assert_eq!(number_text(0, 10), "0");
    assert_eq!(number_text(1234567890, 10), "1234567890");
    assert_eq!(number_text(u64::MAX, 16), "ffffffffffffffff");
    assert_eq!(number_text(0x1a2b3c4d5e6f, 16), "1a2b3c4d5e6f");
    for n in [0u64, 9, 10, 15, 16, 255, 4096, u64::MAX] {
        assert_eq!(u64::from_str_radix(&number_text(n, 16), 16), Ok(n));
        assert_eq!(number_text(n, 10), n.to_string());
    }
}

#[test]
fn text_behind_two_bytes() {
    assert_eq!(skip_two_bytes("0x1f"), Some("1f"));
    assert_eq!(skip_two_bytes("0x"), Some(""));
    assert_eq!(skip_two_bytes("\u{e9}1f"), Some("1f"));
    assert_eq!(skip_two_bytes("a\u{e9}"), None);
    assert_eq!(skip_two_bytes("a"), None);
}

#[test]
fn boxes_lie_within_the_width_of_the_page_but_for_five_columns() {
    for columns in 1..9u32 {
        let mut vertices: Vec<SasDigraphVertex> = Vec::new();
        for i in 1..=columns {
            let next = format!("v{}", i + 1);
            let edges = if i < columns { Some(vec![next.as_str()]) } else { None };
            let name = if i == 1 { "initiator" } else { "port" };
            vertices.push(vertex(&format!("v{}", i), name, 1, edges));
        }
        let mut d = fabric(vertices);
        let r = build_svg(&config(), &mut d).ok().unwrap();
        let width = std::cmp::max(1800, 375 * columns);
        assert!(r.html.contains(&format!(" width={} height=1100 ", width)));
        let last = d.vertices.get(&format!("v{}", columns)).unwrap().geometry;
        assert_eq!(last.x + last.width <= width, columns != 5);
    }
}
