use std::collections::HashMap;

use sas_topo_svg::digraph::{
    SasDigraph, SasDigraphProperty, SasDigraphVertex, SasGeometry, VertexMap,
};
use sas_topo_svg::layout::{lay_out, place_of, Layout};
use sas_topo_svg::walk::{visit_vertex, WalkEnd};

fn vertex(fmri: &str, name: &str, edges: Option<Vec<&str>>) -> SasDigraphVertex {
    SasDigraphVertex::new(
        fmri.to_string(),
        name.to_string(),
        1,
        edges.map(|v| v.into_iter().map(|e| e.to_string()).collect()),
    )
}

fn fabric(vertices: Vec<(&str, &str, Option<Vec<&str>>)>) -> SasDigraph {
    let mut d = SasDigraph::new("n".to_string(), "o".to_string(), "t".to_string());
    for (fmri, name, edges) in vertices {
        d.add_vertex(vertex(fmri, name, edges));
    }
    d
}

fn two_paths() -> SasDigraph {
    fabric(vec![
        ("i1", "initiator", Some(vec!["p1", "p2"])),
        ("i2", "initiator", Some(vec!["p2"])),
        ("p1", "port", Some(vec!["t"])),
        ("p2", "port", Some(vec!["e"])),
        ("e", "expander", Some(vec!["t"])),
        ("t", "target", None),
        ("alone", "target", Some(vec!["nowhere"])),
    ])
}

fn column(l: &Layout, depth: u32) -> Vec<String> {
    l.columns.get(&depth).unwrap().clone()
}

#[test]
fn new_geometry_property_and_vertex() {
    let g = SasGeometry::new(1, 2, 3, 4);
    assert_eq!((g.x, g.y, g.width, g.height), (1, 2, 3, 4));
    let p = SasDigraphProperty::new("n".to_string(), "v".to_string());
    assert_eq!((p.name.as_str(), p.value.as_str()), ("n", "v"));
    let v = vertex("f", "port", Some(vec!["a"]));
    assert_eq!((v.fmri.as_str(), v.name.as_str(), v.instance), ("f", "port", 1));
    assert!(v.properties.is_empty());
    assert_eq!((v.geometry.x, v.geometry.y, v.geometry.width, v.geometry.height), (0, 0, 0, 0));
    assert_eq!(v.outgoing_edges, Some(vec!["a".to_string()]));
}

#[test]
fn vertices_are_found_by_fmri() {
    let mut m = VertexMap::new();
    assert_eq!(m.len(), 0);
    m.insert(vertex("a", "port", None));
    m.insert(vertex("b", "target", None));
    m.insert(vertex("a", "expander", None));
    assert_eq!(m.len(), 2);
    assert_eq!(m.get("a").unwrap().name, "expander");
    assert_eq!(m.position("b"), Some(1));
    assert_eq!(m.entry(1).fmri, "b");
    assert!(m.get("c").is_none());
    m.place("b", SasGeometry::new(5, 6, 7, 8));
    assert_eq!(m.get("b").unwrap().geometry.y, 6);
    assert_eq!(m.get("a").unwrap().geometry.y, 0);
}

#[test]
fn visits_are_filed_by_depth() {
    let d = two_paths();
    let mut columns: HashMap<u32, Vec<String>> = HashMap::new();
    columns.insert(6, vec!["there".to_string()]);
    let vtx = d.vertices.get("i1").unwrap();
    assert_eq!(visit_vertex(&d.vertices, vtx, &mut columns, 4).ok(), Some(8));
    assert_eq!(columns.get(&5), Some(&vec!["i1".to_string()]));
    assert_eq!(
        columns.get(&6),
        Some(&vec!["there".to_string(), "p1".to_string(), "p2".to_string()])
    );
    assert_eq!(columns.get(&7), Some(&vec!["t".to_string(), "e".to_string()]));
    assert_eq!(columns.get(&8), Some(&vec!["t".to_string()]));
}

#[test]
fn a_vertex_that_is_not_there_ends_the_walk() {
    let d = fabric(vec![
        ("i", "initiator", Some(vec!["a", "gone", "b"])),
        ("a", "port", None),
        ("b", "port", None),
    ]);
    let mut columns: HashMap<u32, Vec<String>> = HashMap::new();
    let vtx = d.vertices.get("i").unwrap();
    let e = visit_vertex(&d.vertices, vtx, &mut columns, 0).unwrap_err();
    assert_eq!(e.to_string(), "failed to lookup vertex");
    assert_eq!(columns.get(&2), Some(&vec!["a".to_string()]));
    assert_eq!(d.walk_outcome(), WalkEnd::Missing);
    assert!(d.can_draw());
    assert_eq!(lay_out(&d).err().unwrap().to_string(), "failed to lookup vertex");
}

#[test]
fn an_initiator_that_is_not_there_ends_the_walk() {
    let mut d = two_paths();
    d.initiators.push("gone".to_string());
    assert_eq!(d.walk_outcome(), WalkEnd::Missing);
    assert_eq!(lay_out(&d).err().unwrap().to_string(), "failed to lookup vertex");
}

#[test]
fn vertices_stand_in_columns_once_for_each_path() {
    let l = lay_out(&two_paths()).ok().unwrap();
    assert_eq!((l.max_depth, l.max_height), (4, 3));
    assert_eq!(column(&l, 1), vec!["i1", "i2"]);
    assert_eq!(column(&l, 2), vec!["p1", "p2", "p2"]);
    assert_eq!(column(&l, 3), vec!["t", "e", "e"]);
    assert_eq!(column(&l, 4), vec!["t", "t"]);
    assert!(l.columns.get(&5).is_none());
    assert!(l.fits());
}

#[test]
fn a_fabric_without_initiators_has_no_columns() {
    let d = fabric(vec![("t", "target", None)]);
    let l = lay_out(&d).ok().unwrap();
    assert_eq!((l.max_depth, l.max_height), (0, 0));
    assert!(l.columns.is_empty());
    assert!(d.can_draw());
}

#[test]
fn cycles_are_found() {
    let d = fabric(vec![
        ("i", "initiator", Some(vec!["a"])),
        ("a", "port", Some(vec!["b"])),
        ("b", "port", Some(vec!["a"])),
    ]);
    assert_eq!(d.walk_outcome(), WalkEnd::Unfinished);
    assert!(!d.can_draw());
    let d = fabric(vec![("i", "initiator", Some(vec!["i"]))]);
    assert_eq!(d.walk_outcome(), WalkEnd::Unfinished);
}

#[test]
fn cycles_off_the_walk_do_not_matter() {
    let d = fabric(vec![
        ("i", "initiator", Some(vec!["a"])),
        ("a", "port", None),
        ("b", "port", Some(vec!["b"])),
    ]);
    assert_eq!(d.walk_outcome(), WalkEnd::Finished);
    assert!(d.can_draw());
}

#[test]
fn a_missing_vertex_before_a_cycle_comes_first() {
    let d = fabric(vec![("i", "initiator", Some(vec!["gone", "i"]))]);
    assert_eq!(d.walk_outcome(), WalkEnd::Missing);
    let d = fabric(vec![("i", "initiator", Some(vec!["i", "gone"]))]);
    assert_eq!(d.walk_outcome(), WalkEnd::Unfinished);
}

#[test]
fn boxes_lie_on_a_grid() {
    let at = |depth: u32, index: usize, len: usize, height: usize| {
        let g = place_of(depth, index, len, height);
        (g.x, g.y, g.width, g.height)
    };
    assert_eq!(at(1, 0, 1, 1), (750, 10, 180, 70));
    assert_eq!(at(2, 0, 2, 5), (1000, 10, 180, 70));
    assert_eq!(at(2, 1, 2, 5), (1000, 210, 180, 70));
    assert_eq!(at(4, 2, 3, 3), (1500, 210, 180, 70));
    assert_eq!(at(3, 1, 2, 3), (1250, 110, 180, 70));
}

#[test]
fn boxes_of_a_column_do_not_overlap() {
    for len in 1..8usize {
        for height in len..12usize {
            for i in 1..len {
                let above = place_of(1, i - 1, len, height);
                let below = place_of(1, i, len, height);
                assert!(above.y + above.height < below.y);
                assert!((below.y + below.height) as usize <= 100 * height);
            }
        }
    }
}

#[test]
fn sizes_that_cannot_be_counted_do_not_fit() {
    let fits = |max_depth: u32, max_height: usize| {
        Layout { columns: HashMap::new(), max_depth, max_height }.fits()
    };
    assert!(fits(0, 0));
    assert!(!fits(11_453_247, 1));
    assert!(!fits(0, usize::MAX / 250 + 1));
    assert!(fits(0, usize::MAX / 250));
    let mut columns: HashMap<u32, Vec<String>> = HashMap::new();
    columns.insert(1, vec!["a".to_string(), "b".to_string()]);
    let l = Layout { columns, max_depth: 1, max_height: 85_899_346 };
    assert!(!l.fits());
    let l = Layout { columns: l.columns, max_depth: 1, max_height: 85_899_345 };
    assert!(l.fits());
}

#[test]
fn columns_hold_initiators_first_and_ends_of_edges_next() {
    let d = two_paths();
    let l = lay_out(&d).ok().unwrap();
    assert_eq!(column(&l, 1), d.initiators);
    assert!(l.max_depth as usize <= d.vertices.len());
    for depth in 1..=l.max_depth {
        for fmri in column(&l, depth) {
            let vtx = d.vertices.get(&fmri).unwrap();
            for edge in vtx.outgoing_edges.iter().flatten() {
                assert!(column(&l, depth + 1).contains(edge));
            }
        }
    }
}
