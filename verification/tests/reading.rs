use sas_topo_svg::digraph::{SasDigraph, SasDigraphProperty};
use sas_topo_svg::topology::{
    is_property_complete, parse_prop, read_digraph, try_read_digraph, EdgeXML, NvNames,
    NvlistXmlArrayElement, NvpairXML, ReadError, TopoDigraphXML, VertexXML,
};

fn names() -> NvNames {
    NvNames {
        pg_name: "group-name".to_string(),
        pg_vals: "group-values".to_string(),
        prop_name: "prop-name".to_string(),
        prop_value: "prop-value".to_string(),
    }
}

fn pair(name: &str, value: &str) -> NvpairXML {
    NvpairXML {
        name: Some(name.to_string()),
        value: Some(value.to_string()),
        nvlist_elements: None,
    }
}

fn list(nvpairs: Vec<NvpairXML>) -> NvlistXmlArrayElement {
    NvlistXmlArrayElement { nvpairs, shown: "[shown]".to_string() }
}

fn property(name: &str, value: &str) -> NvlistXmlArrayElement {
    list(vec![pair("prop-name", name), pair("prop-value", value)])
}

fn values(nvls: Vec<NvlistXmlArrayElement>) -> NvpairXML {
    NvpairXML { name: Some("group-values".to_string()), value: None, nvlist_elements: Some(nvls) }
}

fn groups(nvls: Vec<NvlistXmlArrayElement>) -> NvpairXML {
    NvpairXML { name: None, value: None, nvlist_elements: Some(nvls) }
}

fn vertex(fmri: &str, name: &str, instance: &str, propgroups: Vec<NvpairXML>) -> VertexXML {
    VertexXML {
        fmri: fmri.to_string(),
        name: name.to_string(),
        instance: instance.to_string(),
        outgoing_edges: None,
        propgroups,
    }
}

fn topology(vertices: Vec<VertexXML>) -> TopoDigraphXML {
    TopoDigraphXML {
        nodename: "host".to_string(),
        os_version: "5.11".to_string(),
        timestamp: "2019-12-01T00:00:00Z".to_string(),
        vertices,
    }
}

fn read(vertices: Vec<VertexXML>) -> SasDigraph {
    match try_read_digraph(&topology(vertices), &names()) {
        Some(Ok(digraph)) => digraph,
        _ => panic!("not read"),
    }
}

fn message(vertices: Vec<VertexXML>) -> String {
    match try_read_digraph(&topology(vertices), &names()) {
        Some(Err(ReadError::Simple(e))) => e.to_string(),
        _ => panic!("no message"),
    }
}

fn is_absent(vertices: Vec<VertexXML>) -> bool {
    try_read_digraph(&topology(vertices), &names()).is_none()
}

fn said(properties: &Vec<SasDigraphProperty>) -> Vec<(String, String)> {
    properties.iter().map(|p| (p.name.clone(), p.value.clone())).collect()
}

#[test]
fn property_has_name_and_value() {
    let p = parse_prop(&property("model", "X1"), &names()).unwrap();
    assert_eq!(p.name, "model");
    assert_eq!(p.value, "X1");
}

#[test]
fn of_equal_names_the_last_counts() {
    let nvl = list(vec![
        pair("prop-value", "old"),
        pair("other", "ignored"),
        pair("prop-name", "model"),
        pair("prop-value", "new"),
    ]);
    let p = parse_prop(&nvl, &names()).unwrap();
    assert_eq!((p.name.as_str(), p.value.as_str()), ("model", "new"));
}

#[test]
fn property_without_value_is_malformed() {
    let e = parse_prop(&list(vec![pair("prop-name", "model")]), &names()).unwrap_err();
    assert_eq!(e.to_string(), "malformed property value nvlist: [shown]");
    let e = parse_prop(&list(vec![]), &names()).unwrap_err();
    assert_eq!(e.to_string(), "malformed property value nvlist: [shown]");
}

#[test]
fn completeness_of_properties() {
    assert!(is_property_complete(&property("a", "b"), &names()));
    let mut nameless = property("a", "b");
    nameless.nvpairs[0].name = None;
    assert!(!is_property_complete(&nameless, &names()));
    let mut valueless = property("a", "b");
    valueless.nvpairs[1].value = None;
    assert!(!is_property_complete(&valueless, &names()));
    let other = NvpairXML { name: Some("x".to_string()), value: None, nvlist_elements: None };
    assert!(is_property_complete(&list(vec![other]), &names()));
}

#[test]
fn fabric_has_host_and_vertices() {
    let mut v = vertex("a", "initiator", "0x1F", vec![]);
    v.outgoing_edges = Some(vec![
        EdgeXML { fmri: "b".to_string() },
        EdgeXML { fmri: "c".to_string() },
    ]);
    let d = read(vec![v, vertex("b", "target", "0x0", vec![])]);
    assert_eq!(d.nodename, "host");
    assert_eq!(d.os_version, "5.11");
    assert_eq!(d.timestamp, "2019-12-01T00:00:00Z");
    assert_eq!(d.initiators, vec!["a".to_string()]);
    assert_eq!(d.vertices.len(), 2);
    let a = d.vertices.get("a").unwrap();
    assert_eq!(a.instance, 31);
    assert_eq!(a.name, "initiator");
    assert_eq!(a.outgoing_edges, Some(vec!["b".to_string(), "c".to_string()]));
    assert_eq!(a.geometry.width, 0);
    assert!(d.vertices.get("b").unwrap().outgoing_edges.is_none());
    assert!(d.vertices.get("c").is_none());
}

#[test]
fn properties_come_group_by_group() {
    let d = read(vec![vertex(
        "a",
        "target",
        "0x1",
        vec![
            groups(vec![
                list(vec![
                    pair("group-name", "storage"),
                    values(vec![property("model", "X1"), property("serial", "7")]),
                ]),
                list(vec![pair("group-name", "empty")]),
                list(vec![pair("group-name", "protocol"), values(vec![list(vec![])])]),
            ]),
            groups(vec![list(vec![
                values(vec![property("lost", "1")]),
                values(vec![property("address", "5000")]),
                pair("group-name", "port"),
            ])]),
        ],
    )]);
    let got = said(&d.vertices.get("a").unwrap().properties);
    let want: Vec<(String, String)> = vec![("model", "X1"), ("serial", "7"), ("address", "5000")]
        .into_iter()
        .map(|(n, v)| (n.to_string(), v.to_string()))
        .collect();
    assert_eq!(got, want);
    assert!(d.initiators.is_empty());
}

#[test]
fn a_list_that_is_missing_does_not_undo_an_earlier_one() {
    let mut none = pair("group-values", "x");
    none.value = None;
    let d = read(vec![vertex(
        "a",
        "target",
        "0x1",
        vec![groups(vec![list(vec![
            pair("group-name", "g"),
            values(vec![property("n", "v")]),
            none,
        ])])],
    )]);
    assert_eq!(said(&d.vertices.get("a").unwrap().properties).len(), 1);
}

#[test]
fn unexpected_names_are_refused() {
    let v = vertex("a", "target", "0x1", vec![groups(vec![list(vec![pair("odd", "x")])])]);
    assert_eq!(message(vec![v]), "Unexpected nvpair name");
}

#[test]
fn an_unexpected_name_comes_before_a_missing_one() {
    let nameless = NvpairXML { name: None, value: None, nvlist_elements: None };
    let v = vertex(
        "a",
        "target",
        "0x1",
        vec![groups(vec![list(vec![pair("odd", "x"), nameless])])],
    );
    assert_eq!(message(vec![v]), "Unexpected nvpair name");
}

#[test]
fn groups_need_a_name() {
    let v = vertex("a", "t", "0x1", vec![groups(vec![list(vec![values(vec![])])])]);
    assert_eq!(message(vec![v]), "malformed propgroup, group-name not set");
    let v = vertex("a", "t", "0x1", vec![groups(vec![list(vec![pair("group-name", "")])])]);
    assert_eq!(message(vec![v]), "malformed propgroup, group-name not set");
}

#[test]
fn malformed_properties_of_a_group_are_refused() {
    let v = vertex(
        "a",
        "t",
        "0x1",
        vec![groups(vec![list(vec![
            pair("group-name", "g"),
            values(vec![list(vec![pair("prop-name", "n")])]),
        ])])],
    );
    assert_eq!(message(vec![v]), "malformed property value nvlist: [shown]");
}

#[test]
fn fields_that_have_to_be_there() {
    let no_list = NvpairXML { name: None, value: None, nvlist_elements: None };
    assert!(is_absent(vec![vertex("a", "t", "0x1", vec![no_list])]));
    let nameless = NvpairXML { name: None, value: None, nvlist_elements: None };
    assert!(is_absent(vec![vertex("a", "t", "0x1", vec![groups(vec![list(vec![nameless])])])]));
    let mut valueless = pair("group-name", "x");
    valueless.value = None;
    assert!(is_absent(vec![vertex("a", "t", "0x1", vec![groups(vec![list(vec![valueless])])])]));
    let mut half = property("n", "v");
    half.nvpairs[1].value = None;
    assert!(is_absent(vec![vertex(
        "a",
        "t",
        "0x1",
        vec![groups(vec![list(vec![pair("group-name", "g"), values(vec![half])])])],
    )]));
}

#[test]
fn instance_numbers() {
    let instance = |s: &str| read(vec![vertex("a", "t", s, vec![])]).vertices.get("a").unwrap().instance;
    assert_eq!(instance("0xffffffffffffffff"), u64::MAX);
    assert_eq!(instance("0x+1f"), 31);
    assert_eq!(instance("zz10"), 16);
    assert_eq!(instance("\u{e9}10"), 16);
    assert_eq!(instance("0xAbC"), 0xabc);
}

#[test]
fn instances_that_are_no_numbers() {
    for tail in ["", "+", "-1", "xyz", "1_0", " 1", "10000000000000000"] {
        let mut s = "0x".to_string();
        s.push_str(tail);
        match try_read_digraph(&topology(vec![vertex("a", "t", &s, vec![])]), &names()) {
            Some(Err(ReadError::Instance(e))) => {
                assert_eq!(e, u64::from_str_radix(tail, 16).unwrap_err());
            }
            _ => panic!("{} was read", s),
        }
    }
}

#[test]
fn instances_without_two_bytes_of_prefix() {
    assert!(is_absent(vec![vertex("a", "t", "", vec![])]));
    assert!(is_absent(vec![vertex("a", "t", "0", vec![])]));
    assert!(is_absent(vec![vertex("a", "t", "\u{20ac}1", vec![])]));
}

#[test]
fn of_equal_fmris_the_last_counts() {
    let d = read(vec![
        vertex("a", "initiator", "0x1", vec![]),
        vertex("b", "initiator", "0x2", vec![]),
        vertex("a", "target", "0x3", vec![]),
    ]);
    assert_eq!(d.initiators, vec!["a".to_string(), "b".to_string()]);
    assert_eq!(d.vertices.len(), 2);
    assert_eq!(d.vertices.get("a").unwrap().instance, 3);
    assert_eq!(d.vertices.get("a").unwrap().name, "target");
}

#[test]
fn reading_a_complete_document() {
    let d = read_digraph(&topology(vec![vertex("a", "initiator", "0x9", vec![])]), &names());
    assert_eq!(d.ok().unwrap().vertices.get("a").unwrap().instance, 9);
    let e = read_digraph(&topology(vec![vertex("a", "initiator", "0x", vec![])]), &names());
    assert!(e.is_err());
}
