//! The document form of a fabric, and how the fabric is read from it.
//!
//! A vertex of the document carries its properties in nested lists of name and value pairs:
//! property groups, and in each group the properties. Which names mark a group, its
//! properties and their parts is up to the document format ([`NvNames`]).

use vstd::prelude::*;

use crate::digraph::{
    property_views, texts, DigraphView, PropertyView, SasDigraph, SasDigraphProperty,
    SasDigraphVertex, SasGeometry, SimpleError, VertexView,
};
use crate::text::{behind_two_bytes, number_of, radix_error, skip_two_bytes};

verus! {

/// A name and value pair, the value being a text or a list.
#[derive(Debug)]
pub struct NvpairXML {
    pub name: Option<String>,
    pub value: Option<String>,
    pub nvlist_elements: Option<Vec<NvlistXmlArrayElement>>,
}

/// A list of name and value pairs, and how it is shown in a message.
#[derive(Debug)]
pub struct NvlistXmlArrayElement {
    pub nvpairs: Vec<NvpairXML>,
    pub shown: String,
}

/// An edge to a vertex.
#[derive(Debug)]
pub struct EdgeXML {
    pub fmri: String,
}

/// A vertex with its edges and its property groups.
#[derive(Debug)]
pub struct VertexXML {
    pub fmri: String,
    pub name: String,
    /// The instance number in hexadecimal digits, behind two bytes of prefix.
    pub instance: String,
    pub outgoing_edges: Option<Vec<EdgeXML>>,
    pub propgroups: Vec<NvpairXML>,
}

/// A fabric.
#[derive(Debug)]
pub struct TopoDigraphXML {
    pub nodename: String,
    pub os_version: String,
    pub timestamp: String,
    pub vertices: Vec<VertexXML>,
}

/// The names that mark the parts of property groups and of properties.
#[derive(Debug)]
pub struct NvNames {
    pub pg_name: String,
    pub pg_vals: String,
    pub prop_name: String,
    pub prop_value: String,
}

/// Why a fabric cannot be read.
#[derive(Debug)]
pub enum ReadError {
    Simple(SimpleError),
    Instance(core::num::ParseIntError),
}

/// What an error tells.
pub enum ReadErrorView {
    Simple(Seq<char>),
    Instance(core::num::ParseIntError),
}

impl View for ReadError {
    type V = ReadErrorView;

    open spec fn view(&self) -> ReadErrorView {
        match self {
            ReadError::Simple(e) => ReadErrorView::Simple(e@),
            ReadError::Instance(e) => ReadErrorView::Instance(*e),
        }
    }
}

/// What comes of reading a part of a document: what was read, an error, or nothing because
/// the document lacks a field that has to be there.
pub enum Reading<T> {
    Read(T),
    Failed(ReadErrorView),
    Absent,
}

/// Why reading stops.
enum Stop {
    Absent,
    Failed(ReadError),
}

/// The two parts of a property, as far as they have come up.
pub struct PropertyParts {
    pub name: Option<Seq<char>>,
    pub value: Option<Seq<char>>,
}

/// The parts of a property: of several pairs with the same name the last counts, and pairs
/// with other names do not matter.
pub open spec fn property_parts(nvpairs: Seq<NvpairXML>, names: NvNames) -> PropertyParts
    decreases nvpairs.len(),
{
    if nvpairs.len() == 0 {
        PropertyParts { name: None, value: None }
    } else {
        let before = property_parts(nvpairs.drop_last(), names);
        let last = nvpairs.last();
        if last.name->0@ == names.prop_name@ {
            PropertyParts { name: Some(last.value->0@), ..before }
        } else if last.name->0@ == names.prop_value@ {
            PropertyParts { value: Some(last.value->0@), ..before }
        } else {
            before
        }
    }
}

/// All pairs of a property have names, and those of its parts have values.
pub open spec fn property_complete(nvl: NvlistXmlArrayElement, names: NvNames) -> bool {
    forall|i: int| 0 <= i < nvl.nvpairs@.len() ==> pair_complete(#[trigger] nvl.nvpairs@[i], names)
}

/// A pair has a name, and a value where it is part of a property.
pub open spec fn pair_complete(nvpair: NvpairXML, names: NvNames) -> bool {
    &&& nvpair.name is Some
    &&& nvpair.name->0@ == names.prop_name@ || nvpair.name->0@ == names.prop_value@
        ==> nvpair.value is Some
}

/// The property of a list of pairs, where both of its parts are there.
pub open spec fn property_of(nvl: NvlistXmlArrayElement, names: NvNames) -> Option<PropertyView> {
    let parts = property_parts(nvl.nvpairs@, names);
    match (parts.name, parts.value) {
        (Some(name), Some(value)) => Some(PropertyView { name, value }),
        _ => None,
    }
}

/// What is said of a list of pairs that is no property.
pub open spec fn malformed_property(nvl: NvlistXmlArrayElement) -> Seq<char> {
    "malformed property value nvlist: "@ + nvl.shown@
}

/// The properties of a list, up to the first that is none.
pub open spec fn properties_of(
    nvls: Seq<NvlistXmlArrayElement>,
    names: NvNames,
) -> Reading<Seq<PropertyView>>
    decreases nvls.len(),
{
    if nvls.len() == 0 {
        Reading::Read(Seq::empty())
    } else {
        match properties_of(nvls.drop_last(), names) {
            Reading::Read(before) => if !property_complete(nvls.last(), names) {
                Reading::Absent
            } else {
                match property_of(nvls.last(), names) {
                    Some(property) => Reading::Read(before.push(property)),
                    None => Reading::Failed(
                        ReadErrorView::Simple(malformed_property(nvls.last())),
                    ),
                }
            },
            stop => stop,
        }
    }
}

/// The name of a property group, empty until it comes up, and its properties.
pub struct GroupParts {
    pub name: Seq<char>,
    pub values: Option<Seq<NvlistXmlArrayElement>>,
}

/// The parts of a property group: of several pairs with the same name the last counts, for
/// the properties the last with a list. Pairs with other names are an error.
pub open spec fn group_parts(nvpairs: Seq<NvpairXML>, names: NvNames) -> Reading<GroupParts>
    decreases nvpairs.len(),
{
    if nvpairs.len() == 0 {
        Reading::Read(GroupParts { name: Seq::empty(), values: None })
    } else {
        let last = nvpairs.last();
        match group_parts(nvpairs.drop_last(), names) {
            Reading::Read(before) => if last.name is None {
                Reading::Absent
            } else if last.name->0@ == names.pg_name@ {
                match last.value {
                    Some(value) => Reading::Read(GroupParts { name: value@, ..before }),
                    None => Reading::Absent,
                }
            } else if last.name->0@ == names.pg_vals@ {
                match last.nvlist_elements {
                    Some(values) => Reading::Read(GroupParts { values: Some(values@), ..before }),
                    None => Reading::Read(before),
                }
            } else {
                Reading::Failed(ReadErrorView::Simple("Unexpected nvpair name"@))
            },
            stop => stop,
        }
    }
}

/// The properties of a group. A group has to have a name. The group named `protocol` holds
/// the FMRI once more, and is passed over.
pub open spec fn group_properties(
    group: NvlistXmlArrayElement,
    names: NvNames,
) -> Reading<Seq<PropertyView>> {
    match group_parts(group.nvpairs@, names) {
        Reading::Read(parts) => if parts.name.len() == 0 {
            Reading::Failed(
                ReadErrorView::Simple("malformed propgroup, "@ + names.pg_name@ + " not set"@),
            )
        } else {
            match parts.values {
                Some(values) => if parts.name == "protocol"@ {
                    Reading::Read(Seq::empty())
                } else {
                    properties_of(values, names)
                },
                None => Reading::Read(Seq::empty()),
            }
        },
        Reading::Failed(e) => Reading::Failed(e),
        Reading::Absent => Reading::Absent,
    }
}

/// The properties of a list of groups, one group after the other.
pub open spec fn groups_properties(
    groups: Seq<NvlistXmlArrayElement>,
    names: NvNames,
) -> Reading<Seq<PropertyView>>
    decreases groups.len(),
{
    if groups.len() == 0 {
        Reading::Read(Seq::empty())
    } else {
        match groups_properties(groups.drop_last(), names) {
            Reading::Read(before) => match group_properties(groups.last(), names) {
                Reading::Read(properties) => Reading::Read(before + properties),
                stop => stop,
            },
            stop => stop,
        }
    }
}

/// The properties of all lists of groups of a vertex.
pub open spec fn vertex_properties(
    propgroups: Seq<NvpairXML>,
    names: NvNames,
) -> Reading<Seq<PropertyView>>
    decreases propgroups.len(),
{
    if propgroups.len() == 0 {
        Reading::Read(Seq::empty())
    } else {
        match vertex_properties(propgroups.drop_last(), names) {
            Reading::Read(before) => match propgroups.last().nvlist_elements {
                Some(groups) => match groups_properties(groups@, names) {
                    Reading::Read(properties) => Reading::Read(before + properties),
                    stop => stop,
                },
                None => Reading::Absent,
            },
            stop => stop,
        }
    }
}

/// The FMRIs of a list of edges.
pub open spec fn edge_fmris(edges: Option<Vec<EdgeXML>>) -> Option<Seq<Seq<char>>> {
    match edges {
        Some(v) => Some(Seq::new(v@.len(), |i: int| v@[i].fmri@)),
        None => None,
    }
}

/// The vertex that a vertex of the document stands for. It has not been drawn yet.
pub open spec fn vertex_of(vtx: VertexXML, names: NvNames) -> Reading<VertexView> {
    match behind_two_bytes(vtx.instance@) {
        Some(number) => match number_of(number, 16) {
            Some(instance) => match vertex_properties(vtx.propgroups@, names) {
                Reading::Read(properties) => Reading::Read(
                    VertexView {
                        fmri: vtx.fmri@,
                        name: vtx.name@,
                        instance,
                        properties,
                        geometry: SasGeometry { x: 0, y: 0, width: 0, height: 0 },
                        outgoing_edges: edge_fmris(vtx.outgoing_edges),
                    },
                ),
                Reading::Failed(e) => Reading::Failed(e),
                Reading::Absent => Reading::Absent,
            },
            None => Reading::Failed(ReadErrorView::Instance(radix_error(number, 16))),
        },
        None => Reading::Absent,
    }
}

/// The fabric with the vertices of a list added, one after the other.
pub open spec fn with_vertices(
    empty: DigraphView,
    vertices: Seq<VertexXML>,
    names: NvNames,
) -> Reading<DigraphView>
    decreases vertices.len(),
{
    if vertices.len() == 0 {
        Reading::Read(empty)
    } else {
        match with_vertices(empty, vertices.drop_last(), names) {
            Reading::Read(before) => match vertex_of(vertices.last(), names) {
                Reading::Read(vtx) => Reading::Read(before.with_vertex(vtx)),
                Reading::Failed(e) => Reading::Failed(e),
                Reading::Absent => Reading::Absent,
            },
            stop => stop,
        }
    }
}

/// The fabric that a document stands for.
pub open spec fn digraph_of(xml: TopoDigraphXML, names: NvNames) -> Reading<DigraphView> {
    with_vertices(
        DigraphView {
            nodename: xml.nodename@,
            os_version: xml.os_version@,
            timestamp: xml.timestamp@,
            vertices: Map::empty(),
            initiators: Seq::empty(),
        },
        xml.vertices@,
        names,
    )
}

/// Whether all pairs of a property have names, and those of its parts values.
pub fn is_property_complete(nvl: &NvlistXmlArrayElement, names: &NvNames) -> (r: bool)
    ensures
        r == property_complete(*nvl, *names),
{
    let mut i: usize = 0;
    while i < nvl.nvpairs.len()
        invariant
            i <= nvl.nvpairs@.len(),
            forall|j: int| 0 <= j < i ==> pair_complete(#[trigger] nvl.nvpairs@[j], *names),
        decreases nvl.nvpairs@.len() - i,
    {
        let nvpair = &nvl.nvpairs[i];
        let complete = match &nvpair.name {
            Some(name) => !(*name == names.prop_name || *name == names.prop_value)
                || nvpair.value.is_some(),
            None => false,
        };
        assert(complete == pair_complete(nvl.nvpairs@[i as int], *names));
        if !complete {
            return false;
        }
        i = i + 1;
    }
    true
}

/// Reads the property of a list of pairs.
pub fn parse_prop(nvl: &NvlistXmlArrayElement, names: &NvNames) -> (r: Result<
    SasDigraphProperty,
    SimpleError,
>)
    requires
        property_complete(*nvl, *names),
    ensures
        match r {
            Ok(property) => property_of(*nvl, *names) == Some(property@),
            Err(e) => property_of(*nvl, *names) is None && e@ == malformed_property(*nvl),
        },
{
    let mut propname: Option<String> = None;
    let mut propval: Option<String> = None;
    let ghost all = nvl.nvpairs@;
    let mut i: usize = 0;
    assert(all.take(0) =~= Seq::empty());
    while i < nvl.nvpairs.len()
        invariant
            i <= all.len(),
            all == nvl.nvpairs@,
            property_complete(*nvl, *names),
            match propname {
                Some(s) => property_parts(all.take(i as int), *names).name == Some(s@),
                None => property_parts(all.take(i as int), *names).name is None,
            },
            match propval {
                Some(s) => property_parts(all.take(i as int), *names).value == Some(s@),
                None => property_parts(all.take(i as int), *names).value is None,
            },
        decreases all.len() - i,
    {
        assert(all.take(i + 1).drop_last() =~= all.take(i as int));
        assert(pair_complete(nvl.nvpairs@[i as int], *names));
        let nvpair = &nvl.nvpairs[i];
        if let Some(name) = &nvpair.name {
            if *name == names.prop_name {
                propname = copied(&nvpair.value);
            } else if *name == names.prop_value {
                propval = copied(&nvpair.value);
            }
        }
        i = i + 1;
    }
    assert(all.take(i as int) =~= all);
    match (propname, propval) {
        (Some(name), Some(value)) => Ok(SasDigraphProperty::new(name, value)),
        _ => {
            let mut message = "malformed property value nvlist: ".to_string();
            message.append(nvl.shown.as_str());
            Err(SimpleError(message))
        },
    }
}

/// A copy of a text that may be missing.
fn copied(s: &Option<String>) -> (r: Option<String>)
    ensures
        match r {
            Some(t) => s is Some && t@ == s->0@,
            None => s is None,
        },
{
    match s {
        Some(t) => Some(t.clone()),
        None => None,
    }
}

/// The name of a property group, empty until it comes up, and its properties.
struct PropertyGroup<'a> {
    name: String,
    values: Option<&'a Vec<NvlistXmlArrayElement>>,
}

impl<'a> PropertyGroup<'a> {
    spec fn parts(self) -> GroupParts {
        GroupParts {
            name: self.name@,
            values: match self.values {
                Some(values) => Some(values@),
                None => None,
            },
        }
    }
}

/// Reads the parts of a property group.
fn read_group<'a>(nvpairs: &'a Vec<NvpairXML>, names: &NvNames) -> (r: Result<PropertyGroup<'a>, Stop>)
    ensures
        match r {
            Ok(group) => group_parts(nvpairs@, *names) == Reading::Read(group.parts()),
            Err(Stop::Failed(e)) => group_parts(nvpairs@, *names)
                == Reading::<GroupParts>::Failed(e@),
            Err(Stop::Absent) => group_parts(nvpairs@, *names) == Reading::<GroupParts>::Absent,
        },
{
    let mut group = PropertyGroup { name: String::new(), values: None };
    let ghost all = nvpairs@;
    let mut i: usize = 0;
    assert(all.take(0) =~= Seq::empty());
    while i < nvpairs.len()
        invariant
            i <= all.len(),
            all == nvpairs@,
            group_parts(all.take(i as int), *names) == Reading::Read(group.parts()),
        decreases all.len() - i,
    {
        let ghost next = all.take(i + 1);
        assert(next.drop_last() =~= all.take(i as int));
        proof {
            lemma_group_parts_stops(all, i + 1, *names);
        }
        let nvpair = &nvpairs[i];
        match &nvpair.name {
            Some(name) => {
                if *name == names.pg_name {
                    match &nvpair.value {
                        Some(value) => {
                            group = PropertyGroup { name: value.clone(), values: group.values };
                        },
                        None => {
                            return Err(Stop::Absent);
                        },
                    }
                } else if *name == names.pg_vals {
                    if let Some(values) = &nvpair.nvlist_elements {
                        group = PropertyGroup { name: group.name, values: Some(values) };
                    }
                } else {
                    return Err(
                        Stop::Failed(
                            ReadError::Simple(SimpleError("Unexpected nvpair name".to_string())),
                        ),
                    );
                }
            },
            None => {
                return Err(Stop::Absent);
            },
        }
        i = i + 1;
    }
    assert(all.take(i as int) =~= all);
    Ok(group)
}

/// Reading the pairs of a group stops with the first that stops it.
proof fn lemma_group_parts_stops(nvpairs: Seq<NvpairXML>, n: int, names: NvNames)
    requires
        0 <= n <= nvpairs.len(),
    ensures
        !(group_parts(nvpairs.take(n), names) is Read) ==> group_parts(nvpairs, names)
            == group_parts(nvpairs.take(n), names),
    decreases nvpairs.len(),
{
    if n == nvpairs.len() {
        assert(nvpairs.take(n) =~= nvpairs);
    } else {
        assert(nvpairs.drop_last().take(n) =~= nvpairs.take(n));
        lemma_group_parts_stops(nvpairs.drop_last(), n, names);
    }
}

/// Reading properties stops with the first that stops it.
proof fn lemma_properties_stop(nvls: Seq<NvlistXmlArrayElement>, n: int, names: NvNames)
    requires
        0 <= n <= nvls.len(),
    ensures
        !(properties_of(nvls.take(n), names) is Read) ==> properties_of(nvls, names)
            == properties_of(nvls.take(n), names),
    decreases nvls.len(),
{
    if n == nvls.len() {
        assert(nvls.take(n) =~= nvls);
    } else {
        assert(nvls.drop_last().take(n) =~= nvls.take(n));
        lemma_properties_stop(nvls.drop_last(), n, names);
    }
}

/// Reading groups stops with the first that stops it.
proof fn lemma_groups_stop(groups: Seq<NvlistXmlArrayElement>, n: int, names: NvNames)
    requires
        0 <= n <= groups.len(),
    ensures
        !(groups_properties(groups.take(n), names) is Read) ==> groups_properties(groups, names)
            == groups_properties(groups.take(n), names),
    decreases groups.len(),
{
    if n == groups.len() {
        assert(groups.take(n) =~= groups);
    } else {
        assert(groups.drop_last().take(n) =~= groups.take(n));
        lemma_groups_stop(groups.drop_last(), n, names);
    }
}

/// Reading lists of groups stops with the first that stops it.
proof fn lemma_propgroups_stop(propgroups: Seq<NvpairXML>, n: int, names: NvNames)
    requires
        0 <= n <= propgroups.len(),
    ensures
        !(vertex_properties(propgroups.take(n), names) is Read) ==> vertex_properties(
            propgroups,
            names,
        ) == vertex_properties(propgroups.take(n), names),
    decreases propgroups.len(),
{
    if n == propgroups.len() {
        assert(propgroups.take(n) =~= propgroups);
    } else {
        assert(propgroups.drop_last().take(n) =~= propgroups.take(n));
        lemma_propgroups_stop(propgroups.drop_last(), n, names);
    }
}

/// Reading vertices stops with the first that stops it.
proof fn lemma_vertices_stop(
    empty: DigraphView,
    vertices: Seq<VertexXML>,
    n: int,
    names: NvNames,
)
    requires
        0 <= n <= vertices.len(),
    ensures
        !(with_vertices(empty, vertices.take(n), names) is Read) ==> with_vertices(
            empty,
            vertices,
            names,
        ) == with_vertices(empty, vertices.take(n), names),
    decreases vertices.len(),
{
    if n == vertices.len() {
        assert(vertices.take(n) =~= vertices);
    } else {
        assert(vertices.drop_last().take(n) =~= vertices.take(n));
        lemma_vertices_stop(empty, vertices.drop_last(), n, names);
    }
}

/// What was read of a list of properties has been put behind those that were there.
spec fn appended(
    reading: Reading<Seq<PropertyView>>,
    before: Seq<SasDigraphProperty>,
    after: Seq<SasDigraphProperty>,
    r: Result<(), Stop>,
) -> bool {
    match r {
        Ok(_) => reading matches Reading::Read(properties) && property_views(after)
            == property_views(before) + properties,
        Err(Stop::Failed(e)) => reading == Reading::<Seq<PropertyView>>::Failed(e@),
        Err(Stop::Absent) => reading == Reading::<Seq<PropertyView>>::Absent,
    }
}

/// Reads the properties of a list.
fn read_properties(
    nvls: &Vec<NvlistXmlArrayElement>,
    names: &NvNames,
    properties: &mut Vec<SasDigraphProperty>,
) -> (r: Result<(), Stop>)
    ensures
        appended(properties_of(nvls@, *names), old(properties)@, final(properties)@, r),
{
    let ghost all = nvls@;
    let ghost before = property_views(properties@);
    let mut i: usize = 0;
    assert(all.take(0) =~= Seq::empty());
    assert(before + Seq::<PropertyView>::empty() =~= before);
    while i < nvls.len()
        invariant
            i <= all.len(),
            all == nvls@,
            before == property_views(old(properties)@),
            properties_of(all.take(i as int), *names) is Read,
            property_views(properties@) == before + properties_of(
                all.take(i as int),
                *names,
            )->Read_0,
        decreases all.len() - i,
    {
        assert(all.take(i + 1).drop_last() =~= all.take(i as int));
        proof {
            lemma_properties_stop(all, i + 1, *names);
        }
        if !is_property_complete(&nvls[i], names) {
            return Err(Stop::Absent);
        }
        match parse_prop(&nvls[i], names) {
            Ok(property) => {
                let ghost so_far = properties@;
                properties.push(property);
                assert(property_views(properties@) =~= property_views(so_far).push(property@));
                assert(property_views(properties@) =~= before + properties_of(
                    all.take(i + 1),
                    *names,
                )->Read_0);
            },
            Err(e) => {
                return Err(Stop::Failed(ReadError::Simple(e)));
            },
        }
        i = i + 1;
    }
    assert(all.take(i as int) =~= all);
    Ok(())
}

/// Reads the properties of a list of groups.
fn read_groups(
    groups: &Vec<NvlistXmlArrayElement>,
    names: &NvNames,
    properties: &mut Vec<SasDigraphProperty>,
) -> (r: Result<(), Stop>)
    ensures
        appended(groups_properties(groups@, *names), old(properties)@, final(properties)@, r),
{
    let ghost all = groups@;
    let ghost before = property_views(properties@);
    let mut i: usize = 0;
    assert(all.take(0) =~= Seq::empty());
    assert(before + Seq::<PropertyView>::empty() =~= before);
    while i < groups.len()
        invariant
            i <= all.len(),
            all == groups@,
            before == property_views(old(properties)@),
            groups_properties(all.take(i as int), *names) is Read,
            property_views(properties@) == before + groups_properties(
                all.take(i as int),
                *names,
            )->Read_0,
        decreases all.len() - i,
    {
        assert(all.take(i + 1).drop_last() =~= all.take(i as int));
        let ghost so_far = groups_properties(all.take(i as int), *names)->Read_0;
        let ghost of_group = group_properties(all[i as int], *names);
        proof {
            lemma_groups_stop(all, i + 1, *names);
            assert(so_far + Seq::<PropertyView>::empty() =~= so_far);
            if of_group is Read {
                assert(before + (so_far + of_group->Read_0) =~= before + so_far
                    + of_group->Read_0);
            }
        }
        let group = match read_group(&groups[i].nvpairs, names) {
            Ok(group) => group,
            Err(stop) => {
                return Err(stop);
            },
        };
        if group.name.as_str().is_empty() {
            let mut message = "malformed propgroup, ".to_string();
            message.append(names.pg_name.as_str());
            message.append(" not set");
            return Err(Stop::Failed(ReadError::Simple(SimpleError(message))));
        }
        if let Some(values) = group.values {
            if !(group.name == "protocol".to_string()) {
                match read_properties(values, names, properties) {
                    Ok(_) => {},
                    Err(stop) => {
                        return Err(stop);
                    },
                }
            }
        }
        i = i + 1;
    }
    assert(all.take(i as int) =~= all);
    Ok(())
}

/// Reads the properties of a vertex.
fn read_propgroups(
    propgroups: &Vec<NvpairXML>,
    names: &NvNames,
    properties: &mut Vec<SasDigraphProperty>,
) -> (r: Result<(), Stop>)
    ensures
        appended(vertex_properties(propgroups@, *names), old(properties)@, final(properties)@, r),
{
    let ghost all = propgroups@;
    let ghost before = property_views(properties@);
    let mut i: usize = 0;
    assert(all.take(0) =~= Seq::empty());
    assert(before + Seq::<PropertyView>::empty() =~= before);
    while i < propgroups.len()
        invariant
            i <= all.len(),
            all == propgroups@,
            before == property_views(old(properties)@),
            vertex_properties(all.take(i as int), *names) is Read,
            property_views(properties@) == before + vertex_properties(
                all.take(i as int),
                *names,
            )->Read_0,
        decreases all.len() - i,
    {
        assert(all.take(i + 1).drop_last() =~= all.take(i as int));
        let ghost so_far = vertex_properties(all.take(i as int), *names)->Read_0;
        proof {
            lemma_propgroups_stop(all, i + 1, *names);
        }
        match &propgroups[i].nvlist_elements {
            Some(groups) => {
                let ghost of_groups = groups_properties(groups@, *names);
                proof {
                    if of_groups is Read {
                        assert(before + (so_far + of_groups->Read_0) =~= before + so_far
                            + of_groups->Read_0);
                    }
                }
                match read_groups(groups, names, properties) {
                    Ok(_) => {},
                    Err(stop) => {
                        return Err(stop);
                    },
                }
            },
            None => {
                return Err(Stop::Absent);
            },
        }
        i = i + 1;
    }
    assert(all.take(i as int) =~= all);
    Ok(())
}

/// Reads the edges of a vertex.
fn read_edges(edges: &Vec<EdgeXML>) -> (r: Vec<String>)
    ensures
        texts(r@) == Seq::new(edges@.len(), |i: int| edges@[i].fmri@),
{
    let mut r: Vec<String> = Vec::new();
    let mut i: usize = 0;
    while i < edges.len()
        invariant
            i <= edges@.len(),
            r@.len() == i,
            forall|j: int| 0 <= j < i ==> (#[trigger] r@[j])@ == edges@[j].fmri@,
        decreases edges@.len() - i,
    {
        r.push(edges[i].fmri.clone());
        i = i + 1;
    }
    assert(texts(r@) =~= Seq::new(edges@.len(), |i: int| edges@[i].fmri@));
    r
}

/// Reads a vertex.
fn read_vertex(vtxxml: &VertexXML, names: &NvNames) -> (r: Result<SasDigraphVertex, Stop>)
    ensures
        match r {
            Ok(vtx) => vertex_of(*vtxxml, *names) == Reading::Read(vtx@),
            Err(Stop::Failed(e)) => vertex_of(*vtxxml, *names)
                == Reading::<VertexView>::Failed(e@),
            Err(Stop::Absent) => vertex_of(*vtxxml, *names) == Reading::<VertexView>::Absent,
        },
{
    let number = match skip_two_bytes(vtxxml.instance.as_str()) {
        Some(number) => number,
        None => {
            return Err(Stop::Absent);
        },
    };
    let instance: u64 = match u64::from_str_radix(number, 16) {
        Ok(instance) => instance,
        Err(e) => {
            return Err(Stop::Failed(ReadError::Instance(e)));
        },
    };
    let edges = match &vtxxml.outgoing_edges {
        Some(outgoing_edges) => Some(read_edges(outgoing_edges)),
        None => None,
    };
    let mut vtx = SasDigraphVertex::new(
        vtxxml.fmri.clone(),
        vtxxml.name.clone(),
        instance,
        edges,
    );
    let ghost fresh = vtx@;
    match read_propgroups(&vtxxml.propgroups, names, &mut vtx.properties) {
        Ok(_) => {},
        Err(stop) => {
            return Err(stop);
        },
    }
    proof {
        let properties = vertex_properties(vtxxml.propgroups@, *names)->Read_0;
        assert(fresh.properties + properties =~= properties);
        assert(vtx@ =~= (VertexView { properties, ..fresh }));
    }
    Ok(vtx)
}

/// Reads the fabric that a document stands for. `None` where the document lacks a field
/// that has to be there.
pub fn try_read_digraph(sasxml: &TopoDigraphXML, names: &NvNames) -> (r: Option<
    Result<SasDigraph, ReadError>,
>)
    ensures
        match r {
            Some(Ok(digraph)) => digraph.wf() && digraph_of(*sasxml, *names) == Reading::Read(
                digraph@,
            ),
            Some(Err(e)) => digraph_of(*sasxml, *names) == Reading::<DigraphView>::Failed(e@),
            None => digraph_of(*sasxml, *names) == Reading::<DigraphView>::Absent,
        },
{
    let mut digraph = SasDigraph::new(
        sasxml.nodename.clone(),
        sasxml.os_version.clone(),
        sasxml.timestamp.clone(),
    );
    let ghost empty = digraph@;
    let ghost all = sasxml.vertices@;
    let mut i: usize = 0;
    assert(all.take(0) =~= Seq::empty());
    while i < sasxml.vertices.len()
        invariant
            i <= all.len(),
            all == sasxml.vertices@,
            digraph.wf(),
            digraph_of(*sasxml, *names) == with_vertices(empty, all, *names),
            with_vertices(empty, all.take(i as int), *names) == Reading::Read(digraph@),
        decreases all.len() - i,
    {
        assert(all.take(i + 1).drop_last() =~= all.take(i as int));
        proof {
            lemma_vertices_stop(empty, all, i + 1, *names);
        }
        match read_vertex(&sasxml.vertices[i], names) {
            Ok(vtx) => {
                digraph.add_vertex(vtx);
            },
            Err(Stop::Failed(e)) => {
                return Some(Err(e));
            },
            Err(Stop::Absent) => {
                return None;
            },
        }
        i = i + 1;
    }
    assert(all.take(i as int) =~= all);
    Some(Ok(digraph))
}

/// Reads the fabric that a document stands for.
pub fn read_digraph(sasxml: &TopoDigraphXML, names: &NvNames) -> (r: Result<
    SasDigraph,
    ReadError,
>)
    requires
        digraph_of(*sasxml, *names) !is Absent,
    ensures
        match r {
            Ok(digraph) => digraph.wf() && digraph_of(*sasxml, *names) == Reading::Read(
                digraph@,
            ),
            Err(e) => digraph_of(*sasxml, *names) == Reading::<DigraphView>::Failed(e@),
        },
{
    try_read_digraph(sasxml, names).unwrap()
}

} // verus!
