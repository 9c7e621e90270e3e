//! Laws of reading: what a fabric holds of the document that it was read from, and where
//! reading stops.

use vstd::prelude::*;

use crate::digraph::{DigraphView, PropertyView, VertexView};
use crate::text::{behind_two_bytes, number_of, radix_error};
use crate::topology::{
    digraph_of, group_parts, group_properties, groups_properties, properties_of, property_complete,
    property_of, property_parts, vertex_of, vertex_properties, with_vertices, EdgeXML, GroupParts,
    NvNames, NvlistXmlArrayElement, NvpairXML, ReadError, ReadErrorView, Reading, TopoDigraphXML,
    VertexXML,
};

verus! {

/// The pairs with a name.
pub open spec fn named(name: Seq<char>) -> spec_fn(NvpairXML) -> bool {
    |p: NvpairXML| p.name is Some && p.name->0@ == name
}

/// The pairs that hold the properties of a group.
pub open spec fn listing(names: NvNames) -> spec_fn(NvpairXML) -> bool {
    |p: NvpairXML|
        p.name is Some && p.name->0@ == names.pg_vals@ && p.name->0@ != names.pg_name@
            && p.nvlist_elements is Some
}

/// What the last pair with a name says.
pub open spec fn last_said(nvpairs: Seq<NvpairXML>, name: Seq<char>) -> Seq<char> {
    nvpairs.filter(named(name)).last().value->0@
}

/// The property that a list of pairs states.
pub open spec fn stated_property(names: NvNames) -> spec_fn(NvlistXmlArrayElement) -> PropertyView {
    |nvl: NvlistXmlArrayElement|
        PropertyView {
            name: last_said(nvl.nvpairs@, names.prop_name@),
            value: last_said(nvl.nvpairs@, names.prop_value@),
        }
}

/// The properties that a group states: none for the group `protocol`.
pub open spec fn stated_in_group(names: NvNames) -> spec_fn(NvlistXmlArrayElement) -> Seq<
    PropertyView,
> {
    |group: NvlistXmlArrayElement|
        {
            let lists = group.nvpairs@.filter(listing(names));
            if lists.len() == 0 || last_said(group.nvpairs@, names.pg_name@) == "protocol"@ {
                Seq::empty()
            } else {
                lists.last().nvlist_elements->0@.map_values(stated_property(names))
            }
        }
}

/// The properties that a list of groups states.
pub open spec fn stated_in_list(names: NvNames) -> spec_fn(NvpairXML) -> Seq<PropertyView> {
    |list: NvpairXML| list.nvlist_elements->0@.map_values(stated_in_group(names)).flatten()
}

/// The properties that a vertex of the document states, in the order of the document.
pub open spec fn stated_properties(vtx: VertexXML, names: NvNames) -> Seq<PropertyView> {
    vtx.propgroups@.map_values(stated_in_list(names)).flatten()
}

/// A vertex of the document is the last with its FMRI.
pub open spec fn last_with_fmri(vertices: Seq<VertexXML>, v: int) -> bool {
    &&& 0 <= v < vertices.len()
    &&& forall|j: int|
        v < j < vertices.len() ==> (#[trigger] vertices[j]).fmri@ != vertices[v].fmri@
}

proof fn lemma_flatten_last<A>(s: Seq<Seq<A>>)
    requires
        s.len() > 0,
    ensures
        s.flatten() == s.drop_last().flatten() + s.last(),
{
    s.lemma_flatten_and_flatten_alt_are_equivalent();
    s.drop_last().lemma_flatten_and_flatten_alt_are_equivalent();
}

proof fn lemma_map_last<A, B>(s: Seq<A>, f: spec_fn(A) -> B)
    requires
        s.len() > 0,
    ensures
        s.map_values(f).len() == s.len(),
        s.map_values(f).drop_last() == s.drop_last().map_values(f),
        s.map_values(f).last() == f(s.last()),
{
    assert(s.map_values(f).drop_last() =~= s.drop_last().map_values(f));
}

/// The parts of a property are those of the last pairs with their names.
proof fn lemma_property_parts(nvpairs: Seq<NvpairXML>, names: NvNames)
    requires
        forall|i: int| 0 <= i < nvpairs.len() ==> (#[trigger] nvpairs[i]).name is Some,
    ensures
        property_parts(nvpairs, names).name is Some <==> nvpairs.filter(
            named(names.prop_name@),
        ).len() > 0,
        property_parts(nvpairs, names).name is Some ==> property_parts(nvpairs, names).name->0
            == last_said(nvpairs, names.prop_name@),
        names.prop_name@ != names.prop_value@ ==> (property_parts(nvpairs, names).value is Some
            <==> nvpairs.filter(named(names.prop_value@)).len() > 0),
        names.prop_name@ == names.prop_value@ ==> property_parts(nvpairs, names).value is None,
        property_parts(nvpairs, names).value is Some ==> property_parts(nvpairs, names).value->0
            == last_said(nvpairs, names.prop_value@),
    decreases nvpairs.len(),
{
    reveal(Seq::filter);
    if nvpairs.len() > 0 {
        assert forall|i: int| 0 <= i < nvpairs.drop_last().len() implies (
        #[trigger] nvpairs.drop_last()[i]).name is Some by {
            assert(nvpairs.drop_last()[i] == nvpairs[i]);
        }
        lemma_property_parts(nvpairs.drop_last(), names);
        assert(nvpairs[nvpairs.len() - 1].name is Some);
    }
}

/// A list of pairs is a property where pairs with both names are there, and says what the
/// last pair with each of the names says.
pub proof fn law_last_pairs_make_property(nvl: NvlistXmlArrayElement, names: NvNames)
    requires
        property_complete(nvl, names),
    ensures
        property_of(nvl, names) is Some <==> names.prop_name@ != names.prop_value@ && (exists|
            i: int,
        |
            0 <= i < nvl.nvpairs@.len() && (#[trigger] nvl.nvpairs@[i]).name->0@
                == names.prop_name@) && (exists|i: int|
            0 <= i < nvl.nvpairs@.len() && (#[trigger] nvl.nvpairs@[i]).name->0@
                == names.prop_value@),
        property_of(nvl, names) is Some ==> property_of(nvl, names)->0 == stated_property(names)(
            nvl,
        ),
        forall|i: int, j: int|
            last_named(nvl.nvpairs@, i, names.prop_name@) && last_named(
                nvl.nvpairs@,
                j,
                names.prop_value@,
            ) && names.prop_name@ != names.prop_value@ ==> property_of(nvl, names) == Some(
                PropertyView {
                    name: (#[trigger] nvl.nvpairs@[i]).value->0@,
                    value: (#[trigger] nvl.nvpairs@[j]).value->0@,
                },
            ),
{
    let pairs = nvl.nvpairs@;
    assert forall|i: int| 0 <= i < pairs.len() implies (#[trigger] pairs[i]).name is Some by {}
    lemma_property_parts(pairs, names);
    lemma_filter_some(pairs, names.prop_name@);
    lemma_filter_some(pairs, names.prop_value@);
    assert forall|i: int, j: int|
        last_named(pairs, i, names.prop_name@) && last_named(pairs, j, names.prop_value@)
            && names.prop_name@ != names.prop_value@ implies property_of(nvl, names) == Some(
        PropertyView {
            name: (#[trigger] pairs[i]).value->0@,
            value: (#[trigger] pairs[j]).value->0@,
        },
    ) by {
        lemma_last_said(pairs, i, names.prop_name@);
        lemma_last_said(pairs, j, names.prop_value@);
    }
}

/// A pair is the last with a name.
pub open spec fn last_named(nvpairs: Seq<NvpairXML>, i: int, name: Seq<char>) -> bool {
    &&& 0 <= i < nvpairs.len()
    &&& nvpairs[i].name is Some && nvpairs[i].name->0@ == name
    &&& forall|j: int|
        i < j < nvpairs.len() ==> !((#[trigger] nvpairs[j]).name is Some && nvpairs[j].name->0@
            == name)
}

/// What the last pair with a name says is said last.
proof fn lemma_last_said(nvpairs: Seq<NvpairXML>, i: int, name: Seq<char>)
    requires
        last_named(nvpairs, i, name),
    ensures
        nvpairs.filter(named(name)).len() > 0,
        nvpairs.filter(named(name)).last() == nvpairs[i],
    decreases nvpairs.len(),
{
    reveal(Seq::filter);
    if i < nvpairs.len() - 1 {
        assert(nvpairs[nvpairs.len() - 1] == nvpairs.last());
        assert forall|j: int| i < j < nvpairs.drop_last().len() implies !((
        #[trigger] nvpairs.drop_last()[j]).name is Some && nvpairs.drop_last()[j].name->0@
            == name) by {
            assert(nvpairs.drop_last()[j] == nvpairs[j]);
        }
        lemma_last_said(nvpairs.drop_last(), i, name);
    }
}

proof fn lemma_filter_some(nvpairs: Seq<NvpairXML>, name: Seq<char>)
    requires
        forall|i: int| 0 <= i < nvpairs.len() ==> (#[trigger] nvpairs[i]).name is Some,
    ensures
        nvpairs.filter(named(name)).len() > 0 <==> exists|i: int|
            0 <= i < nvpairs.len() && (#[trigger] nvpairs[i]).name->0@ == name,
    decreases nvpairs.len(),
{
    reveal(Seq::filter);
    if nvpairs.len() > 0 {
        let front = nvpairs.drop_last();
        assert forall|i: int| 0 <= i < front.len() implies (#[trigger] front[i]).name is Some by {
            assert(front[i] == nvpairs[i]);
        }
        lemma_filter_some(front, name);
        if front.filter(named(name)).len() > 0 {
            let i = choose|i: int| 0 <= i < front.len() && (#[trigger] front[i]).name->0@ == name;
            assert(nvpairs[i] == front[i]);
        }
        if nvpairs.last().name->0@ == name {
            assert(nvpairs[nvpairs.len() - 1].name->0@ == name);
        }
        if exists|i: int| 0 <= i < nvpairs.len() && (#[trigger] nvpairs[i]).name->0@ == name {
            let i = choose|i: int|
                0 <= i < nvpairs.len() && (#[trigger] nvpairs[i]).name->0@ == name;
            if i < front.len() {
                assert(front[i] == nvpairs[i]);
            }
        }
    }
}

/// All pairs of a list can be a property's: each has a name, and a value where it bears one of
/// the two names.
pub proof fn law_complete_means_names_and_values(nvl: NvlistXmlArrayElement, names: NvNames)
    ensures
        property_complete(nvl, names) <==> (forall|i: int|
            0 <= i < nvl.nvpairs@.len() ==> (#[trigger] nvl.nvpairs@[i]).name is Some) && (forall|
            i: int,
        |
            0 <= i < nvl.nvpairs@.len() && ((#[trigger] nvl.nvpairs@[i]).name->0@
                == names.prop_name@ || nvl.nvpairs@[i].name->0@ == names.prop_value@)
                ==> nvl.nvpairs@[i].value is Some),
{
    let pairs = nvl.nvpairs@;
    if (forall|i: int| 0 <= i < pairs.len() ==> (#[trigger] pairs[i]).name is Some) && (forall|
        i: int,
    |
        0 <= i < pairs.len() && ((#[trigger] pairs[i]).name->0@ == names.prop_name@
            || pairs[i].name->0@ == names.prop_value@) ==> pairs[i].value is Some) {
        assert(property_complete(nvl, names));
    }
}

/// A list of pairs can be read as a property.
pub open spec fn readable_property(nvl: NvlistXmlArrayElement, names: NvNames) -> bool {
    property_complete(nvl, names) && property_of(nvl, names) is Some
}

/// A list of properties is read where each of them can be, and gives all of them in order.
pub proof fn law_all_properties_of_list_are_read(
    nvls: Seq<NvlistXmlArrayElement>,
    names: NvNames,
)
    ensures
        properties_of(nvls, names) is Read <==> forall|i: int|
            0 <= i < nvls.len() ==> readable_property(#[trigger] nvls[i], names),
        properties_of(nvls, names) is Read ==> properties_of(nvls, names)->Read_0
            == nvls.map_values(stated_property(names)),
    decreases nvls.len(),
{
    if nvls.len() == 0 {
        assert(nvls.map_values(stated_property(names)) =~= Seq::empty());
    } else {
        let front = nvls.drop_last();
        law_all_properties_of_list_are_read(front, names);
        lemma_map_last(nvls, stated_property(names));
        assert(nvls[nvls.len() - 1] == nvls.last());
        if readable_property(nvls.last(), names) {
            law_last_pairs_make_property(nvls.last(), names);
        }
        if properties_of(nvls, names) is Read {
            assert(properties_of(front, names) is Read);
            assert forall|i: int| 0 <= i < nvls.len() implies readable_property(
                #[trigger] nvls[i],
                names,
            ) by {
                if i < front.len() {
                    assert(front[i] == nvls[i]);
                }
            }
            assert(nvls.map_values(stated_property(names)) =~= front.map_values(
                stated_property(names),
            ).push(stated_property(names)(nvls.last())));
        }
        if forall|i: int| 0 <= i < nvls.len() ==> readable_property(#[trigger] nvls[i], names) {
            assert forall|i: int| 0 <= i < front.len() implies readable_property(
                #[trigger] front[i],
                names,
            ) by {
                assert(front[i] == nvls[i]);
            }
        }
    }
}

/// Reading a list of properties stops at the first that cannot be read. It is an error where
/// both parts do not come up, and there is no answer where a name or a value is missing.
pub proof fn law_first_unreadable_property_stops(
    nvls: Seq<NvlistXmlArrayElement>,
    names: NvNames,
    n: int,
)
    requires
        0 <= n < nvls.len(),
        forall|i: int| 0 <= i < n ==> readable_property(#[trigger] nvls[i], names),
        !readable_property(nvls[n], names),
    ensures
        !property_complete(nvls[n], names) ==> properties_of(nvls, names) is Absent,
        property_complete(nvls[n], names) ==> properties_of(nvls, names) == Reading::<
            Seq<PropertyView>,
        >::Failed(ReadErrorView::Simple("malformed property value nvlist: "@ + nvls[n].shown@)),
    decreases nvls.len(),
{
    let front = nvls.drop_last();
    if n < nvls.len() - 1 {
        assert(front[n] == nvls[n]);
        assert forall|i: int| 0 <= i < n implies readable_property(#[trigger] front[i], names) by {
            assert(front[i] == nvls[i]);
        }
        law_first_unreadable_property_stops(front, names, n);
    } else {
        assert forall|i: int| 0 <= i < front.len() implies readable_property(
            #[trigger] front[i],
            names,
        ) by {
            assert(front[i] == nvls[i]);
        }
        law_all_properties_of_list_are_read(front, names);
    }
}

/// A pair can be part of a group: it has one of the two names, and a value where it names the
/// group.
pub open spec fn part_of_group(p: NvpairXML, names: NvNames) -> bool {
    &&& p.name is Some
    &&& p.name->0@ == names.pg_name@ || p.name->0@ == names.pg_vals@
    &&& p.name->0@ == names.pg_name@ ==> p.value is Some
}

/// The parts of a group are those of the last pairs with their names.
proof fn lemma_group_parts(nvpairs: Seq<NvpairXML>, names: NvNames)
    requires
        forall|i: int| 0 <= i < nvpairs.len() ==> part_of_group(#[trigger] nvpairs[i], names),
    ensures
        group_parts(nvpairs, names) is Read,
        group_parts(nvpairs, names)->Read_0.name == if nvpairs.filter(named(names.pg_name@)).len()
            == 0 {
            Seq::empty()
        } else {
            last_said(nvpairs, names.pg_name@)
        },
        group_parts(nvpairs, names)->Read_0.values == if nvpairs.filter(listing(names)).len() == 0 {
            None
        } else {
            Some(nvpairs.filter(listing(names)).last().nvlist_elements->0@)
        },
    decreases nvpairs.len(),
{
    reveal(Seq::filter);
    if nvpairs.len() > 0 {
        let front = nvpairs.drop_last();
        assert forall|i: int| 0 <= i < front.len() implies part_of_group(
            #[trigger] front[i],
            names,
        ) by {
            assert(front[i] == nvpairs[i]);
        }
        lemma_group_parts(front, names);
        assert(part_of_group(nvpairs[nvpairs.len() - 1], names));
    }
}

/// A group whose pairs all fit has to be named by a text that is not empty. It then gives
/// the properties of its last list, or none where it has no list or is named `protocol`.
pub proof fn law_group_gives_its_list(group: NvlistXmlArrayElement, names: NvNames)
    requires
        forall|i: int|
            0 <= i < group.nvpairs@.len() ==> part_of_group(#[trigger] group.nvpairs@[i], names),
    ensures
        ({
            let namings = group.nvpairs@.filter(named(names.pg_name@));
            let lists = group.nvpairs@.filter(listing(names));
            let name = namings.last().value->0@;
            let given = group_properties(group, names);
            &&& namings.len() == 0 || name.len() == 0 ==> given == Reading::<
                Seq<PropertyView>,
            >::Failed(
                ReadErrorView::Simple("malformed propgroup, "@ + names.pg_name@ + " not set"@),
            )
            &&& namings.len() > 0 && name.len() > 0 && (lists.len() == 0 || name == "protocol"@)
                ==> given == Reading::Read(Seq::<PropertyView>::empty())
            &&& namings.len() > 0 && name.len() > 0 && lists.len() > 0 && name != "protocol"@
                ==> given == properties_of(lists.last().nvlist_elements->0@, names)
        }),
{
    lemma_group_parts(group.nvpairs@, names);
}

/// Reading a group stops at the first pair that does not fit: a pair with another name is an
/// error, and there is no answer where a name or the group's own name is missing.
pub proof fn law_first_odd_pair_stops(group: NvlistXmlArrayElement, names: NvNames, n: int)
    requires
        0 <= n < group.nvpairs@.len(),
        forall|i: int| 0 <= i < n ==> part_of_group(#[trigger] group.nvpairs@[i], names),
        !part_of_group(group.nvpairs@[n], names),
    ensures
        ({
            let p = group.nvpairs@[n];
            let given = group_properties(group, names);
            &&& p.name is None || p.name->0@ == names.pg_name@ ==> given is Absent
            &&& p.name is Some && p.name->0@ != names.pg_name@ ==> given == Reading::<
                Seq<PropertyView>,
            >::Failed(ReadErrorView::Simple("Unexpected nvpair name"@))
        }),
{
    lemma_odd_pair(group.nvpairs@, names, n);
}

proof fn lemma_odd_pair(nvpairs: Seq<NvpairXML>, names: NvNames, n: int)
    requires
        0 <= n < nvpairs.len(),
        forall|i: int| 0 <= i < n ==> part_of_group(#[trigger] nvpairs[i], names),
        !part_of_group(nvpairs[n], names),
    ensures
        nvpairs[n].name is None || nvpairs[n].name->0@ == names.pg_name@ ==> group_parts(
            nvpairs,
            names,
        ) is Absent,
        nvpairs[n].name is Some && nvpairs[n].name->0@ != names.pg_name@ ==> group_parts(
            nvpairs,
            names,
        ) == Reading::<GroupParts>::Failed(ReadErrorView::Simple("Unexpected nvpair name"@)),
    decreases nvpairs.len(),
{
    let front = nvpairs.drop_last();
    assert forall|i: int| 0 <= i < n && i < front.len() implies part_of_group(
        #[trigger] front[i],
        names,
    ) by {
        assert(front[i] == nvpairs[i]);
    }
    if n < nvpairs.len() - 1 {
        assert(front[n] == nvpairs[n]);
        lemma_odd_pair(front, names, n);
    } else {
        lemma_group_parts(front, names);
    }
}

/// A group that is read gives what it states.
proof fn lemma_group_states(group: NvlistXmlArrayElement, names: NvNames)
    requires
        group_properties(group, names) is Read,
    ensures
        group_properties(group, names)->Read_0 == stated_in_group(names)(group),
{
    let pairs = group.nvpairs@;
    if forall|i: int| 0 <= i < pairs.len() ==> part_of_group(#[trigger] pairs[i], names) {
        law_group_gives_its_list(group, names);
        let lists = pairs.filter(listing(names));
        if lists.len() > 0 {
            law_all_properties_of_list_are_read(lists.last().nvlist_elements->0@, names);
        }
    } else {
        let n = lemma_first_odd(pairs, names);
        law_first_odd_pair_stops(group, names, n);
    }
}

proof fn lemma_first_odd(nvpairs: Seq<NvpairXML>, names: NvNames) -> (n: int)
    requires
        !(forall|i: int| 0 <= i < nvpairs.len() ==> part_of_group(#[trigger] nvpairs[i], names)),
    ensures
        0 <= n < nvpairs.len(),
        !part_of_group(nvpairs[n], names),
        forall|i: int| 0 <= i < n ==> part_of_group(#[trigger] nvpairs[i], names),
    decreases nvpairs.len(),
{
    let front = nvpairs.drop_last();
    if forall|i: int| 0 <= i < front.len() ==> part_of_group(#[trigger] front[i], names) {
        assert forall|i: int| 0 <= i < nvpairs.len() - 1 implies part_of_group(
            #[trigger] nvpairs[i],
            names,
        ) by {
            assert(front[i] == nvpairs[i]);
        }
        nvpairs.len() - 1
    } else {
        let n = lemma_first_odd(front, names);
        assert forall|i: int| 0 <= i < n implies part_of_group(#[trigger] nvpairs[i], names) by {
            assert(front[i] == nvpairs[i]);
        }
        n
    }
}

/// A list of groups is read where each group is, and gives the properties of all of them, one
/// group after the other.
pub proof fn law_every_group_is_read(groups: Seq<NvlistXmlArrayElement>, names: NvNames)
    ensures
        groups_properties(groups, names) is Read <==> forall|b: int|
            0 <= b < groups.len() ==> group_properties(#[trigger] groups[b], names) is Read,
        groups_properties(groups, names) is Read ==> groups_properties(groups, names)->Read_0
            == groups.map_values(stated_in_group(names)).flatten(),
    decreases groups.len(),
{
    let f = stated_in_group(names);
    if groups.len() == 0 {
        assert(groups.map_values(f) =~= Seq::empty());
    } else {
        let front = groups.drop_last();
        law_every_group_is_read(front, names);
        lemma_map_last(groups, f);
        lemma_flatten_last(groups.map_values(f));
        assert(groups[groups.len() - 1] == groups.last());
        if group_properties(groups.last(), names) is Read {
            lemma_group_states(groups.last(), names);
        }
        if groups_properties(groups, names) is Read {
            assert(groups_properties(front, names) is Read);
            assert forall|b: int| 0 <= b < groups.len() implies group_properties(
                #[trigger] groups[b],
                names,
            ) is Read by {
                if b < front.len() {
                    assert(front[b] == groups[b]);
                }
            }
        }
        if forall|b: int|
            0 <= b < groups.len() ==> group_properties(#[trigger] groups[b], names) is Read {
            assert forall|b: int| 0 <= b < front.len() implies group_properties(
                #[trigger] front[b],
                names,
            ) is Read by {
                assert(front[b] == groups[b]);
            }
        }
    }
}

/// Reading a list of groups stops at the first group that is not read, and as that group
/// does.
pub proof fn law_first_unread_group_stops(
    groups: Seq<NvlistXmlArrayElement>,
    names: NvNames,
    n: int,
)
    requires
        0 <= n < groups.len(),
        forall|b: int| 0 <= b < n ==> group_properties(#[trigger] groups[b], names) is Read,
        !(group_properties(groups[n], names) is Read),
    ensures
        groups_properties(groups, names) == group_properties(groups[n], names),
    decreases groups.len(),
{
    let front = groups.drop_last();
    assert forall|b: int| 0 <= b < n && b < front.len() implies group_properties(
        #[trigger] front[b],
        names,
    ) is Read by {
        assert(front[b] == groups[b]);
    }
    if n < groups.len() - 1 {
        assert(front[n] == groups[n]);
        law_first_unread_group_stops(front, names, n);
    } else {
        law_every_group_is_read(front, names);
    }
}

/// A pair of a vertex holds groups that can all be read.
pub open spec fn readable_list(list: NvpairXML, names: NvNames) -> bool {
    list.nvlist_elements is Some && forall|b: int|
        0 <= b < list.nvlist_elements->0@.len() ==> group_properties(
            #[trigger] list.nvlist_elements->0@[b],
            names,
        ) is Read
}

/// The properties of a vertex are read where all groups of all its lists are, and are all
/// that these state, in the order of the document.
pub proof fn law_every_list_is_read(propgroups: Seq<NvpairXML>, names: NvNames)
    ensures
        vertex_properties(propgroups, names) is Read <==> forall|a: int|
            0 <= a < propgroups.len() ==> readable_list(#[trigger] propgroups[a], names),
        vertex_properties(propgroups, names) is Read ==> vertex_properties(
            propgroups,
            names,
        )->Read_0 == propgroups.map_values(stated_in_list(names)).flatten(),
    decreases propgroups.len(),
{
    let f = stated_in_list(names);
    if propgroups.len() == 0 {
        assert(propgroups.map_values(f) =~= Seq::empty());
    } else {
        let front = propgroups.drop_last();
        law_every_list_is_read(front, names);
        lemma_map_last(propgroups, f);
        lemma_flatten_last(propgroups.map_values(f));
        assert(propgroups[propgroups.len() - 1] == propgroups.last());
        if propgroups.last().nvlist_elements is Some {
            law_every_group_is_read(propgroups.last().nvlist_elements->0@, names);
        }
        if vertex_properties(propgroups, names) is Read {
            assert(vertex_properties(front, names) is Read);
            assert forall|a: int| 0 <= a < propgroups.len() implies readable_list(
                #[trigger] propgroups[a],
                names,
            ) by {
                if a < front.len() {
                    assert(front[a] == propgroups[a]);
                }
            }
        }
        if forall|a: int|
            0 <= a < propgroups.len() ==> readable_list(#[trigger] propgroups[a], names) {
            assert forall|a: int| 0 <= a < front.len() implies readable_list(
                #[trigger] front[a],
                names,
            ) by {
                assert(front[a] == propgroups[a]);
            }
        }
    }
}

/// Reading the properties of a vertex stops at the first list that is not read: as its first
/// group that is not read does, and without an answer where there is no list.
pub proof fn law_first_unread_list_stops(propgroups: Seq<NvpairXML>, names: NvNames, n: int)
    requires
        0 <= n < propgroups.len(),
        forall|a: int| 0 <= a < n ==> readable_list(#[trigger] propgroups[a], names),
        !readable_list(propgroups[n], names),
    ensures
        !(vertex_properties(propgroups, names) is Read),
        propgroups[n].nvlist_elements is None ==> vertex_properties(propgroups, names) is Absent,
        propgroups[n].nvlist_elements is Some ==> vertex_properties(propgroups, names)
            == groups_properties(propgroups[n].nvlist_elements->0@, names),
    decreases propgroups.len(),
{
    let front = propgroups.drop_last();
    assert forall|a: int| 0 <= a < n && a < front.len() implies readable_list(
        #[trigger] front[a],
        names,
    ) by {
        assert(front[a] == propgroups[a]);
    }
    if n < propgroups.len() - 1 {
        assert(front[n] == propgroups[n]);
        law_first_unread_list_stops(front, names, n);
    } else {
        law_every_list_is_read(front, names);
        if propgroups[n].nvlist_elements is Some {
            law_every_group_is_read(propgroups[n].nvlist_elements->0@, names);
        }
    }
}

/// A vertex is read where its instance number and all its properties can be. What is in its
/// way first is what reading says: the instance number, then the properties.
pub proof fn law_vertex_is_read_where_its_parts_are(vtx: VertexXML, names: NvNames)
    ensures
        behind_two_bytes(vtx.instance@) is None ==> vertex_of(vtx, names) is Absent,
        forall|number: Seq<char>|
            behind_two_bytes(vtx.instance@) == Some(number) && (#[trigger] number_of(
                number,
                16,
            )) is None ==> vertex_of(vtx, names) == Reading::<VertexView>::Failed(
                ReadErrorView::Instance(radix_error(number, 16)),
            ),
        forall|number: Seq<char>|
            behind_two_bytes(vtx.instance@) == Some(number) && (#[trigger] number_of(
                number,
                16,
            )) is Some ==> match vertex_properties(vtx.propgroups@, names) {
                Reading::Read(properties) => vertex_of(vtx, names) is Read,
                Reading::Failed(e) => vertex_of(vtx, names) == Reading::<VertexView>::Failed(e),
                Reading::Absent => vertex_of(vtx, names) is Absent,
            },
{
}

/// A vertex that is read has, whatever its name, the FMRI and the name of the document, the
/// number behind the first two bytes of its instance, all properties that are stated, and
/// the outgoing edges of the document: no list where there is none, else one with the same
/// ends in the same order. It has no box yet.
pub open spec fn holds_vertex(vtx: VertexXML, names: NvNames, v: VertexView) -> bool {
    &&& v.fmri == vtx.fmri@
    &&& v.name == vtx.name@
    &&& behind_two_bytes(vtx.instance@) is Some
    &&& number_of(behind_two_bytes(vtx.instance@)->0, 16) == Some(v.instance)
    &&& v.properties == stated_properties(vtx, names)
    &&& v.outgoing_edges is None <==> vtx.outgoing_edges is None
    &&& vtx.outgoing_edges matches Some(edges) ==> same_ends(edges@, v.outgoing_edges->0)
    &&& v.geometry.x == 0 && v.geometry.y == 0
    &&& v.geometry.width == 0 && v.geometry.height == 0
}

/// Edges lead to the same ends in the same order.
pub open spec fn same_ends(edges: Seq<EdgeXML>, fmris: Seq<Seq<char>>) -> bool {
    &&& fmris.len() == edges.len()
    &&& forall|j: int| 0 <= j < edges.len() ==> #[trigger] fmris[j] == edges[j].fmri@
}

proof fn lemma_vertex_of(vtx: VertexXML, names: NvNames)
    requires
        vertex_of(vtx, names) is Read,
    ensures
        holds_vertex(vtx, names, vertex_of(vtx, names)->Read_0),
{
    law_every_list_is_read(vtx.propgroups@, names);
}

proof fn lemma_with_vertices(
    empty: DigraphView,
    vertices: Seq<VertexXML>,
    names: NvNames,
    v: int,
)
    requires
        with_vertices(empty, vertices, names) is Read,
        last_with_fmri(vertices, v),
    ensures
        with_vertices(empty, vertices, names)->Read_0.vertices.contains_key(vertices[v].fmri@),
        holds_vertex(
            vertices[v],
            names,
            with_vertices(empty, vertices, names)->Read_0.vertices[vertices[v].fmri@],
        ),
    decreases vertices.len(),
{
    let front = vertices.drop_last();
    assert(with_vertices(empty, front, names) is Read);
    assert(vertex_of(vertices.last(), names) is Read);
    lemma_vertex_of(vertices.last(), names);
    if v < vertices.len() - 1 {
        assert(front[v] == vertices[v]);
        assert(vertices[vertices.len() - 1].fmri@ != vertices[v].fmri@);
        assert forall|j: int| v < j < front.len() implies (#[trigger] front[j]).fmri@
            != front[v].fmri@ by {
            assert(front[j] == vertices[j]);
        }
        lemma_with_vertices(empty, front, names, v);
    }
}

/// The fabric that is read from a document holds every vertex of it, with all that the
/// document says of it. Of several with the same FMRI it holds the last.
pub proof fn law_fabric_holds_every_vertex(xml: TopoDigraphXML, names: NvNames, v: int)
    requires
        digraph_of(xml, names) is Read,
        last_with_fmri(xml.vertices@, v),
    ensures
        digraph_of(xml, names)->Read_0.vertices.contains_key(xml.vertices@[v].fmri@),
        holds_vertex(
            xml.vertices@[v],
            names,
            digraph_of(xml, names)->Read_0.vertices[xml.vertices@[v].fmri@],
        ),
{
    let d = DigraphView {
        nodename: xml.nodename@,
        os_version: xml.os_version@,
        timestamp: xml.timestamp@,
        vertices: Map::empty(),
        initiators: Seq::empty(),
    };
    lemma_with_vertices(d, xml.vertices@, names, v);
}

/// A vertex of the fabric has exactly the outgoing edges that the document lists for it: none
/// where there is no list, else as many, and the same at each place.
pub proof fn law_outgoing_edges_are_kept(xml: TopoDigraphXML, names: NvNames, v: int)
    requires
        digraph_of(xml, names) is Read,
        last_with_fmri(xml.vertices@, v),
    ensures
        ({
            let said = xml.vertices@[v].outgoing_edges;
            let vtx = digraph_of(xml, names)->Read_0.vertices[xml.vertices@[v].fmri@];
            let held = vtx.outgoing_edges;
            &&& said is None <==> held is None
            &&& said is Some ==> held->0.len() == said->0@.len()
            &&& said is Some ==> forall|j: int|
                0 <= j < said->0@.len() ==> #[trigger] held->0[j] == said->0@[j].fmri@
        }),
{
    law_fabric_holds_every_vertex(xml, names, v);
}

/// Every part of a run is in the whole.
proof fn lemma_in_flatten<A>(s: Seq<Seq<A>>, i: int, x: A)
    requires
        0 <= i < s.len(),
        s[i].contains(x),
    ensures
        s.flatten().contains(x),
    decreases s.len(),
{
    broadcast use vstd::seq_lib::group_seq_properties;

    lemma_flatten_last(s);
    if i < s.len() - 1 {
        assert(s.drop_last()[i] == s[i]);
        lemma_in_flatten(s.drop_last(), i, x);
    }
}

/// Each property of each named group but `protocol`, in every list of groups, is among the
/// properties of the vertex that is read: with the name and the value that the last pairs
/// say.
pub proof fn law_every_stated_property_is_held(
    xml: TopoDigraphXML,
    names: NvNames,
    v: int,
    a: int,
    b: int,
    naming: int,
    listed: int,
    c: int,
)
    requires
        digraph_of(xml, names) is Read,
        last_with_fmri(xml.vertices@, v),
        0 <= a < xml.vertices@[v].propgroups@.len(),
        0 <= b < xml.vertices@[v].propgroups@[a].nvlist_elements->0@.len(),
        ({
            let pairs = xml.vertices@[v].propgroups@[a].nvlist_elements->0@[b].nvpairs@;
            &&& last_named(pairs, naming, names.pg_name@)
            &&& pairs[naming].value->0@ != "protocol"@
            &&& names.pg_vals@ != names.pg_name@
            &&& 0 <= listed < pairs.len()
            &&& listing(names)(pairs[listed])
            &&& forall|j: int| listed < j < pairs.len() ==> !listing(names)(#[trigger] pairs[j])
            &&& 0 <= c < pairs[listed].nvlist_elements->0@.len()
        }),
    ensures
        ({
            let pairs = xml.vertices@[v].propgroups@[a].nvlist_elements->0@[b].nvpairs@;
            let nvl = pairs[listed].nvlist_elements->0@[c];
            digraph_of(xml, names)->Read_0.vertices[xml.vertices@[v].fmri@].properties.contains(
                PropertyView {
                    name: last_said(nvl.nvpairs@, names.prop_name@),
                    value: last_said(nvl.nvpairs@, names.prop_value@),
                },
            )
        }),
{
    let lists = xml.vertices@[v].propgroups@;
    let groups = lists[a].nvlist_elements->0@;
    let pairs = groups[b].nvpairs@;
    let values = pairs[listed].nvlist_elements->0@;
    let p = stated_property(names)(values[c]);
    law_fabric_holds_every_vertex(xml, names, v);
    lemma_last_said(pairs, naming, names.pg_name@);
    lemma_last_listing(pairs, names, listed);
    assert(stated_in_group(names)(groups[b]) == values.map_values(stated_property(names)));
    assert(values.map_values(stated_property(names))[c] == p);
    let of_groups = groups.map_values(stated_in_group(names));
    assert(of_groups[b].contains(p));
    lemma_in_flatten(of_groups, b, p);
    let of_lists = lists.map_values(stated_in_list(names));
    assert(of_lists[a] == of_groups.flatten());
    lemma_in_flatten(of_lists, a, p);
}

proof fn lemma_last_listing(nvpairs: Seq<NvpairXML>, names: NvNames, i: int)
    requires
        0 <= i < nvpairs.len(),
        listing(names)(nvpairs[i]),
        forall|j: int| i < j < nvpairs.len() ==> !listing(names)(#[trigger] nvpairs[j]),
    ensures
        nvpairs.filter(listing(names)).len() > 0,
        nvpairs.filter(listing(names)).last() == nvpairs[i],
    decreases nvpairs.len(),
{
    reveal(Seq::filter);
    if i < nvpairs.len() - 1 {
        assert(!listing(names)(nvpairs[nvpairs.len() - 1]));
        assert forall|j: int| i < j < nvpairs.drop_last().len() implies !listing(names)(
            #[trigger] nvpairs.drop_last()[j],
        ) by {
            assert(nvpairs.drop_last()[j] == nvpairs[j]);
        }
        lemma_last_listing(nvpairs.drop_last(), names, i);
    }
}

/// A fabric is read where every vertex of the document is; it keeps what the document says
/// of the host.
pub proof fn law_fabric_is_read_where_its_vertices_are(xml: TopoDigraphXML, names: NvNames)
    ensures
        digraph_of(xml, names) is Read <==> forall|v: int|
            0 <= v < xml.vertices@.len() ==> vertex_of(#[trigger] xml.vertices@[v], names) is Read,
        digraph_of(xml, names) is Read ==> digraph_of(xml, names)->Read_0.nodename == xml.nodename@
            && digraph_of(xml, names)->Read_0.os_version == xml.os_version@ && digraph_of(
            xml,
            names,
        )->Read_0.timestamp == xml.timestamp@,
{
    let d = DigraphView {
        nodename: xml.nodename@,
        os_version: xml.os_version@,
        timestamp: xml.timestamp@,
        vertices: Map::empty(),
        initiators: Seq::empty(),
    };
    lemma_all_vertices_read(d, xml.vertices@, names);
}

proof fn lemma_all_vertices_read(empty: DigraphView, vertices: Seq<VertexXML>, names: NvNames)
    ensures
        with_vertices(empty, vertices, names) is Read <==> forall|v: int|
            0 <= v < vertices.len() ==> vertex_of(#[trigger] vertices[v], names) is Read,
        with_vertices(empty, vertices, names) is Read ==> with_vertices(
            empty,
            vertices,
            names,
        )->Read_0.nodename == empty.nodename && with_vertices(
            empty,
            vertices,
            names,
        )->Read_0.os_version == empty.os_version && with_vertices(
            empty,
            vertices,
            names,
        )->Read_0.timestamp == empty.timestamp,
    decreases vertices.len(),
{
    if vertices.len() > 0 {
        let front = vertices.drop_last();
        lemma_all_vertices_read(empty, front, names);
        assert(vertices[vertices.len() - 1] == vertices.last());
        if with_vertices(empty, vertices, names) is Read {
            assert(with_vertices(empty, front, names) is Read);
            assert forall|v: int| 0 <= v < vertices.len() implies vertex_of(
                #[trigger] vertices[v],
                names,
            ) is Read by {
                if v < front.len() {
                    assert(front[v] == vertices[v]);
                }
            }
        }
        if forall|v: int|
            0 <= v < vertices.len() ==> vertex_of(#[trigger] vertices[v], names) is Read {
            assert forall|v: int| 0 <= v < front.len() implies vertex_of(
                #[trigger] front[v],
                names,
            ) is Read by {
                assert(front[v] == vertices[v]);
            }
        }
    }
}

/// Reading a document stops at its first vertex that is not read, and as that vertex does.
pub proof fn law_first_unread_vertex_stops(xml: TopoDigraphXML, names: NvNames, n: int)
    requires
        0 <= n < xml.vertices@.len(),
        forall|v: int| 0 <= v < n ==> vertex_of(#[trigger] xml.vertices@[v], names) is Read,
        !(vertex_of(xml.vertices@[n], names) is Read),
    ensures
        vertex_of(xml.vertices@[n], names) is Absent ==> digraph_of(xml, names) is Absent,
        vertex_of(xml.vertices@[n], names) matches Reading::Failed(e) ==> digraph_of(xml, names)
            == Reading::<DigraphView>::Failed(e),
{
    let d = DigraphView {
        nodename: xml.nodename@,
        os_version: xml.os_version@,
        timestamp: xml.timestamp@,
        vertices: Map::empty(),
        initiators: Seq::empty(),
    };
    lemma_first_unread_vertex(d, xml.vertices@, names, n);
}

proof fn lemma_first_unread_vertex(
    empty: DigraphView,
    vertices: Seq<VertexXML>,
    names: NvNames,
    n: int,
)
    requires
        0 <= n < vertices.len(),
        forall|v: int| 0 <= v < n ==> vertex_of(#[trigger] vertices[v], names) is Read,
        !(vertex_of(vertices[n], names) is Read),
    ensures
        vertex_of(vertices[n], names) is Absent ==> with_vertices(empty, vertices, names) is Absent,
        vertex_of(vertices[n], names) matches Reading::Failed(e) ==> with_vertices(
            empty,
            vertices,
            names,
        ) == Reading::<DigraphView>::Failed(e),
    decreases vertices.len(),
{
    let front = vertices.drop_last();
    assert forall|v: int| 0 <= v < n && v < front.len() implies vertex_of(
        #[trigger] front[v],
        names,
    ) is Read by {
        assert(front[v] == vertices[v]);
    }
    if n < vertices.len() - 1 {
        assert(front[n] == vertices[n]);
        lemma_first_unread_vertex(empty, front, names, n);
    } else {
        lemma_all_vertices_read(empty, front, names);
    }
}

/// How much all parts of a run hold together.
pub open spec fn total<A>(s: Seq<Seq<A>>) -> nat
    decreases s.len(),
{
    if s.len() == 0 {
        0
    } else {
        s[0].len() + total(s.drop_first())
    }
}

proof fn lemma_flatten_total<A>(s: Seq<Seq<A>>)
    ensures
        s.flatten().len() == total(s),
    decreases s.len(),
{
    if s.len() > 0 {
        lemma_flatten_total(s.drop_first());
    }
}

/// A vertex has as many properties as all groups of all its lists state together.
pub proof fn law_number_of_properties(xml: TopoDigraphXML, names: NvNames, v: int)
    requires
        digraph_of(xml, names) is Read,
        last_with_fmri(xml.vertices@, v),
    ensures
        ({
            let lists = xml.vertices@[v].propgroups@;
            let held = digraph_of(xml, names)->Read_0.vertices[xml.vertices@[v].fmri@].properties;
            &&& held.len() == total(lists.map_values(stated_in_list(names)))
            &&& forall|a: int|
                0 <= a < lists.len() ==> stated_in_list(names)(#[trigger] lists[a]).len() == total(
                    lists[a].nvlist_elements->0@.map_values(stated_in_group(names)),
                )
        }),
{
    let lists = xml.vertices@[v].propgroups@;
    law_fabric_holds_every_vertex(xml, names, v);
    lemma_flatten_total(lists.map_values(stated_in_list(names)));
    assert forall|a: int| 0 <= a < lists.len() implies stated_in_list(names)(
        #[trigger] lists[a],
    ).len() == total(lists[a].nvlist_elements->0@.map_values(stated_in_group(names))) by {
        lemma_flatten_total(lists[a].nvlist_elements->0@.map_values(stated_in_group(names)));
    }
}

/// An error tells its message, or why the instance number is none.
pub proof fn law_errors_tell_their_cause(e: ReadError)
    ensures
        e matches ReadError::Simple(simple) ==> e@ == ReadErrorView::Simple(simple.0@),
        e matches ReadError::Instance(cause) ==> e@ == ReadErrorView::Instance(cause),
{
}

} // verus!
