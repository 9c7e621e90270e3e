//! The directed graph of a SAS fabric.

use vstd::hash_map::StringHashMap;
use vstd::prelude::*;

verus! {

/// The name of the vertices from which the fabric is walked.
pub const INITIATOR: &'static str = "initiator";

pub const PORT: &'static str = "port";

pub const EXPANDER: &'static str = "expander";

pub const TARGET: &'static str = "target";

/// The texts of a sequence of strings.
pub open spec fn texts(s: Seq<String>) -> Seq<Seq<char>> {
    Seq::new(s.len(), |i: int| s[i]@)
}

/// An error that is no more than its message.
#[derive(Debug)]
pub struct SimpleError(pub String);

impl View for SimpleError {
    type V = Seq<char>;

    open spec fn view(&self) -> Seq<char> {
        self.0@
    }
}

impl SimpleError {
    /// The message.
    pub fn to_string(&self) -> (r: String)
        ensures
            r@ == self@,
    {
        self.0.clone()
    }
}

/// The box in which a vertex is drawn.
#[derive(Debug, Clone, Copy)]
pub struct SasGeometry {
    pub x: u32,
    pub y: u32,
    pub width: u32,
    pub height: u32,
}

impl SasGeometry {
    pub fn new(x: u32, y: u32, width: u32, height: u32) -> (r: SasGeometry)
        ensures
            r == (SasGeometry { x, y, width, height }),
    {
        SasGeometry { x, y, width, height }
    }
}

/// A named property of a vertex.
#[derive(Debug)]
pub struct SasDigraphProperty {
    pub name: String,
    pub value: String,
}

/// What a property says.
pub struct PropertyView {
    pub name: Seq<char>,
    pub value: Seq<char>,
}

impl View for SasDigraphProperty {
    type V = PropertyView;

    open spec fn view(&self) -> PropertyView {
        PropertyView { name: self.name@, value: self.value@ }
    }
}

impl SasDigraphProperty {
    pub fn new(name: String, value: String) -> (r: SasDigraphProperty)
        ensures
            r@ == (PropertyView { name: name@, value: value@ }),
    {
        SasDigraphProperty { name, value }
    }
}

/// What each of a sequence of properties says.
pub open spec fn property_views(s: Seq<SasDigraphProperty>) -> Seq<PropertyView> {
    Seq::new(s.len(), |i: int| s[i]@)
}

/// A vertex: a component of the fabric.
#[derive(Debug)]
pub struct SasDigraphVertex {
    pub fmri: String,
    pub name: String,
    pub instance: u64,
    pub properties: Vec<SasDigraphProperty>,
    pub geometry: SasGeometry,
    pub outgoing_edges: Option<Vec<String>>,
}

/// What a vertex is.
#[verifier::ext_equal]
pub struct VertexView {
    pub fmri: Seq<char>,
    pub name: Seq<char>,
    pub instance: u64,
    pub properties: Seq<PropertyView>,
    pub geometry: SasGeometry,
    pub outgoing_edges: Option<Seq<Seq<char>>>,
}

impl VertexView {
    /// The same vertex, drawn elsewhere.
    pub open spec fn placed(self, geometry: SasGeometry) -> VertexView {
        VertexView { geometry, ..self }
    }

    /// The FMRIs to which edges lead, none where the vertex has no list of them.
    pub open spec fn edges(self) -> Seq<Seq<char>> {
        match self.outgoing_edges {
            Some(edges) => edges,
            None => Seq::empty(),
        }
    }
}

/// The edges of a vertex as texts.
pub open spec fn edge_texts(edges: Option<Vec<String>>) -> Option<Seq<Seq<char>>> {
    match edges {
        Some(v) => Some(texts(v@)),
        None => None,
    }
}

impl View for SasDigraphVertex {
    type V = VertexView;

    open spec fn view(&self) -> VertexView {
        VertexView {
            fmri: self.fmri@,
            name: self.name@,
            instance: self.instance,
            properties: property_views(self.properties@),
            geometry: self.geometry,
            outgoing_edges: edge_texts(self.outgoing_edges),
        }
    }
}

impl SasDigraphVertex {
    pub fn new(
        fmri: String,
        name: String,
        instance: u64,
        outgoing_edges: Option<Vec<String>>,
    ) -> (r: SasDigraphVertex)
        ensures
            r@ == (VertexView {
                fmri: fmri@,
                name: name@,
                instance,
                properties: Seq::empty(),
                geometry: SasGeometry { x: 0, y: 0, width: 0, height: 0 },
                outgoing_edges: edge_texts(outgoing_edges),
            }),
    {
        let properties: Vec<SasDigraphProperty> = Vec::new();
        let geometry = SasGeometry::new(0, 0, 0, 0);
        let r = SasDigraphVertex { fmri, name, instance, properties, geometry, outgoing_edges };
        assert(property_views(r.properties@) =~= Seq::empty());
        r
    }
}

/// Vertices, found by their FMRI.
pub struct VertexMap {
    index: StringHashMap<usize>,
    slots: Vec<SasDigraphVertex>,
}

/// Each vertex stands under its own FMRI.
pub open spec fn keyed(vertices: Map<Seq<char>, VertexView>) -> bool {
    forall|k: Seq<char>| #[trigger] vertices.contains_key(k) ==> vertices[k].fmri == k
}

impl View for VertexMap {
    type V = Map<Seq<char>, VertexView>;

    closed spec fn view(&self) -> Map<Seq<char>, VertexView> {
        Map::new(
            |k: Seq<char>| self.index@.contains_key(k),
            |k: Seq<char>| self.slots@[self.index@[k] as int]@,
        )
    }
}

impl VertexMap {
    /// The index leads to each vertex, and to nothing else.
    pub closed spec fn wf(&self) -> bool {
        &&& forall|k: Seq<char>| #[trigger]
            self.index@.contains_key(k) ==> self.index@[k] < self.slots@.len()
                && self.slots@[self.index@[k] as int].fmri@ == k
        &&& forall|i: int|
            0 <= i < self.slots@.len() ==> self.index@.contains_key(
                (#[trigger] self.slots@[i]).fmri@,
            ) && self.index@[self.slots@[i].fmri@] == i
    }

    /// The vertices in the order in which their FMRIs first came.
    pub closed spec fn entries(&self) -> Seq<VertexView> {
        Seq::new(self.slots@.len(), |i: int| self.slots@[i]@)
    }

    /// The entries are the vertices, each under its own FMRI.
    pub proof fn lemma_entries(&self)
        requires
            self.wf(),
        ensures
            keyed(self@),
            self@.dom().finite(),
            forall|i: int|
                0 <= i < self.entries().len() ==> self@.contains_key(
                    (#[trigger] self.entries()[i]).fmri,
                ) && self@[self.entries()[i].fmri] == self.entries()[i],
            forall|k: Seq<char>| #[trigger]
                self@.contains_key(k) ==> exists|i: int|
                    0 <= i < self.entries().len() && #[trigger] self.entries()[i] == self@[k],
    {
        assert forall|k: Seq<char>| #[trigger] self@.contains_key(k) implies exists|i: int|
            0 <= i < self.entries().len() && #[trigger] self.entries()[i] == self@[k] by {
            let i = self.index@[k] as int;
            assert(self.entries()[i] == self@[k]);
        }
        let fmris = Seq::new(self.entries().len(), |i: int| self.entries()[i].fmri);
        vstd::seq_lib::seq_to_set_is_finite(fmris);
        assert(self@.dom().subset_of(fmris.to_set())) by {
            assert forall|k: Seq<char>| self@.dom().contains(k) implies fmris.to_set().contains(
                k,
            ) by {
                assert(fmris[self.index@[k] as int] == k);
            }
        }
        vstd::set_lib::lemma_set_subset_finite(fmris.to_set(), self@.dom());
    }

    pub fn new() -> (r: VertexMap)
        ensures
            r.wf(),
            r@ == Map::<Seq<char>, VertexView>::empty(),
    {
        let r = VertexMap { index: StringHashMap::new(), slots: Vec::new() };
        assert(r@ =~= Map::<Seq<char>, VertexView>::empty());
        r
    }

    /// Puts a vertex under its FMRI, in place of any that was there.
    pub fn insert(&mut self, vtx: SasDigraphVertex)
        requires
            old(self).wf(),
        ensures
            final(self).wf(),
            final(self)@ == old(self)@.insert(vtx@.fmri, vtx@),
    {
        let ghost before = *self;
        let ghost v = vtx@;
        match self.position(vtx.fmri.as_str()) {
            Some(i) => {
                self.slots.set(i, vtx);
            },
            None => {
                let i: usize = self.slots.len();
                self.index.insert(vtx.fmri.clone(), i);
                self.slots.push(vtx);
            },
        }
        assert(self@ =~= before@.insert(v.fmri, v));
    }

    /// How many vertices there are.
    pub fn len(&self) -> (r: usize)
        ensures
            r == self.entries().len(),
    {
        self.slots.len()
    }

    /// The entry of an FMRI.
    pub fn position(&self, fmri: &str) -> (r: Option<usize>)
        requires
            self.wf(),
        ensures
            match r {
                Some(i) => self@.contains_key(fmri@) && i < self.entries().len()
                    && self.entries()[i as int] == self@[fmri@],
                None => !self@.contains_key(fmri@),
            },
            r matches Some(i) ==> self.entries()[i as int].fmri == fmri@,
    {
        match self.index.get(fmri) {
            Some(i) => Some(*i),
            None => None,
        }
    }

    /// The vertex of an entry.
    pub fn entry(&self, i: usize) -> (r: &SasDigraphVertex)
        requires
            i < self.entries().len(),
        ensures
            r@ == self.entries()[i as int],
    {
        &self.slots[i]
    }

    /// The vertex of an FMRI.
    pub fn get(&self, fmri: &str) -> (r: Option<&SasDigraphVertex>)
        requires
            self.wf(),
        ensures
            match r {
                Some(vtx) => self@.contains_key(fmri@) && vtx@ == self@[fmri@],
                None => !self@.contains_key(fmri@),
            },
    {
        match self.position(fmri) {
            Some(i) => Some(&self.slots[i]),
            None => None,
        }
    }

    /// Moves the box of a vertex.
    pub fn place(&mut self, fmri: &str, geometry: SasGeometry)
        requires
            old(self).wf(),
            old(self)@.contains_key(fmri@),
        ensures
            final(self).wf(),
            final(self)@ == old(self)@.insert(fmri@, old(self)@[fmri@].placed(geometry)),
    {
        let ghost before = *self;
        if let Some(i) = self.position(fmri) {
            self.slots[i].geometry = geometry;
        }
        assert(self@ =~= before@.insert(fmri@, before@[fmri@].placed(geometry)));
    }
}

/// The fabric: its host, its vertices and the initiators among them.
pub struct SasDigraph {
    /// Node name of the host.
    pub nodename: String,
    /// Version of its operating system.
    pub os_version: String,
    /// Time of the snapshot, as ISO 8601 writes it.
    pub timestamp: String,
    /// The vertices, found by their FMRI.
    pub vertices: VertexMap,
    /// The FMRIs of the initiators.
    pub initiators: Vec<String>,
}

/// What a fabric is.
#[verifier::ext_equal]
pub struct DigraphView {
    pub nodename: Seq<char>,
    pub os_version: Seq<char>,
    pub timestamp: Seq<char>,
    pub vertices: Map<Seq<char>, VertexView>,
    pub initiators: Seq<Seq<char>>,
}

impl View for SasDigraph {
    type V = DigraphView;

    open spec fn view(&self) -> DigraphView {
        DigraphView {
            nodename: self.nodename@,
            os_version: self.os_version@,
            timestamp: self.timestamp@,
            vertices: self.vertices@,
            initiators: texts(self.initiators@),
        }
    }
}

impl DigraphView {
    /// The fabric with one vertex more: under its FMRI, and among the initiators where that
    /// is its name.
    pub open spec fn with_vertex(self, vtx: VertexView) -> DigraphView {
        DigraphView {
            vertices: self.vertices.insert(vtx.fmri, vtx),
            initiators: if vtx.name == INITIATOR@ {
                self.initiators.push(vtx.fmri)
            } else {
                self.initiators
            },
            ..self
        }
    }
}

impl SasDigraph {
    /// The vertices can be found.
    pub open spec fn wf(&self) -> bool {
        self.vertices.wf()
    }

    pub fn new(nodename: String, os_version: String, timestamp: String) -> (r: SasDigraph)
        ensures
            r.wf(),
            r@ == (DigraphView {
                nodename: nodename@,
                os_version: os_version@,
                timestamp: timestamp@,
                vertices: Map::empty(),
                initiators: Seq::empty(),
            }),
    {
        let vertices = VertexMap::new();
        let initiators: Vec<String> = Vec::new();
        let r = SasDigraph { nodename, os_version, timestamp, vertices, initiators };
        assert(texts(r.initiators@) =~= Seq::empty());
        r
    }

    /// Adds a vertex.
    pub fn add_vertex(&mut self, vtx: SasDigraphVertex)
        requires
            old(self).wf(),
        ensures
            final(self).wf(),
            final(self)@ == old(self)@.with_vertex(vtx@),
    {
        let ghost before = self@;
        let ghost v = vtx@;
        if vtx.name == INITIATOR.to_string() {
            self.initiators.push(vtx.fmri.clone());
        }
        self.vertices.insert(vtx);
        assert(self@ =~= before.with_vertex(v));
    }
}

} // verus!
