//! Reading mesh objects out of a 3MF model: the XML events of
//! `3D/3dmodel.model` are folded into meshes by `MeshCollector`.

use vstd::prelude::*;

use crate::text::{decimal, parse_u32, parsed_u32, push_decimal, push_str, text_is};

verus! {

// ---------------------------------------------------------------------------
// Meshes
// ---------------------------------------------------------------------------

/// The raw text of a vertex's `x`, `y` and `z` attributes, as found in the file.
pub struct VertexText {
    pub x: Option<String>,
    pub y: Option<String>,
    pub z: Option<String>,
}

/// The characters of an optional text.
pub open spec fn opt_text(t: Option<String>) -> Option<Seq<char>> {
    match t {
        Some(s) => Some(s@),
        None => None,
    }
}

/// The mathematical model of a `VertexText`.
pub struct VertexTextView {
    pub x: Option<Seq<char>>,
    pub y: Option<Seq<char>>,
    pub z: Option<Seq<char>>,
}

impl View for VertexText {
    type V = VertexTextView;

    open spec fn view(&self) -> VertexTextView {
        VertexTextView { x: opt_text(self.x), y: opt_text(self.y), z: opt_text(self.z) }
    }
}

/// A mesh object of a 3MF model; `V` is the vertex type.
pub struct Mesh<V> {
    pub id: u32,
    pub name: String,
    pub vertices: Vec<V>,
    pub triangles: Vec<(u32, u32, u32)>,
}

/// The mathematical model of a `Mesh`.
pub struct MeshView<W> {
    pub id: u32,
    pub name: Seq<char>,
    pub vertices: Seq<W>,
    pub triangles: Seq<(u32, u32, u32)>,
}

impl<V: View> View for Mesh<V> {
    type V = MeshView<V::V>;

    open spec fn view(&self) -> MeshView<V::V> {
        MeshView {
            id: self.id,
            name: self.name@,
            vertices: self.vertices@.map_values(|v: V| v@),
            triangles: self.triangles@,
        }
    }
}

/// The models of a sequence of meshes.
pub open spec fn mesh_views(ms: Seq<Mesh<VertexText>>) -> Seq<MeshView<VertexTextView>> {
    ms.map_values(|m: Mesh<VertexText>| m@)
}

/// A copy of an optional attribute text.
fn copy_text(t: &Option<String>) -> (r: Option<String>)
    ensures
        r == *t,
{
    match t {
        Some(s) => Some(s.clone()),
        None => None,
    }
}

/// A copy of a vertex's attribute texts.
fn copy_vertex(v: &VertexText) -> (r: VertexText)
    ensures
        r == *v,
{
    VertexText { x: copy_text(&v.x), y: copy_text(&v.y), z: copy_text(&v.z) }
}

/// A copy of a sequence of vertices.
fn copy_vertices(vs: &Vec<VertexText>) -> (r: Vec<VertexText>)
    ensures
        r@ == vs@,
{
    let mut r: Vec<VertexText> = Vec::new();
    let mut i: usize = 0;
    while i < vs.len()
        invariant
            i <= vs.len(),
            r@ == vs@.take(i as int),
        decreases vs.len() - i,
    {
        r.push(copy_vertex(&vs[i]));
        assert(vs@.take(i + 1) =~= vs@.take(i as int).push(vs@[i as int]));
        i = i + 1;
    }
    assert(vs@.take(vs.len() as int) =~= vs@);
    r
}

/// A copy of a sequence of triangles.
fn copy_triangles(ts: &Vec<(u32, u32, u32)>) -> (r: Vec<(u32, u32, u32)>)
    ensures
        r@ == ts@,
{
    let mut r: Vec<(u32, u32, u32)> = Vec::new();
    let mut i: usize = 0;
    while i < ts.len()
        invariant
            i <= ts.len(),
            r@ == ts@.take(i as int),
        decreases ts.len() - i,
    {
        r.push(ts[i]);
        assert(ts@.take(i + 1) =~= ts@.take(i as int).push(ts@[i as int]));
        i = i + 1;
    }
    assert(ts@.take(ts.len() as int) =~= ts@);
    r
}

// ---------------------------------------------------------------------------
// XML events
// ---------------------------------------------------------------------------

/// An attribute of an XML tag: its raw key and its raw (unescaped) value.
pub struct XmlAttribute {
    pub key: String,
    pub value: String,
}

/// The mathematical model of an `XmlAttribute`.
pub struct XmlAttributeView {
    pub key: Seq<char>,
    pub value: Seq<char>,
}

impl View for XmlAttribute {
    type V = XmlAttributeView;

    open spec fn view(&self) -> XmlAttributeView {
        XmlAttributeView { key: self.key@, value: self.value@ }
    }
}

/// A start or empty-element tag: its local name and its attributes in order,
/// `None` standing for an attribute that could not be read.
pub struct XmlTag {
    pub name: String,
    pub attributes: Vec<Option<XmlAttribute>>,
}

/// The mathematical model of an `XmlTag`.
pub struct XmlTagView {
    pub name: Seq<char>,
    pub attributes: Seq<Option<XmlAttributeView>>,
}

/// The model of an attribute slot.
pub open spec fn attribute_view(a: Option<XmlAttribute>) -> Option<XmlAttributeView> {
    match a {
        Some(x) => Some(x@),
        None => None,
    }
}

impl View for XmlTag {
    type V = XmlTagView;

    open spec fn view(&self) -> XmlTagView {
        XmlTagView {
            name: self.name@,
            attributes: self.attributes@.map_values(|a: Option<XmlAttribute>| attribute_view(a)),
        }
    }
}

/// The XML events that the model reader distinguishes.
pub enum XmlEvent {
    /// A start tag or an empty-element tag.
    Open(XmlTag),
    /// An end tag, with its local name.
    Close(String),
    /// The end of the document.
    Eof,
    /// Any other event (text, comments, declarations, ...).
    Other,
}

/// The mathematical model of an `XmlEvent`.
pub enum XmlEventView {
    Open(XmlTagView),
    Close(Seq<char>),
    Eof,
    Other,
}

impl View for XmlEvent {
    type V = XmlEventView;

    open spec fn view(&self) -> XmlEventView {
        match self {
            XmlEvent::Open(t) => XmlEventView::Open(t@),
            XmlEvent::Close(n) => XmlEventView::Close(n@),
            XmlEvent::Eof => XmlEventView::Eof,
            XmlEvent::Other => XmlEventView::Other,
        }
    }
}

/// The value of the first readable attribute whose key is `key`.
pub open spec fn attribute(attrs: Seq<Option<XmlAttributeView>>, key: Seq<char>) -> Option<
    Seq<char>,
>
    decreases attrs.len(),
{
    if attrs.len() == 0 {
        None
    } else {
        match attrs[0] {
            Some(a) => if a.key == key {
                Some(a.value)
            } else {
                attribute(attrs.drop_first(), key)
            },
            None => attribute(attrs.drop_first(), key),
        }
    }
}

/// An attribute read as a `u32`, `0` when it is missing or not a number.
pub open spec fn attribute_number(attrs: Seq<Option<XmlAttributeView>>, key: Seq<char>) -> u32 {
    match attribute(attrs, key) {
        Some(v) => match parsed_u32(v) {
            Some(n) => n,
            None => 0,
        },
        None => 0,
    }
}

/// The value of the first readable attribute of `tag` whose key is `key`.
pub fn attr_value(tag: &XmlTag, key: &str) -> (r: Option<String>)
    ensures
        opt_text(r) == attribute(tag@.attributes, key@),
{
    let attrs = &tag.attributes;
    let ghost views = tag@.attributes;
    let mut i: usize = 0;
    assert(views.skip(0) =~= views);
    while i < attrs.len()
        invariant
            i <= attrs.len(),
            views == attrs@.map_values(|a: Option<XmlAttribute>| attribute_view(a)),
            views == tag@.attributes,
            attribute(views.skip(i as int), key@) == attribute(views, key@),
        decreases attrs.len() - i,
    {
        assert(views.skip(i as int).drop_first() =~= views.skip(i + 1));
        assert(views.skip(i as int)[0] == attribute_view(attrs@[i as int]));
        match &attrs[i] {
            Some(a) => {
                assert(attribute_view(attrs@[i as int]) == Some(a@));
                if text_is(a.key.as_str(), key) {
                    assert(attribute(views.skip(i as int), key@) == Some(a.value@));
                    return Some(a.value.clone());
                }
            },
            None => {},
        }
        i = i + 1;
    }
    None
}

/// An attribute of `tag` read as a `u32`, `0` when it is missing or not a number.
pub fn attr_number(tag: &XmlTag, key: &str) -> (r: u32)
    ensures
        r == attribute_number(tag@.attributes, key@),
{
    match attr_value(tag, key) {
        Some(v) => match parse_u32(v.as_str()) {
            Some(n) => n,
            None => 0,
        },
        None => 0,
    }
}

// ---------------------------------------------------------------------------
// Folding events into meshes
// ---------------------------------------------------------------------------

/// The state of the fold over the model's events.
pub struct ScanState {
    pub id: u32,
    pub name: Seq<char>,
    pub vertices: Seq<VertexTextView>,
    pub triangles: Seq<(u32, u32, u32)>,
    pub in_mesh: bool,
    pub meshes: Seq<MeshView<VertexTextView>>,
}

/// The state before the first event.
pub open spec fn scan_start() -> ScanState {
    ScanState {
        id: 0,
        name: Seq::empty(),
        vertices: Seq::empty(),
        triangles: Seq::empty(),
        in_mesh: false,
        meshes: Seq::empty(),
    }
}

/// The name given to an object without a `name` attribute.
pub open spec fn default_object_name(id: u32) -> Seq<char> {
    "Object "@ + decimal(id as nat)
}

/// The effect of a start or empty-element tag: `object` starts a new object
/// (its id, 0 when unreadable, and its name, `Object <id>` when missing),
/// `mesh` opens the mesh, and inside it `vertex` and `triangle` add a vertex
/// (its raw coordinate texts) or a triangle (its corner indices, 0 when
/// unreadable).
pub open spec fn scan_open(s: ScanState, tag: XmlTagView) -> ScanState {
    let attrs = tag.attributes;
    if tag.name == "object"@ {
        let id = attribute_number(attrs, "id"@);
        ScanState {
            id: id,
            name: match attribute(attrs, "name"@) {
                Some(v) => v,
                None => default_object_name(id),
            },
            vertices: Seq::empty(),
            triangles: Seq::empty(),
            in_mesh: s.in_mesh,
            meshes: s.meshes,
        }
    } else if tag.name == "mesh"@ {
        ScanState { in_mesh: true, ..s }
    } else if tag.name == "vertex"@ && s.in_mesh {
        ScanState {
            vertices: s.vertices.push(
                VertexTextView {
                    x: attribute(attrs, "x"@),
                    y: attribute(attrs, "y"@),
                    z: attribute(attrs, "z"@),
                },
            ),
            ..s
        }
    } else if tag.name == "triangle"@ && s.in_mesh {
        ScanState {
            triangles: s.triangles.push(
                (
                    attribute_number(attrs, "v1"@),
                    attribute_number(attrs, "v2"@),
                    attribute_number(attrs, "v3"@),
                ),
            ),
            ..s
        }
    } else {
        s
    }
}

/// The effect of an end tag with local name `name`: `mesh` closes the mesh,
/// and `object` emits the current object when it has vertices and triangles.
pub open spec fn scan_close(s: ScanState, name: Seq<char>) -> ScanState {
    if name == "mesh"@ {
        ScanState { in_mesh: false, ..s }
    } else if name == "object"@ && s.vertices.len() > 0 && s.triangles.len() > 0 {
        ScanState {
            meshes: s.meshes.push(
                MeshView { id: s.id, name: s.name, vertices: s.vertices, triangles: s.triangles },
            ),
            ..s
        }
    } else {
        s
    }
}

/// The effect of one event.
pub open spec fn scan_step(s: ScanState, ev: XmlEventView) -> ScanState {
    match ev {
        XmlEventView::Open(tag) => scan_open(s, tag),
        XmlEventView::Close(name) => scan_close(s, name),
        _ => s,
    }
}

/// The state after a sequence of events.
pub open spec fn scan(events: Seq<XmlEventView>) -> ScanState
    decreases events.len(),
{
    if events.len() == 0 {
        scan_start()
    } else {
        scan_step(scan(events.drop_last()), events.last())
    }
}

/// Every mesh that the fold emits has vertices and triangles.
pub open spec fn meshes_complete(meshes: Seq<MeshView<VertexTextView>>) -> bool {
    forall|i: int|
        0 <= i < meshes.len() ==> (#[trigger] meshes[i]).vertices.len() > 0
            && meshes[i].triangles.len() > 0
}

/// Folds the XML events of a 3MF model into its mesh objects.
pub struct MeshCollector {
    current_id: u32,
    current_name: String,
    vertices: Vec<VertexText>,
    triangles: Vec<(u32, u32, u32)>,
    in_mesh: bool,
    meshes: Vec<Mesh<VertexText>>,
}

impl View for MeshCollector {
    type V = ScanState;

    closed spec fn view(&self) -> ScanState {
        ScanState {
            id: self.current_id,
            name: self.current_name@,
            vertices: self.vertices@.map_values(|v: VertexText| v@),
            triangles: self.triangles@,
            in_mesh: self.in_mesh,
            meshes: mesh_views(self.meshes@),
        }
    }
}

impl MeshCollector {
    /// A collector that has seen no event.
    pub fn new() -> (c: MeshCollector)
        ensures
            c@ == scan_start(),
    {
        let c = MeshCollector {
            current_id: 0,
            current_name: String::new(),
            vertices: Vec::new(),
            triangles: Vec::new(),
            in_mesh: false,
            meshes: Vec::new(),
        };
        assert(c@.meshes =~= Seq::<MeshView<VertexTextView>>::empty());
        assert(c@.vertices =~= Seq::<VertexTextView>::empty());
        c
    }

    /// Applies one event.
    pub fn feed(&mut self, ev: &XmlEvent)
        ensures
            final(self)@ == scan_step(old(self)@, ev@),
    {
        match ev {
            XmlEvent::Open(tag) => self.open(tag),
            XmlEvent::Close(name) => self.close(name),
            _ => {},
        }
    }

    fn open(&mut self, tag: &XmlTag)
        ensures
            final(self)@ == scan_open(old(self)@, tag@),
    {
        if text_is(tag.name.as_str(), "object") {
            let id = attr_number(tag, "id");
            let name = match attr_value(tag, "name") {
                Some(v) => v,
                None => {
                    let mut n = String::new();
                    push_str(&mut n, "Object ");
                    push_decimal(&mut n, id as u64);
                    n
                },
            };
            self.current_id = id;
            self.current_name = name;
            self.vertices.clear();
            self.triangles.clear();
            assert(self.vertices@.map_values(|v: VertexText| v@) =~= Seq::<VertexTextView>::empty());
            assert(self@ =~= scan_open(old(self)@, tag@));
        } else if text_is(tag.name.as_str(), "mesh") {
            self.in_mesh = true;
            assert(self@ =~= scan_open(old(self)@, tag@));
        } else if text_is(tag.name.as_str(), "vertex") && self.in_mesh {
            let v = VertexText {
                x: attr_value(tag, "x"),
                y: attr_value(tag, "y"),
                z: attr_value(tag, "z"),
            };
            let ghost before = self.vertices@;
            self.vertices.push(v);
            assert(self.vertices@.map_values(|v: VertexText| v@) =~= before.map_values(
                |v: VertexText| v@,
            ).push(v@));
            assert(self@ =~= scan_open(old(self)@, tag@));
        } else if text_is(tag.name.as_str(), "triangle") && self.in_mesh {
            let t = (attr_number(tag, "v1"), attr_number(tag, "v2"), attr_number(tag, "v3"));
            self.triangles.push(t);
            assert(self@ =~= scan_open(old(self)@, tag@));
        }
    }

    fn close(&mut self, name: &String)
        ensures
            final(self)@ == scan_close(old(self)@, name@),
    {
        if text_is(name.as_str(), "mesh") {
            self.in_mesh = false;
            assert(self@ =~= scan_close(old(self)@, name@));
        } else if text_is(name.as_str(), "object") && self.vertices.len() > 0
            && self.triangles.len() > 0 {
            let m = Mesh {
                id: self.current_id,
                name: self.current_name.clone(),
                vertices: copy_vertices(&self.vertices),
                triangles: copy_triangles(&self.triangles),
            };
            self.meshes.push(m);
            assert(mesh_views(self.meshes@) =~= mesh_views(old(self).meshes@).push(m@));
            assert(self@ =~= scan_close(old(self)@, name@));
        }
    }

    /// The meshes emitted, in order.
    pub fn finish(self) -> (ms: Vec<Mesh<VertexText>>)
        ensures
            mesh_views(ms@) == self@.meshes,
    {
        self.meshes
    }
}

/// Every mesh that the fold ever emits has vertices and triangles.
pub proof fn lemma_scan_meshes_complete(events: Seq<XmlEventView>)
    ensures
        meshes_complete(scan(events).meshes),
    decreases events.len(),
{
    if events.len() > 0 {
        lemma_scan_meshes_complete(events.drop_last());
    }
}

/// `s` with its emitted meshes replaced by `ms`.
spec fn with_meshes(s: ScanState, ms: Seq<MeshView<VertexTextView>>) -> ScanState {
    ScanState { meshes: ms, ..s }
}

/// The state after the events `evs`, starting from `s`.
spec fn scan_from(s: ScanState, evs: Seq<XmlEventView>) -> ScanState
    decreases evs.len(),
{
    if evs.len() == 0 {
        s
    } else {
        scan_step(scan_from(s, evs.drop_last()), evs.last())
    }
}

/// Folding `a + b` folds `b` from the state after `a`.
proof fn lemma_scan_split(a: Seq<XmlEventView>, b: Seq<XmlEventView>)
    ensures
        scan(a + b) == scan_from(scan(a), b),
    decreases b.len(),
{
    if b.len() == 0 {
        assert(a + b =~= a);
    } else {
        lemma_scan_split(a, b.drop_last());
        assert((a + b).drop_last() =~= a + b.drop_last());
        assert((a + b).last() == b.last());
    }
}

/// Meshes emitted before only stand in front of those emitted by later events.
proof fn lemma_scan_from_prefix(t: ScanState, m: Seq<MeshView<VertexTextView>>, b: Seq<XmlEventView>)
    ensures
        scan_from(with_meshes(t, m + t.meshes), b) == with_meshes(
            scan_from(t, b),
            m + scan_from(t, b).meshes,
        ),
    decreases b.len(),
{
    if b.len() > 0 {
        lemma_scan_from_prefix(t, m, b.drop_last());
        let u = scan_from(t, b.drop_last());
        let x = with_meshes(u, m + u.meshes);
        match b.last() {
            XmlEventView::Open(tag) => {
                assert(scan_open(x, tag) =~= with_meshes(scan_open(u, tag), m + scan_open(u, tag).meshes));
            },
            XmlEventView::Close(name) => {
                if name == "object"@ && u.vertices.len() > 0 && u.triangles.len() > 0 {
                    let mv = MeshView { id: u.id, name: u.name, vertices: u.vertices, triangles: u.triangles };
                    assert((m + u.meshes).push(mv) =~= m + u.meshes.push(mv));
                }
                assert(scan_close(x, name) =~= with_meshes(scan_close(u, name), m + scan_close(u, name).meshes));
            },
            _ => {},
        }
    }
}

/// An object start tag followed by its mesh tag starts afresh: the meshes that
/// the events from there on emit are the same whatever came before, and they
/// follow the meshes emitted before. In particular no vertex or triangle of an
/// earlier object is carried into a later one.
pub proof fn lemma_object_starts_afresh(
    pre: Seq<XmlEventView>,
    object: XmlTagView,
    mesh: XmlTagView,
    rest: Seq<XmlEventView>,
)
    requires
        object.name == "object"@,
        mesh.name == "mesh"@,
    ensures
        scan(pre + seq![XmlEventView::Open(object), XmlEventView::Open(mesh)] + rest).meshes
            == scan(pre).meshes + scan(
            seq![XmlEventView::Open(object), XmlEventView::Open(mesh)] + rest,
        ).meshes,
{
    let head = seq![XmlEventView::Open(object), XmlEventView::Open(mesh)];
    reveal_strlit("object");
    reveal_strlit("mesh");
    assert("mesh"@.len() == 4 && "object"@.len() == 6);
    assert(mesh.name != "object"@);
    lemma_scan_split(pre, head);
    lemma_scan_split(pre + head, rest);
    lemma_scan_split(head, rest);
    lemma_scan_split(Seq::empty(), head);
    assert(Seq::<XmlEventView>::empty() + head =~= head);
    assert(head.drop_last() =~= seq![XmlEventView::Open(object)]);
    assert(head.drop_last().drop_last() =~= Seq::<XmlEventView>::empty());
    assert(head.last() == XmlEventView::Open(mesh));
    assert(head.drop_last().last() == XmlEventView::Open(object));
    let h = scan(head);
    let s0 = scan_open(scan_start(), object);
    assert(scan(head.drop_last()) == s0);
    assert(h == scan_open(s0, mesh));
    let p0 = scan_open(scan(pre), object);
    assert(scan_from(scan(pre), head.drop_last().drop_last()) == scan(pre));
    assert(head.drop_last().last() == XmlEventView::Open(object));
    assert(scan_from(scan(pre), head.drop_last()) == p0);
    assert(scan(pre + head) == scan_open(p0, mesh));
    assert(h.meshes =~= Seq::<MeshView<VertexTextView>>::empty());
    assert(scan(pre).meshes + h.meshes =~= scan(pre).meshes);
    assert(scan(pre + head) =~= with_meshes(h, scan(pre).meshes + h.meshes));
    lemma_scan_from_prefix(h, scan(pre).meshes, rest);
}

/// An event inside an object's mesh: anything but a new object start tag or the
/// end tag of the mesh or of the object.
pub open spec fn inside_object(ev: XmlEventView) -> bool {
    match ev {
        XmlEventView::Open(t) => t.name != "object"@,
        XmlEventView::Close(n) => n != "mesh"@ && n != "object"@,
        _ => true,
    }
}

/// The vertices that the `vertex` tags among `evs` give, in order: the raw texts
/// of their `x`, `y` and `z` attributes.
pub open spec fn vertex_tags(evs: Seq<XmlEventView>) -> Seq<VertexTextView>
    decreases evs.len(),
{
    if evs.len() == 0 {
        Seq::empty()
    } else {
        let before = vertex_tags(evs.drop_last());
        match evs.last() {
            XmlEventView::Open(t) => if t.name == "vertex"@ {
                before.push(
                    VertexTextView {
                        x: attribute(t.attributes, "x"@),
                        y: attribute(t.attributes, "y"@),
                        z: attribute(t.attributes, "z"@),
                    },
                )
            } else {
                before
            },
            _ => before,
        }
    }
}

/// The triangles that the `triangle` tags among `evs` give, in order: their
/// `v1`, `v2` and `v3` attributes as numbers (0 when missing or unreadable).
pub open spec fn triangle_tags(evs: Seq<XmlEventView>) -> Seq<(u32, u32, u32)>
    decreases evs.len(),
{
    if evs.len() == 0 {
        Seq::empty()
    } else {
        let before = triangle_tags(evs.drop_last());
        match evs.last() {
            XmlEventView::Open(t) => if t.name == "triangle"@ {
                before.push(
                    (
                        attribute_number(t.attributes, "v1"@),
                        attribute_number(t.attributes, "v2"@),
                        attribute_number(t.attributes, "v3"@),
                    ),
                )
            } else {
                before
            },
            _ => before,
        }
    }
}

/// Inside an open mesh, the fold gathers exactly the vertex and triangle tags.
proof fn lemma_inside_mesh(h: ScanState, body: Seq<XmlEventView>)
    requires
        h.in_mesh,
        h.vertices.len() == 0,
        h.triangles.len() == 0,
        forall|i: int| 0 <= i < body.len() ==> inside_object(#[trigger] body[i]),
    ensures
        scan_from(h, body) == (ScanState {
            vertices: vertex_tags(body),
            triangles: triangle_tags(body),
            ..h
        }),
    decreases body.len(),
{
    reveal_strlit("object");
    reveal_strlit("mesh");
    reveal_strlit("vertex");
    reveal_strlit("triangle");
    assert("mesh"@.len() == 4 && "vertex"@.len() == 6 && "triangle"@.len() == 8);
    assert("object"@[0] == 'o' && "vertex"@[0] == 'v');
    if body.len() == 0 {
        assert(h.vertices =~= Seq::<VertexTextView>::empty());
        assert(h.triangles =~= Seq::<(u32, u32, u32)>::empty());
    } else {
        let init = body.drop_last();
        assert forall|i: int| 0 <= i < init.len() implies inside_object(#[trigger] init[i]) by {
            assert(init[i] == body[i]);
        }
        lemma_inside_mesh(h, init);
        assert(inside_object(body[body.len() - 1]));
        let u = scan_from(h, init);
        match body.last() {
            XmlEventView::Open(t) => {
                assert(t.name != "object"@);
                if t.name == "mesh"@ {
                    assert(t.name != "vertex"@ && t.name != "triangle"@);
                } else if t.name == "vertex"@ {
                    assert(t.name != "triangle"@);
                } else if t.name == "triangle"@ {
                } else {
                }
            },
            XmlEventView::Close(n) => {},
            _ => {},
        }
    }
}

/// The mesh of one object: after any events `pre`, an object start tag, its
/// mesh tag, events inside the mesh and the object's end tag add exactly one
/// mesh when the object has vertex and triangle tags, and none otherwise; that
/// mesh has the object's id, its name (`Object <id>` when it has none) and
/// exactly the vertices and triangles of the tags read since the object's
/// start tag.
pub proof fn lemma_object_mesh(
    pre: Seq<XmlEventView>,
    object: XmlTagView,
    mesh: XmlTagView,
    body: Seq<XmlEventView>,
)
    requires
        object.name == "object"@,
        mesh.name == "mesh"@,
        forall|i: int| 0 <= i < body.len() ==> inside_object(#[trigger] body[i]),
    ensures
        ({
            let before = scan(pre).meshes;
            let after = scan(
                pre + seq![XmlEventView::Open(object), XmlEventView::Open(mesh)] + body + seq![
                    XmlEventView::Close("object"@),
                ],
            ).meshes;
            &&& vertex_tags(body).len() > 0 && triangle_tags(body).len() > 0 ==> {
                &&& after.len() == before.len() + 1
                &&& after.take(before.len() as int) == before
                &&& after.last().id == attribute_number(object.attributes, "id"@)
                &&& after.last().name == match attribute(object.attributes, "name"@) {
                    Some(v) => v,
                    None => "Object "@ + decimal(attribute_number(object.attributes, "id"@) as nat),
                }
                &&& after.last().vertices == vertex_tags(body)
                &&& after.last().triangles == triangle_tags(body)
            }
            &&& !(vertex_tags(body).len() > 0 && triangle_tags(body).len() > 0) ==> after == before
        }),
{
    let head = seq![XmlEventView::Open(object), XmlEventView::Open(mesh)];
    let tail = body + seq![XmlEventView::Close("object"@)];
    assert(pre + head + body + seq![XmlEventView::Close("object"@)] =~= pre + head + tail);
    lemma_object_starts_afresh(pre, object, mesh, tail);
    reveal_strlit("object");
    reveal_strlit("mesh");
    assert("mesh"@.len() == 4 && "object"@.len() == 6);
    lemma_scan_split(head, tail);
    lemma_scan_split(Seq::empty(), head);
    assert(Seq::<XmlEventView>::empty() + head =~= head);
    assert(head.drop_last() =~= seq![XmlEventView::Open(object)]);
    assert(head.drop_last().drop_last() =~= Seq::<XmlEventView>::empty());
    let s0 = scan_open(scan_start(), object);
    assert(scan(head.drop_last()) == s0);
    let h = scan(head);
    assert(h == scan_open(s0, mesh));
    assert(h.meshes =~= Seq::<MeshView<VertexTextView>>::empty());
    lemma_inside_mesh(h, body);
    assert(tail.drop_last() =~= body);
    let fresh = scan(head + tail).meshes;
    let before = scan(pre).meshes;
    if vertex_tags(body).len() > 0 && triangle_tags(body).len() > 0 {
        assert(fresh.len() == 1);
        assert((before + fresh).take(before.len() as int) =~= before);
    } else {
        assert(fresh.len() == 0);
        assert(before + fresh =~= before);
    }
}

} // verus!
