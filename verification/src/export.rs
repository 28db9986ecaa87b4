//! The contents of the exported Bambu-style 3MF package: the model part, the
//! per-object and per-plate settings, the project settings and the plate
//! thumbnails. Every exported object gets its own single-colour plate.

use vstd::prelude::*;

use base64::engine::general_purpose::STANDARD;
use base64::Engine;
use uuid::Uuid;

use crate::selection::{first_index, is_first, lemma_first_unique, Material, Role};
use crate::text::{
    decimal, escaped, push_decimal, push_escaped, push_str, push_trimmed_number,
    text_is, to_uppercase, trimmed_number, unicode_uppercase,
};

verus! {

// ---------------------------------------------------------------------------
// Inputs
// ---------------------------------------------------------------------------

/// The colours chosen for the three filaments, as hex colour texts.
pub struct Colours {
    pub silver: String,
    pub leather: String,
    pub strap: String,
}

/// A vertex whose coordinates are printed with six decimals (`{:.6}`).
pub struct VertexDecimals {
    pub x: String,
    pub y: String,
    pub z: String,
}

/// An object to export: the part's role and filament, the name it is exported
/// under, its vertices and its triangles.
pub struct ExportObject {
    pub role: Role,
    pub material: Material,
    pub name: String,
    pub vertices: Vec<VertexDecimals>,
    pub triangles: Vec<(u32, u32, u32)>,
}

/// The colour chosen for `m`.
pub open spec fn colour_of(m: Material, colours: Colours) -> Seq<char> {
    match m {
        Material::Silver => colours.silver@,
        Material::Leather => colours.leather@,
        Material::Strap => colours.strap@,
    }
}

/// The colour chosen for `m`.
pub fn colour(m: Material, colours: &Colours) -> (s: &String)
    ensures
        s@ == colour_of(m, *colours),
{
    match m {
        Material::Silver => &colours.silver,
        Material::Leather => &colours.leather,
        Material::Strap => &colours.strap,
    }
}

// ---------------------------------------------------------------------------
// Which objects, which filaments
// ---------------------------------------------------------------------------

/// `objs` without its strap objects.
pub open spec fn without_straps(objs: Seq<ExportObject>) -> Seq<ExportObject>
    decreases objs.len(),
{
    if objs.len() == 0 {
        Seq::empty()
    } else if objs.last().role == Role::Strap {
        without_straps(objs.drop_last())
    } else {
        without_straps(objs.drop_last()).push(objs.last())
    }
}

/// The objects that are exported: all of them, except that the real-leather
/// strap (strap choice `real`) is a preview only and is left out.
pub open spec fn exported_objects(objs: Seq<ExportObject>, strap: Seq<char>) -> Seq<ExportObject> {
    if strap == "real"@ {
        without_straps(objs)
    } else {
        objs
    }
}

/// Drops the strap objects when the strap choice is `real`.
pub fn exported(objects: Vec<ExportObject>, strap: &str) -> (r: Vec<ExportObject>)
    ensures
        r@ == exported_objects(objects@, strap@),
{
    if !text_is(strap, "real") {
        return objects;
    }
    let mut kept: Vec<ExportObject> = Vec::new();
    let mut rest = objects;
    let ghost all = rest@;
    assert(all.skip(0) =~= all);
    assert(all.take(0) =~= Seq::<ExportObject>::empty());
    while rest.len() > 0
        invariant
            rest@.len() <= all.len(),
            rest@ == all.skip(all.len() - rest@.len()),
            kept@ == without_straps(all.take(all.len() - rest@.len())),
        decreases rest.len(),
    {
        let ghost k = all.len() - rest@.len();
        let o = rest.remove(0);
        assert(o == all[k]);
        assert(all.take(k + 1).drop_last() =~= all.take(k));
        assert(all.take(k + 1).last() == o);
        assert(rest@ =~= all.skip(k + 1));
        if o.role != Role::Strap {
            kept.push(o);
        }
    }
    assert(all.take(all.len() as int) =~= all);
    kept
}

/// Some exported object is printed in the strap filament.
pub open spec fn has_strap_object(objs: Seq<ExportObject>) -> bool {
    exists|i: int| 0 <= i < objs.len() && #[trigger] objs[i].material == Material::Strap
}

/// The filaments of the package, in extruder order: silver and leather always,
/// then the strap filament when some object uses it.
pub open spec fn materials_for(objs: Seq<ExportObject>) -> Seq<Material> {
    if has_strap_object(objs) {
        seq![Material::Silver, Material::Leather, Material::Strap]
    } else {
        seq![Material::Silver, Material::Leather]
    }
}

/// The filaments of the package for `objects`.
pub fn materials(objects: &Vec<ExportObject>) -> (ms: Vec<Material>)
    ensures
        ms@ == materials_for(objects@),
{
    let mut ms: Vec<Material> = Vec::new();
    ms.push(Material::Silver);
    ms.push(Material::Leather);
    let mut i: usize = 0;
    while i < objects.len()
        invariant
            i <= objects.len(),
            ms@ == seq![Material::Silver, Material::Leather],
            forall|j: int| 0 <= j < i ==> objects@[j].material != Material::Strap,
        decreases objects.len() - i,
    {
        if objects[i].material == Material::Strap {
            ms.push(Material::Strap);
            assert(has_strap_object(objects@));
            assert(ms@ =~= materials_for(objects@));
            return ms;
        }
        i = i + 1;
    }
    assert(!has_strap_object(objects@));
    assert(ms@ =~= materials_for(objects@));
    ms
}

/// The material is `m`.
pub open spec fn is_material(m: Material) -> spec_fn(Material) -> bool {
    |x: Material| x == m
}

/// The first position of `m` among the package's filaments.
pub open spec fn position_of(ms: Seq<Material>, m: Material) -> Option<int> {
    first_index(ms, is_material(m))
}

/// The position of `m`, or 0 when it is absent (the object's `pindex`).
pub open spec fn pindex(ms: Seq<Material>, m: Material) -> nat {
    match position_of(ms, m) {
        Some(k) => k as nat,
        None => 0,
    }
}

/// The first position of `m` in `ms`.
pub fn material_position(ms: &Vec<Material>, m: Material) -> (r: Option<usize>)
    ensures
        r matches Some(k) ==> position_of(ms@, m) == Some(k as int),
        r is None ==> position_of(ms@, m) is None,
{
    let mut i: usize = 0;
    while i < ms.len()
        invariant
            i <= ms.len(),
            forall|j: int| 0 <= j < i ==> !is_material(m)(#[trigger] ms@[j]),
        decreases ms.len() - i,
    {
        if ms[i] == m {
            proof {
                lemma_first_unique(ms@, is_material(m), i as int);
            }
            return Some(i);
        }
        i = i + 1;
    }
    assert(!exists|k: int| is_first(ms@, is_material(m), k));
    None
}

/// Every object's filament is among the package's filaments, so every object
/// has an extruder.
pub proof fn lemma_materials_cover(objs: Seq<ExportObject>, i: int)
    requires
        0 <= i < objs.len(),
    ensures
        position_of(materials_for(objs), objs[i].material) is Some,
        position_of(materials_for(objs), objs[i].material)->Some_0 < materials_for(objs).len(),
{
    let ms = materials_for(objs);
    let m = objs[i].material;
    let k: int = match m {
        Material::Silver => 0,
        Material::Leather => 1,
        Material::Strap => 2,
    };
    assert(has_strap_object(objs) || m != Material::Strap);
    assert(is_first(ms, is_material(m), k));
    lemma_first_unique(ms, is_material(m), k);
}

// ---------------------------------------------------------------------------
// The model part
// ---------------------------------------------------------------------------

/// The opening of the model part, up to the base materials.
pub open spec fn model_header() -> Seq<char> {
    "<?xml version=\"1.0\" encoding=\"UTF-8\"?><model unit=\"millimeter\" xmlns=\"http://schemas.microsoft.com/3dmanufacturing/core/2015/02\" xmlns:p=\"http://schemas.microsoft.com/3dmanufacturing/production/2015/06\"><metadata name=\"Application\">BambuStudio</metadata><metadata name=\"BambuStudio:3mfVersion\">1</metadata><resources><basematerials id=\"100\">"@
}

/// One base material with its upper-cased display colour.
pub open spec fn base_material_xml(m: Material, colours: Colours) -> Seq<char> {
    "<base name=\""@ + escaped(m.name_spec()) + "\" displaycolor=\""@ + unicode_uppercase(
        colour_of(m, colours),
    ) + "\"/>"@
}

/// The base materials, in order.
pub open spec fn base_materials_xml(ms: Seq<Material>, colours: Colours) -> Seq<char>
    decreases ms.len(),
{
    if ms.len() == 0 {
        Seq::empty()
    } else {
        base_materials_xml(ms.drop_last(), colours) + base_material_xml(ms.last(), colours)
    }
}

/// One vertex, its coordinates with trailing zeros and points trimmed.
pub open spec fn vertex_xml(v: VertexDecimals) -> Seq<char> {
    "<vertex x=\""@ + trimmed_number(v.x@) + "\" y=\""@ + trimmed_number(v.y@) + "\" z=\""@
        + trimmed_number(v.z@) + "\"/>"@
}

/// The vertices, in order.
pub open spec fn vertices_xml(vs: Seq<VertexDecimals>) -> Seq<char>
    decreases vs.len(),
{
    if vs.len() == 0 {
        Seq::empty()
    } else {
        vertices_xml(vs.drop_last()) + vertex_xml(vs.last())
    }
}

/// One triangle.
pub open spec fn triangle_xml(t: (u32, u32, u32)) -> Seq<char> {
    "<triangle v1=\""@ + decimal(t.0 as nat) + "\" v2=\""@ + decimal(t.1 as nat) + "\" v3=\""@
        + decimal(t.2 as nat) + "\"/>"@
}

/// The triangles, in order.
pub open spec fn triangles_xml(ts: Seq<(u32, u32, u32)>) -> Seq<char>
    decreases ts.len(),
{
    if ts.len() == 0 {
        Seq::empty()
    } else {
        triangles_xml(ts.drop_last()) + triangle_xml(ts.last())
    }
}

/// The object at position `index`, with its UUID text.
pub open spec fn object_xml(index: nat, o: ExportObject, ms: Seq<Material>, uuid: Seq<char>) -> Seq<
    char,
> {
    "<object id=\""@ + decimal(index + 1) + "\" name=\""@ + escaped(o.name@)
        + "\" type=\"model\" pid=\"100\" pindex=\""@ + decimal(pindex(ms, o.material))
        + "\" p:UUID=\""@ + uuid + "\"><mesh><vertices>"@ + vertices_xml(o.vertices@)
        + "</vertices><triangles>"@ + triangles_xml(o.triangles@) + "</triangles></mesh></object>"@
}

/// The objects, in order, with their UUID texts.
pub open spec fn objects_xml(
    objs: Seq<ExportObject>,
    ms: Seq<Material>,
    uuids: Seq<Seq<char>>,
) -> Seq<char>
    decreases objs.len(),
{
    if objs.len() == 0 {
        Seq::empty()
    } else {
        objects_xml(objs.drop_last(), ms, uuids) + object_xml(
            (objs.len() - 1) as nat,
            objs.last(),
            ms,
            uuids[objs.len() - 1],
        )
    }
}

/// The build items for objects 1 to `n`.
pub open spec fn items_xml(n: nat) -> Seq<char>
    decreases n,
{
    if n == 0 {
        Seq::empty()
    } else {
        items_xml((n - 1) as nat) + "<item objectid=\""@ + decimal(n) + "\"/>"@
    }
}

/// The model part of the package.
pub open spec fn model_document(
    objs: Seq<ExportObject>,
    ms: Seq<Material>,
    colours: Colours,
    uuids: Seq<Seq<char>>,
) -> Seq<char> {
    model_header() + base_materials_xml(ms, colours) + "</basematerials>"@ + objects_xml(
        objs,
        ms,
        uuids,
    ) + "</resources><build>"@ + items_xml(objs.len()) + "</build></model>"@
}

fn push_base_materials(out: &mut String, ms: &Vec<Material>, colours: &Colours)
    ensures
        final(out)@ == old(out)@ + base_materials_xml(ms@, *colours),
{
    let ghost start = out@;
    let mut i: usize = 0;
    while i < ms.len()
        invariant
            i <= ms.len(),
            out@ == start + base_materials_xml(ms@.take(i as int), *colours),
        decreases ms.len() - i,
    {
        let ghost before = out@;
        let m = ms[i];
        push_str(out, "<base name=\"");
        push_escaped(out, m.name());
        push_str(out, "\" displaycolor=\"");
        let up = to_uppercase(colour(m, colours).as_str());
        push_str(out, up.as_str());
        push_str(out, "\"/>");
        assert(out@ =~= before + base_material_xml(m, *colours));
        assert(ms@.take(i + 1).drop_last() =~= ms@.take(i as int));
        assert(out@ =~= start + base_materials_xml(ms@.take(i + 1), *colours));
        i = i + 1;
    }
    assert(ms@.take(ms.len() as int) =~= ms@);
}

fn push_vertices(out: &mut String, vs: &Vec<VertexDecimals>)
    ensures
        final(out)@ == old(out)@ + vertices_xml(vs@),
{
    let ghost start = out@;
    let mut i: usize = 0;
    while i < vs.len()
        invariant
            i <= vs.len(),
            out@ == start + vertices_xml(vs@.take(i as int)),
        decreases vs.len() - i,
    {
        let ghost before = out@;
        let v = &vs[i];
        push_str(out, "<vertex x=\"");
        push_trimmed_number(out, v.x.as_str());
        push_str(out, "\" y=\"");
        push_trimmed_number(out, v.y.as_str());
        push_str(out, "\" z=\"");
        push_trimmed_number(out, v.z.as_str());
        push_str(out, "\"/>");
        assert(out@ =~= before + vertex_xml(*v));
        assert(vs@.take(i + 1).drop_last() =~= vs@.take(i as int));
        assert(out@ =~= start + vertices_xml(vs@.take(i + 1)));
        i = i + 1;
    }
    assert(vs@.take(vs.len() as int) =~= vs@);
}

fn push_triangles(out: &mut String, ts: &Vec<(u32, u32, u32)>)
    ensures
        final(out)@ == old(out)@ + triangles_xml(ts@),
{
    let ghost start = out@;
    let mut i: usize = 0;
    while i < ts.len()
        invariant
            i <= ts.len(),
            out@ == start + triangles_xml(ts@.take(i as int)),
        decreases ts.len() - i,
    {
        let ghost before = out@;
        let t = ts[i];
        push_str(out, "<triangle v1=\"");
        push_decimal(out, t.0 as u64);
        push_str(out, "\" v2=\"");
        push_decimal(out, t.1 as u64);
        push_str(out, "\" v3=\"");
        push_decimal(out, t.2 as u64);
        push_str(out, "\"/>");
        assert(out@ =~= before + triangle_xml(t));
        assert(ts@.take(i + 1).drop_last() =~= ts@.take(i as int));
        assert(out@ =~= start + triangles_xml(ts@.take(i + 1)));
        i = i + 1;
    }
    assert(ts@.take(ts.len() as int) =~= ts@);
}

fn push_object(out: &mut String, index: usize, o: &ExportObject, ms: &Vec<Material>, uuid: &String)
    requires
        index < usize::MAX,
    ensures
        final(out)@ == old(out)@ + object_xml(index as nat, *o, ms@, uuid@),
{
    let ghost before = out@;
    push_str(out, "<object id=\"");
    push_decimal(out, index as u64 + 1);
    push_str(out, "\" name=\"");
    push_escaped(out, o.name.as_str());
    push_str(out, "\" type=\"model\" pid=\"100\" pindex=\"");
    let p: usize = match material_position(ms, o.material) {
        Some(k) => k,
        None => 0,
    };
    push_decimal(out, p as u64);
    push_str(out, "\" p:UUID=\"");
    push_str(out, uuid.as_str());
    push_str(out, "\"><mesh><vertices>");
    push_vertices(out, &o.vertices);
    push_str(out, "</vertices><triangles>");
    push_triangles(out, &o.triangles);
    push_str(out, "</triangles></mesh></object>");
    assert(out@ =~= before + object_xml(index as nat, *o, ms@, uuid@));
}

fn push_objects(out: &mut String, objs: &Vec<ExportObject>, ms: &Vec<Material>, uuids: &Vec<String>)
    requires
        uuids.len() == objs.len(),
    ensures
        final(out)@ == old(out)@ + objects_xml(
            objs@,
            ms@,
            uuids@.map_values(|u: String| u@),
        ),
{
    let ghost start = out@;
    let ghost us = uuids@.map_values(|u: String| u@);
    let mut i: usize = 0;
    while i < objs.len()
        invariant
            i <= objs.len(),
            uuids.len() == objs.len(),
            us == uuids@.map_values(|u: String| u@),
            out@ == start + objects_xml(objs@.take(i as int), ms@, us),
        decreases objs.len() - i,
    {
        let ghost before = out@;
        push_object(out, i, &objs[i], ms, &uuids[i]);
        assert(us[i as int] == uuids@[i as int]@);
        assert(objs@.take(i + 1).drop_last() =~= objs@.take(i as int));
        assert(objs@.take(i + 1).last() == objs@[i as int]);
        assert(out@ =~= start + objects_xml(objs@.take(i + 1), ms@, us));
        i = i + 1;
    }
    assert(objs@.take(objs.len() as int) =~= objs@);
}

fn push_items(out: &mut String, n: usize)
    ensures
        final(out)@ == old(out)@ + items_xml(n as nat),
{
    let ghost start = out@;
    let mut i: usize = 0;
    while i < n
        invariant
            i <= n,
            out@ == start + items_xml(i as nat),
        decreases n - i,
    {
        push_str(out, "<item objectid=\"");
        push_decimal(out, i as u64 + 1);
        push_str(out, "\"/>");
        assert(out@ =~= start + items_xml((i + 1) as nat));
        i = i + 1;
    }
}

/// The model part for `objects` printed in the filaments `ms` with the given
/// colours; `uuids` are the objects' UUID texts, in order.
pub fn model_xml(
    objects: &Vec<ExportObject>,
    ms: &Vec<Material>,
    colours: &Colours,
    uuids: &Vec<String>,
) -> (s: String)
    requires
        uuids.len() == objects.len(),
    ensures
        s@ == model_document(objects@, ms@, *colours, uuids@.map_values(|u: String| u@)),
{
    let mut s = String::new();
    push_str(&mut s, "<?xml version=\"1.0\" encoding=\"UTF-8\"?><model unit=\"millimeter\" xmlns=\"http://schemas.microsoft.com/3dmanufacturing/core/2015/02\" xmlns:p=\"http://schemas.microsoft.com/3dmanufacturing/production/2015/06\"><metadata name=\"Application\">BambuStudio</metadata><metadata name=\"BambuStudio:3mfVersion\">1</metadata><resources><basematerials id=\"100\">");
    push_base_materials(&mut s, ms, colours);
    push_str(&mut s, "</basematerials>");
    push_objects(&mut s, objects, ms, uuids);
    push_str(&mut s, "</resources><build>");
    push_items(&mut s, objects.len());
    push_str(&mut s, "</build></model>");
    assert(s@ =~= model_document(objects@, ms@, *colours, uuids@.map_values(|u: String| u@)));
    s
}


// ---------------------------------------------------------------------------
// The model settings part
// ---------------------------------------------------------------------------

/// A number printed with at least two digits (`{:02}`).
pub open spec fn two_digits(n: nat) -> Seq<char> {
    if n < 10 {
        "0"@ + decimal(n)
    } else {
        decimal(n)
    }
}

/// The settings of the object at position `index`: its name, its extruder
/// (its filament's position plus one) and its face count.
pub open spec fn settings_object_xml(index: nat, o: ExportObject, ms: Seq<Material>) -> Seq<char> {
    "<object id=\""@ + decimal(index + 1) + "\"><metadata key=\"name\" value=\""@ + escaped(o.name@)
        + "\"/><metadata key=\"extruder\" value=\""@ + decimal(pindex(ms, o.material) + 1)
        + "\"/><part id=\""@ + decimal(index + 1)
        + "\" subtype=\"normal_part\"><metadata key=\"name\" value=\""@ + escaped(o.name@)
        + "\"/><metadata key=\"matrix\" value=\"1 0 0 0 0 1 0 0 0 0 1 0 0 0 0 1\"/><mesh_stat face_count=\""@
        + decimal(o.triangles.len() as nat)
        + "\" edges_fixed=\"0\" degenerate_facets=\"0\" facets_removed=\"0\" facets_reversed=\"0\" backwards_edges=\"0\"/></part></object>"@
}

/// The settings of all objects, in order.
pub open spec fn settings_objects_xml(objs: Seq<ExportObject>, ms: Seq<Material>) -> Seq<char>
    decreases objs.len(),
{
    if objs.len() == 0 {
        Seq::empty()
    } else {
        settings_objects_xml(objs.drop_last(), ms) + settings_object_xml(
            (objs.len() - 1) as nat,
            objs.last(),
            ms,
        )
    }
}

/// The plate of the object at position `index`: the plate holds that object
/// alone and is named after its number, filament and role.
pub open spec fn plate_xml(index: nat, o: ExportObject) -> Seq<char> {
    "<plate><metadata key=\"plater_id\" value=\""@ + decimal(index + 1)
        + "\"/><metadata key=\"plater_name\" value=\""@ + two_digits(index + 1) + " — "@ + escaped(
        o.material.name_spec(),
    ) + " — "@ + escaped(o.role.name_spec())
        + "\"/><metadata key=\"locked\" value=\"false\"/><metadata key=\"thumbnail_file\" value=\"Metadata/plate_"@
        + decimal(index + 1)
        + ".png\"/><model_instance><metadata key=\"object_id\" value=\""@ + decimal(index + 1)
        + "\"/><metadata key=\"instance_id\" value=\"0\"/><metadata key=\"identify_id\" value=\""@
        + decimal(101 + index) + "\"/></model_instance></plate>"@
}

/// The plates, one per object, in order.
pub open spec fn plates_xml(objs: Seq<ExportObject>) -> Seq<char>
    decreases objs.len(),
{
    if objs.len() == 0 {
        Seq::empty()
    } else {
        plates_xml(objs.drop_last()) + plate_xml((objs.len() - 1) as nat, objs.last())
    }
}

/// The model settings part of the package.
pub open spec fn settings_document(objs: Seq<ExportObject>, ms: Seq<Material>) -> Seq<char> {
    "<?xml version=\"1.0\" encoding=\"UTF-8\"?><config>"@ + settings_objects_xml(objs, ms)
        + plates_xml(objs) + "</config>"@
}

/// Every object's filament is among `ms`.
pub open spec fn filaments_cover(objs: Seq<ExportObject>, ms: Seq<Material>) -> bool {
    forall|i: int| 0 <= i < objs.len() ==> (#[trigger] position_of(ms, objs[i].material)) is Some
}

fn push_settings_object(out: &mut String, index: usize, o: &ExportObject, ms: &Vec<Material>)
    requires
        index < usize::MAX,
        position_of(ms@, o.material) is Some,
    ensures
        final(out)@ == old(out)@ + settings_object_xml(index as nat, *o, ms@),
{
    let ghost before = out@;
    let p: usize = match material_position(ms, o.material) {
        Some(k) => k,
        None => 0,
    };
    proof {
        let k = position_of(ms@, o.material)->Some_0;
        assert(is_first(ms@, is_material(o.material), k));
        assert(p as int == k);
        assert(p < ms.len());
    }
    push_str(out, "<object id=\"");
    push_decimal(out, index as u64 + 1);
    push_str(out, "\"><metadata key=\"name\" value=\"");
    push_escaped(out, o.name.as_str());
    push_str(out, "\"/><metadata key=\"extruder\" value=\"");
    push_decimal(out, p as u64 + 1);
    push_str(out, "\"/><part id=\"");
    push_decimal(out, index as u64 + 1);
    push_str(out, "\" subtype=\"normal_part\"><metadata key=\"name\" value=\"");
    push_escaped(out, o.name.as_str());
    push_str(out, "\"/><metadata key=\"matrix\" value=\"1 0 0 0 0 1 0 0 0 0 1 0 0 0 0 1\"/><mesh_stat face_count=\"");
    push_decimal(out, o.triangles.len() as u64);
    push_str(out, "\" edges_fixed=\"0\" degenerate_facets=\"0\" facets_removed=\"0\" facets_reversed=\"0\" backwards_edges=\"0\"/></part></object>");
    assert(out@ =~= before + settings_object_xml(index as nat, *o, ms@));
}

fn push_two_digits(out: &mut String, n: u64)
    ensures
        final(out)@ == old(out)@ + two_digits(n as nat),
{
    let ghost before = out@;
    if n < 10 {
        push_str(out, "0");
    }
    push_decimal(out, n);
    assert(out@ =~= before + two_digits(n as nat));
}

#[verifier::rlimit(30)]
fn push_plate(out: &mut String, index: usize, o: &ExportObject)
    requires
        index < usize::MAX - 101,
    ensures
        final(out)@ == old(out)@ + plate_xml(index as nat, *o),
{
    let ghost before = out@;
    let n: u64 = index as u64 + 1;
    push_str(out, "<plate><metadata key=\"plater_id\" value=\"");
    push_decimal(out, n);
    push_str(out, "\"/><metadata key=\"plater_name\" value=\"");
    push_two_digits(out, n);
    push_str(out, " — ");
    push_escaped(out, o.material.name());
    push_str(out, " — ");
    push_escaped(out, o.role.name());
    push_str(out, "\"/><metadata key=\"locked\" value=\"false\"/><metadata key=\"thumbnail_file\" value=\"Metadata/plate_");
    push_decimal(out, n);
    push_str(out, ".png\"/><model_instance><metadata key=\"object_id\" value=\"");
    push_decimal(out, n);
    push_str(out, "\"/><metadata key=\"instance_id\" value=\"0\"/><metadata key=\"identify_id\" value=\"");
    push_decimal(out, 101 + index as u64);
    push_str(out, "\"/></model_instance></plate>");
    assert(out@ =~= before + plate_xml(index as nat, *o));
}

/// The model settings part for `objects` printed in the filaments `ms`.
pub fn model_settings_xml(objects: &Vec<ExportObject>, ms: &Vec<Material>) -> (s: String)
    requires
        objects.len() <= usize::MAX - 101,
        filaments_cover(objects@, ms@),
    ensures
        s@ == settings_document(objects@, ms@),
{
    let mut s = String::new();
    push_str(&mut s, "<?xml version=\"1.0\" encoding=\"UTF-8\"?><config>");
    let ghost start = s@;
    let mut i: usize = 0;
    while i < objects.len()
        invariant
            i <= objects.len() <= usize::MAX - 101,
            filaments_cover(objects@, ms@),
            s@ == start + settings_objects_xml(objects@.take(i as int), ms@),
        decreases objects.len() - i,
    {
        assert(position_of(ms@, objects@[i as int].material) is Some);
        push_settings_object(&mut s, i, &objects[i], ms);
        assert(objects@.take(i + 1).drop_last() =~= objects@.take(i as int));
        assert(s@ =~= start + settings_objects_xml(objects@.take(i + 1), ms@));
        i = i + 1;
    }
    assert(objects@.take(objects.len() as int) =~= objects@);
    let ghost middle = s@;
    let mut j: usize = 0;
    while j < objects.len()
        invariant
            j <= objects.len() <= usize::MAX - 101,
            s@ == middle + plates_xml(objects@.take(j as int)),
        decreases objects.len() - j,
    {
        push_plate(&mut s, j, &objects[j]);
        assert(objects@.take(j + 1).drop_last() =~= objects@.take(j as int));
        assert(s@ =~= middle + plates_xml(objects@.take(j + 1)));
        j = j + 1;
    }
    assert(objects@.take(objects.len() as int) =~= objects@);
    push_str(&mut s, "</config>");
    assert(s@ =~= settings_document(objects@, ms@));
    s
}


// ---------------------------------------------------------------------------
// The project settings
// ---------------------------------------------------------------------------

/// The printer and slicing settings of the project, one filament entry per
/// package filament.
pub struct ProjectSettings {
    pub bottom_shell_layers: String,
    pub brim_type: String,
    pub brim_width: String,
    pub elefant_foot_compensation: String,
    pub enable_support: String,
    pub filament_colour: Vec<String>,
    pub filament_type: Vec<String>,
    pub filament_vendor: Vec<String>,
    pub layer_height: String,
    pub nozzle_diameter: Vec<String>,
    pub printer_model: String,
    pub printer_variant: String,
    pub sparse_infill_density: String,
    pub sparse_infill_pattern: String,
    pub support_on_build_plate_only: String,
    pub top_shell_layers: String,
    pub wall_loops: String,
}

/// The filament type of a material: TPU for the strap, PLA otherwise.
pub open spec fn filament_type_of(m: Material) -> Seq<char> {
    if m == Material::Strap {
        "TPU"@
    } else {
        "PLA"@
    }
}

/// The settings hold the fixed printer profile and, for each filament of `ms`
/// in order, its type, its upper-cased colour and the `Generic` vendor.
pub open spec fn project_settings_for(p: ProjectSettings, ms: Seq<Material>, colours: Colours) -> bool {
    &&& p.printer_model@ == "Bambu Lab P2S"@
    &&& p.printer_variant@ == "0.4"@
    &&& p.nozzle_diameter@.len() == 1
    &&& p.nozzle_diameter@[0]@ == "0.4"@
    &&& p.layer_height@ == "0.20"@
    &&& p.wall_loops@ == "4"@
    &&& p.top_shell_layers@ == "6"@
    &&& p.bottom_shell_layers@ == "6"@
    &&& p.sparse_infill_density@ == "18%"@
    &&& p.sparse_infill_pattern@ == "gyroid"@
    &&& p.enable_support@ == "0"@
    &&& p.support_on_build_plate_only@ == "1"@
    &&& p.elefant_foot_compensation@ == "0.15"@
    &&& p.brim_type@ == "auto_brim"@
    &&& p.brim_width@ == "8"@
    &&& p.filament_type@.len() == ms.len()
    &&& p.filament_colour@.len() == ms.len()
    &&& p.filament_vendor@.len() == ms.len()
    &&& forall|i: int|
        0 <= i < ms.len() ==> {
            &&& (#[trigger] p.filament_type@[i])@ == filament_type_of(ms[i])
            &&& p.filament_colour@[i]@ == unicode_uppercase(colour_of(ms[i], colours))
            &&& p.filament_vendor@[i]@ == "Generic"@
        }
}

/// A string holding the text `t`.
fn owned(t: &str) -> (s: String)
    ensures
        s@ == t@,
{
    let mut s = String::new();
    push_str(&mut s, t);
    assert(s@ =~= t@);
    s
}

/// The project settings for the filaments `ms` and the chosen colours.
pub fn project_settings(ms: &Vec<Material>, colours: &Colours) -> (p: ProjectSettings)
    ensures
        project_settings_for(p, ms@, *colours),
{
    let mut types: Vec<String> = Vec::new();
    let mut cols: Vec<String> = Vec::new();
    let mut vendors: Vec<String> = Vec::new();
    let mut i: usize = 0;
    while i < ms.len()
        invariant
            i <= ms.len(),
            types@.len() == i,
            cols@.len() == i,
            vendors@.len() == i,
            forall|k: int|
                0 <= k < i ==> {
                    &&& (#[trigger] types@[k])@ == filament_type_of(ms@[k])
                    &&& cols@[k]@ == unicode_uppercase(colour_of(ms@[k], *colours))
                    &&& vendors@[k]@ == "Generic"@
                },
        decreases ms.len() - i,
    {
        let m = ms[i];
        if m == Material::Strap {
            types.push(owned("TPU"));
        } else {
            types.push(owned("PLA"));
        }
        cols.push(to_uppercase(colour(m, colours).as_str()));
        vendors.push(owned("Generic"));
        i = i + 1;
    }
    let mut nozzles: Vec<String> = Vec::new();
    nozzles.push(owned("0.4"));
    assert(nozzles@.len() == 1 && nozzles@[0]@ == "0.4"@);
    let p = ProjectSettings {
        bottom_shell_layers: owned("6"),
        brim_type: owned("auto_brim"),
        brim_width: owned("8"),
        elefant_foot_compensation: owned("0.15"),
        enable_support: owned("0"),
        filament_colour: cols,
        filament_type: types,
        filament_vendor: vendors,
        layer_height: owned("0.20"),
        nozzle_diameter: nozzles,
        printer_model: owned("Bambu Lab P2S"),
        printer_variant: owned("0.4"),
        sparse_infill_density: owned("18%"),
        sparse_infill_pattern: owned("gyroid"),
        support_on_build_plate_only: owned("1"),
        top_shell_layers: owned("6"),
        wall_loops: owned("4"),
    };
    assert(p.filament_type@ == types@);
    assert(p.nozzle_diameter@[0]@ == "0.4"@);
    p
}

// ---------------------------------------------------------------------------
// Plate thumbnails and object UUIDs
// ---------------------------------------------------------------------------

/// What the standard base64 engine's `decode` gives for `text`: the decoded
/// bytes, or `None` when it reports an error.
pub uninterp spec fn base64_standard_decoded(text: Seq<char>) -> Option<Seq<u8>>;

/// `base64::engine::general_purpose::STANDARD.decode(text)`, its error dropped.
#[verifier::external_body]
fn decode_base64(text: &str) -> (r: Option<Vec<u8>>)
    ensures
        match r {
            Some(b) => base64_standard_decoded(text@) == Some(b@),
            None => base64_standard_decoded(text@) is None,
        },
{
    STANDARD.decode(text).ok()
}

/// The base64 text of the one-pixel PNG used as every plate thumbnail.
pub open spec fn placeholder_png_text() -> Seq<char> {
    "iVBORw0KGgoAAAANSUhEUgAAAAEAAAABCAQAAAC1HAwCAAAAC0lEQVR42mNk+A8AAQUBAScY42YAAAAASUVORK5CYII="@
}

/// The bytes of the plate thumbnail: the decoded placeholder, or nothing if it
/// fails to decode.
pub open spec fn placeholder_png_bytes() -> Seq<u8> {
    match base64_standard_decoded(placeholder_png_text()) {
        Some(b) => b,
        None => Seq::empty(),
    }
}

/// The thumbnail of a plate; the same placeholder whatever the colour.
pub fn placeholder_png(_hex: &str) -> (png: Vec<u8>)
    ensures
        png@ == placeholder_png_bytes(),
{
    match decode_base64(
        "iVBORw0KGgoAAAANSUhEUgAAAAEAAAABCAQAAAC1HAwCAAAAC0lEQVR42mNk+A8AAQUBAScY42YAAAAASUVORK5CYII=",
    ) {
        Some(b) => b,
        None => Vec::new(),
    }
}

/// `c` is a lowercase hexadecimal digit.
pub open spec fn is_lower_hex(c: char) -> bool {
    ('0' <= c && c <= '9') || ('a' <= c && c <= 'f')
}

/// `s` is a hyphenated lowercase version-4 UUID text.
pub open spec fn is_uuid_text(s: Seq<char>) -> bool {
    &&& s.len() == 36
    &&& forall|i: int|
        0 <= i < 36 ==> if i == 8 || i == 13 || i == 18 || i == 23 {
            s[i] == '-'
        } else {
            is_lower_hex(#[trigger] s[i])
        }
    &&& s[14] == '4'
}

/// `Uuid::new_v4()` shown with `Display`: a random version-4 UUID in
/// hyphenated lowercase form. Only the form is stated; the value is random.
#[verifier::external_body]
fn new_uuid() -> (s: String)
    ensures
        is_uuid_text(s@),
{
    Uuid::new_v4().to_string()
}

// ---------------------------------------------------------------------------
// The package
// ---------------------------------------------------------------------------

/// The `[Content_Types].xml` part.
pub open spec fn content_types_xml() -> Seq<char> {
    "<?xml version=\"1.0\" encoding=\"UTF-8\"?><Types xmlns=\"http://schemas.openxmlformats.org/package/2006/content-types\"><Default Extension=\"rels\" ContentType=\"application/vnd.openxmlformats-package.relationships+xml\"/><Default Extension=\"model\" ContentType=\"application/vnd.ms-package.3dmanufacturing-3dmodel+xml\"/><Default Extension=\"config\" ContentType=\"application/octet-stream\"/><Default Extension=\"png\" ContentType=\"image/png\"/></Types>"@
}

/// The `_rels/.rels` part.
pub open spec fn relationships_xml() -> Seq<char> {
    "<?xml version=\"1.0\" encoding=\"UTF-8\"?><Relationships xmlns=\"http://schemas.openxmlformats.org/package/2006/relationships\"><Relationship Target=\"/3D/3dmodel.model\" Id=\"rel0\" Type=\"http://schemas.microsoft.com/3dmanufacturing/2013/01/3dmodel\"/></Relationships>"@
}

/// The name of the thumbnail of plate `n` (counted from 1).
pub open spec fn plate_image_name(n: nat) -> Seq<char> {
    "Metadata/plate_"@ + decimal(n) + ".png"@
}

/// A text part of the package.
pub struct TextEntry {
    pub name: String,
    pub text: String,
}

/// A binary part of the package.
pub struct BinaryEntry {
    pub name: String,
    pub data: Vec<u8>,
}

/// The parts of an exported package, in the order they are written: content
/// types, relationships, model, model settings, project settings (serialised
/// as JSON when written) and one thumbnail per plate.
pub struct Package {
    pub content_types: TextEntry,
    pub relationships: TextEntry,
    pub model: TextEntry,
    pub model_settings: TextEntry,
    pub project_settings_name: String,
    pub project_settings: ProjectSettings,
    pub plates: Vec<BinaryEntry>,
}

fn text_entry(name: &str, text: String) -> (e: TextEntry)
    ensures
        e.name@ == name@,
        e.text == text,
{
    TextEntry { name: owned(name), text }
}

/// `p` is the package for `objects` with the strap choice `strap` and the
/// colours `colours`: fixed content types and relationships, the model document
/// of the exported objects with one valid UUID per object, their model settings,
/// the project settings of their materials, and one plate thumbnail per object.
pub open spec fn package_for(p: Package, objects: Seq<ExportObject>, strap: Seq<char>, colours: Colours) -> bool {
    let objs = exported_objects(objects, strap);
    let ms = materials_for(objs);
    &&& p.content_types.name@ == "[Content_Types].xml"@
    &&& p.content_types.text@ == content_types_xml()
    &&& p.relationships.name@ == "_rels/.rels"@
    &&& p.relationships.text@ == relationships_xml()
    &&& p.model.name@ == "3D/3dmodel.model"@
    &&& exists|uuids: Seq<Seq<char>>|
        {
            &&& uuids.len() == objs.len()
            &&& forall|i: int| 0 <= i < uuids.len() ==> is_uuid_text(#[trigger] uuids[i])
            &&& p.model.text@ == model_document(objs, ms, colours, uuids)
        }
    &&& p.model_settings.name@ == "Metadata/model_settings.config"@
    &&& p.model_settings.text@ == settings_document(objs, ms)
    &&& p.project_settings_name@ == "Metadata/project_settings.config"@
    &&& project_settings_for(p.project_settings, ms, colours)
    &&& p.plates.len() == objs.len()
    &&& forall|i: int|
        0 <= i < p.plates.len() ==> {
            &&& (#[trigger] p.plates@[i]).name@ == plate_image_name((i + 1) as nat)
            &&& p.plates@[i].data@ == placeholder_png_bytes()
        }
}

/// The package for `objects` with the chosen strap and colours.
///
/// The exported objects are `objects` without the strap when the strap choice
/// is `real`; every exported object gets its own plate and thumbnail, and the
/// model names one UUID per object.
pub fn build_package(objects: Vec<ExportObject>, strap: &str, colours: &Colours) -> (p: Package)
    requires
        objects.len() <= usize::MAX - 101,
    ensures
        package_for(p, objects@, strap@, *colours),
{
    let objs = exported(objects, strap);
    proof {
        assert(objs@.len() <= objects@.len()) by {
            lemma_exported_len(objects@, strap@);
        }
    }
    let ms = materials(&objs);
    let mut uuids: Vec<String> = Vec::new();
    let mut i: usize = 0;
    while i < objs.len()
        invariant
            i <= objs.len(),
            uuids@.len() == i,
            forall|k: int| 0 <= k < i ==> is_uuid_text((#[trigger] uuids@[k])@),
        decreases objs.len() - i,
    {
        uuids.push(new_uuid());
        i = i + 1;
    }
    let model = model_xml(&objs, &ms, colours, &uuids);
    proof {
        let us = uuids@.map_values(|u: String| u@);
        assert(forall|k: int| 0 <= k < us.len() ==> is_uuid_text(#[trigger] us[k]));
        assert forall|k: int| 0 <= k < objs@.len() implies (#[trigger] position_of(
            ms@,
            objs@[k].material,
        )) is Some by {
            lemma_materials_cover(objs@, k);
        }
    }
    let settings = model_settings_xml(&objs, &ms);
    let project = project_settings(&ms, colours);
    let mut plates: Vec<BinaryEntry> = Vec::new();
    let mut j: usize = 0;
    while j < objs.len()
        invariant
            j <= objs.len() <= usize::MAX - 101,
            plates@.len() == j,
            forall|k: int|
                0 <= k < j ==> {
                    &&& (#[trigger] plates@[k]).name@ == plate_image_name((k + 1) as nat)
                    &&& plates@[k].data@ == placeholder_png_bytes()
                },
        decreases objs.len() - j,
    {
        let mut name = String::new();
        push_str(&mut name, "Metadata/plate_");
        push_decimal(&mut name, j as u64 + 1);
        push_str(&mut name, ".png");
        assert(name@ =~= plate_image_name((j + 1) as nat));
        let m = objs[j].material;
        plates.push(BinaryEntry { name, data: placeholder_png(colour(m, colours).as_str()) });
        j = j + 1;
    }
    Package {
        content_types: text_entry(
            "[Content_Types].xml",
            owned(
                "<?xml version=\"1.0\" encoding=\"UTF-8\"?><Types xmlns=\"http://schemas.openxmlformats.org/package/2006/content-types\"><Default Extension=\"rels\" ContentType=\"application/vnd.openxmlformats-package.relationships+xml\"/><Default Extension=\"model\" ContentType=\"application/vnd.ms-package.3dmanufacturing-3dmodel+xml\"/><Default Extension=\"config\" ContentType=\"application/octet-stream\"/><Default Extension=\"png\" ContentType=\"image/png\"/></Types>",
            ),
        ),
        relationships: text_entry(
            "_rels/.rels",
            owned(
                "<?xml version=\"1.0\" encoding=\"UTF-8\"?><Relationships xmlns=\"http://schemas.openxmlformats.org/package/2006/relationships\"><Relationship Target=\"/3D/3dmodel.model\" Id=\"rel0\" Type=\"http://schemas.microsoft.com/3dmanufacturing/2013/01/3dmodel\"/></Relationships>",
            ),
        ),
        model: text_entry("3D/3dmodel.model", model),
        model_settings: text_entry("Metadata/model_settings.config", settings),
        project_settings_name: owned("Metadata/project_settings.config"),
        project_settings: project,
        plates,
    }
}

/// Dropping straps never adds objects.
pub proof fn lemma_without_straps_len(objs: Seq<ExportObject>)
    ensures
        without_straps(objs).len() <= objs.len(),
    decreases objs.len(),
{
    if objs.len() > 0 {
        lemma_without_straps_len(objs.drop_last());
    }
}

/// The exported objects are no more than the given ones.
pub proof fn lemma_exported_len(objs: Seq<ExportObject>, strap: Seq<char>)
    ensures
        exported_objects(objs, strap).len() <= objs.len(),
{
    lemma_without_straps_len(objs);
}


/// `without_straps` keeps exactly the non-strap objects, in order: none of
/// its objects is a strap.
pub proof fn lemma_without_straps_no_strap(objs: Seq<ExportObject>)
    ensures
        forall|i: int|
            0 <= i < without_straps(objs).len() ==> (#[trigger] without_straps(objs)[i]).role
                != Role::Strap,
    decreases objs.len(),
{
    if objs.len() > 0 {
        lemma_without_straps_no_strap(objs.drop_last());
    }
}

/// The real-leather strap is a preview only: with the strap choice `real` no
/// exported object is a strap; with any other choice every object is exported.
pub proof fn lemma_real_strap_preview_only(objs: Seq<ExportObject>, strap: Seq<char>)
    ensures
        strap == "real"@ ==> forall|i: int|
            0 <= i < exported_objects(objs, strap).len() ==> (#[trigger] exported_objects(
                objs,
                strap,
            )[i]).role != Role::Strap,
        strap != "real"@ ==> exported_objects(objs, strap) == objs,
{
    lemma_without_straps_no_strap(objs);
}

/// Two lists of strings hold the same texts.
pub open spec fn same_texts(a: Seq<String>, b: Seq<String>) -> bool {
    a.len() == b.len() && forall|i: int| 0 <= i < a.len() ==> (#[trigger] a[i])@ == b[i]@
}

/// Two project settings hold the same texts in every field.
pub open spec fn same_settings(a: ProjectSettings, b: ProjectSettings) -> bool {
    &&& a.bottom_shell_layers@ == b.bottom_shell_layers@
    &&& a.brim_type@ == b.brim_type@
    &&& a.brim_width@ == b.brim_width@
    &&& a.elefant_foot_compensation@ == b.elefant_foot_compensation@
    &&& a.enable_support@ == b.enable_support@
    &&& same_texts(a.filament_colour@, b.filament_colour@)
    &&& same_texts(a.filament_type@, b.filament_type@)
    &&& same_texts(a.filament_vendor@, b.filament_vendor@)
    &&& a.layer_height@ == b.layer_height@
    &&& same_texts(a.nozzle_diameter@, b.nozzle_diameter@)
    &&& a.printer_model@ == b.printer_model@
    &&& a.printer_variant@ == b.printer_variant@
    &&& a.sparse_infill_density@ == b.sparse_infill_density@
    &&& a.sparse_infill_pattern@ == b.sparse_infill_pattern@
    &&& a.support_on_build_plate_only@ == b.support_on_build_plate_only@
    &&& a.top_shell_layers@ == b.top_shell_layers@
    &&& a.wall_loops@ == b.wall_loops@
}

/// Two packages built from the same objects, strap choice and colours agree in
/// every part but the object UUIDs: the content types, relationships, model
/// settings, project settings and plate thumbnails are the same, and both model
/// texts are the model document of the same objects, materials and colours, each
/// with its own list of valid UUIDs, one per object.
pub proof fn lemma_package_deterministic(
    p1: Package,
    p2: Package,
    objects: Seq<ExportObject>,
    strap: Seq<char>,
    colours: Colours,
)
    requires
        package_for(p1, objects, strap, colours),
        package_for(p2, objects, strap, colours),
    ensures
        ({
            let objs = exported_objects(objects, strap);
            let ms = materials_for(objs);
            &&& p1.content_types.name@ == p2.content_types.name@
            &&& p1.content_types.text@ == p2.content_types.text@
            &&& p1.relationships.name@ == p2.relationships.name@
            &&& p1.relationships.text@ == p2.relationships.text@
            &&& p1.model.name@ == p2.model.name@
            &&& p1.model_settings.name@ == p2.model_settings.name@
            &&& p1.model_settings.text@ == p2.model_settings.text@
            &&& p1.project_settings_name@ == p2.project_settings_name@
            &&& same_settings(p1.project_settings, p2.project_settings)
            &&& p1.plates.len() == p2.plates.len()
            &&& forall|i: int|
                0 <= i < p1.plates.len() ==> {
                    &&& (#[trigger] p1.plates@[i]).name@ == p2.plates@[i].name@
                    &&& p1.plates@[i].data@ == p2.plates@[i].data@
                }
            &&& exists|u1: Seq<Seq<char>>, u2: Seq<Seq<char>>|
                #![trigger model_document(objs, ms, colours, u1), model_document(objs, ms, colours, u2)]
                {
                    &&& u1.len() == objs.len() && u2.len() == objs.len()
                    &&& forall|i: int| 0 <= i < u1.len() ==> is_uuid_text(#[trigger] u1[i])
                    &&& forall|i: int| 0 <= i < u2.len() ==> is_uuid_text(#[trigger] u2[i])
                    &&& p1.model.text@ == model_document(objs, ms, colours, u1)
                    &&& p2.model.text@ == model_document(objs, ms, colours, u2)
                }
        }),
{
    let objs = exported_objects(objects, strap);
    let ms = materials_for(objs);
    let u1 = choose|uuids: Seq<Seq<char>>|
        {
            &&& uuids.len() == objs.len()
            &&& forall|i: int| 0 <= i < uuids.len() ==> is_uuid_text(#[trigger] uuids[i])
            &&& p1.model.text@ == model_document(objs, ms, colours, uuids)
        };
    let u2 = choose|uuids: Seq<Seq<char>>|
        {
            &&& uuids.len() == objs.len()
            &&& forall|i: int| 0 <= i < uuids.len() ==> is_uuid_text(#[trigger] uuids[i])
            &&& p2.model.text@ == model_document(objs, ms, colours, uuids)
        };
    assert(p1.model.text@ == model_document(objs, ms, colours, u1));
    assert(p2.model.text@ == model_document(objs, ms, colours, u2));
    let a = p1.project_settings;
    let b = p2.project_settings;
    assert forall|i: int| 0 <= i < ms.len() implies (#[trigger] a.filament_type@[i])@
        == b.filament_type@[i]@ && a.filament_colour@[i]@ == b.filament_colour@[i]@
        && a.filament_vendor@[i]@ == b.filament_vendor@[i]@ by {
        assert(a.filament_type@[i]@ == filament_type_of(ms[i]));
        assert(b.filament_type@[i]@ == filament_type_of(ms[i]));
    }
    assert(same_texts(a.filament_colour@, b.filament_colour@)) by {
        assert forall|i: int| 0 <= i < a.filament_colour@.len() implies (
        #[trigger] a.filament_colour@[i])@ == b.filament_colour@[i]@ by {
            assert(a.filament_type@[i]@ == b.filament_type@[i]@);
        }
    }
    assert(same_texts(a.filament_vendor@, b.filament_vendor@)) by {
        assert forall|i: int| 0 <= i < a.filament_vendor@.len() implies (
        #[trigger] a.filament_vendor@[i])@ == b.filament_vendor@[i]@ by {
            assert(a.filament_type@[i]@ == b.filament_type@[i]@);
        }
    }
    assert(same_texts(a.nozzle_diameter@, b.nozzle_diameter@)) by {
        assert forall|i: int| 0 <= i < a.nozzle_diameter@.len() implies (
        #[trigger] a.nozzle_diameter@[i])@ == b.nozzle_diameter@[i]@ by {
            assert(i == 0);
        }
    }
    assert forall|i: int| 0 <= i < p1.plates.len() implies {
        &&& (#[trigger] p1.plates@[i]).name@ == p2.plates@[i].name@
        &&& p1.plates@[i].data@ == p2.plates@[i].data@
    } by {
        assert(p2.plates@[i].name@ == plate_image_name((i + 1) as nat));
    }
}

/// Whether an object is printed rather than previewed only with the real strap:
/// every role but `Strap`.
pub open spec fn is_not_strap(o: ExportObject) -> bool {
    o.role != Role::Strap
}

proof fn lemma_without_straps_filter(objs: Seq<ExportObject>)
    ensures
        without_straps(objs) == objs.filter(|o: ExportObject| is_not_strap(o)),
    decreases objs.len(),
{
    reveal(Seq::filter);
    if objs.len() > 0 {
        lemma_without_straps_filter(objs.drop_last());
    }
}

/// With the strap choice `real` the exported objects are exactly the objects
/// whose role is not `Strap`, in their order (so every other part, the pommel
/// included, is exported, and there are as many as there are non-strap
/// objects); with any other choice every object is exported.
pub proof fn lemma_exported_non_straps(objs: Seq<ExportObject>, strap: Seq<char>)
    ensures
        exported_objects(objs, strap) == (if strap == "real"@ {
            objs.filter(|o: ExportObject| is_not_strap(o))
        } else {
            objs
        }),
        strap == "real"@ ==> forall|i: int|
            0 <= i < objs.len() && is_not_strap(#[trigger] objs[i]) ==> exported_objects(
                objs,
                strap,
            ).contains(objs[i]),
{
    lemma_without_straps_filter(objs);
    if strap == "real"@ {
        assert forall|i: int|
            0 <= i < objs.len() && is_not_strap(#[trigger] objs[i]) implies exported_objects(
            objs,
            strap,
        ).contains(objs[i]) by {
            objs.lemma_filter_contains_rev(|o: ExportObject| is_not_strap(o), objs[i]);
        }
    }
}

} // verus!
