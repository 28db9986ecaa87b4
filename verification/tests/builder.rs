use mjolnir_builder::error::BuilderError;
use mjolnir_builder::export::{
    build_package, exported, materials, model_settings_xml, model_xml, placeholder_png,
    project_settings, Colours, ExportObject, VertexDecimals,
};
use mjolnir_builder::loader::load_3mf_bytes;
use mjolnir_builder::model::{Mesh, MeshCollector, VertexText, XmlAttribute, XmlEvent, XmlTag};
use mjolnir_builder::preview::{compact_triangles, face_budget, preview_mesh, preview_step};
use mjolnir_builder::selection::{
    find_handle, mesh_by_id, selected, simplify_name, Catalogue, Combination, HandleStyle, Library,
    Material, Role,
};
use mjolnir_builder::text::{decimal_string, parse_u32, trim_number};
use mjolnir_builder::{escape_xml, handle_style};

use std::io::{Cursor, Write};

// ---------------------------------------------------------------------------
// Helpers
// ---------------------------------------------------------------------------

fn tag(name: &str, attrs: &[(&str, &str)]) -> XmlEvent {
    XmlEvent::Open(XmlTag {
        name: name.to_string(),
        attributes: attrs
            .iter()
            .map(|(k, v)| Some(XmlAttribute { key: k.to_string(), value: v.to_string() }))
            .collect(),
    })
}

fn close(name: &str) -> XmlEvent {
    XmlEvent::Close(name.to_string())
}

fn mesh(id: u32, name: &str) -> Mesh<()> {
    Mesh { id, name: name.to_string(), vertices: vec![()], triangles: vec![(0, 0, 0)] }
}

fn combo(style: &str, length: u32, thickness: u32, lower_end: &str, strap: &str) -> Combination {
    Combination {
        handle_style: style.to_string(),
        length,
        thickness,
        lower_end: lower_end.to_string(),
        strap: strap.to_string(),
    }
}

fn catalogue() -> Catalogue<()> {
    Catalogue {
        head: Ok(vec![mesh(2, "Head Bottom"), mesh(1, "Head Shell")]),
        pommel: Ok(vec![mesh(1, "Comic Pommel")]),
        flat_handles: Ok(vec![
            mesh(10, "Core 170mm 25mm Core"),
            mesh(11, "Core 195mm 28mm Core No Pommel"),
            mesh(12, "Core 195mm 28mm Core"),
        ]),
        detailed_handles: Ok(vec![
            mesh(20, "Printed Leather Handle 220mm 37mm Max"),
            mesh(21, "Printed Leather Handle 220mm 37mm Max No Pommel"),
        ]),
        straps: Ok(vec![mesh(1, "Plain TPU Strap"), mesh(2, "Detailed TPU Strap")]),
    }
}

fn colours() -> Colours {
    Colours {
        silver: "#aabbcc".to_string(),
        leather: "#112233".to_string(),
        strap: "#ff00ee".to_string(),
    }
}

fn object(role: Role, material: Material, name: &str) -> ExportObject {
    ExportObject {
        role,
        material,
        name: name.to_string(),
        vertices: vec![VertexDecimals {
            x: "1.500000".to_string(),
            y: "0.000000".to_string(),
            z: "-2.250000".to_string(),
        }],
        triangles: vec![(0, 0, 0)],
    }
}

fn package_bytes(model: &str) -> Vec<u8> {
    let mut writer = zip::ZipWriter::new(Cursor::new(Vec::new()));
    let options = zip::write::SimpleFileOptions::default()
        .compression_method(zip::CompressionMethod::Deflated);
    writer.start_file("3D/3dmodel.model", options).unwrap();
    writer.write_all(model.as_bytes()).unwrap();
    writer.finish().unwrap().into_inner()
}

const MODEL_HEADER: &str = "<?xml version=\"1.0\" encoding=\"UTF-8\"?><model unit=\"millimeter\" xmlns=\"http://schemas.microsoft.com/3dmanufacturing/core/2015/02\" xmlns:p=\"http://schemas.microsoft.com/3dmanufacturing/production/2015/06\"><metadata name=\"Application\">BambuStudio</metadata><metadata name=\"BambuStudio:3mfVersion\">1</metadata><resources><basematerials id=\"100\">";

// ---------------------------------------------------------------------------
// Text
// ---------------------------------------------------------------------------

#[test]
fn handle_style_names() {
    assert_eq!(handle_style("flat"), HandleStyle::Flat);
    assert_eq!(handle_style("real"), HandleStyle::Flat);
    assert_eq!(handle_style("simple"), HandleStyle::Simple);
    assert_eq!(handle_style("detailed"), HandleStyle::Detailed);
    assert_eq!(handle_style(""), HandleStyle::Detailed);
    assert_eq!(handle_style("Flat"), HandleStyle::Detailed);
}

#[test]
fn escape_xml_replaces_the_four_characters() {
    assert_eq!(escape_xml("a<b>&\"c\""), "a&lt;b&gt;&amp;&quot;c&quot;");
    assert_eq!(escape_xml("&amp;"), "&amp;amp;");
    assert_eq!(escape_xml("Plain name — 195mm"), "Plain name — 195mm");
    assert_eq!(escape_xml(""), "");
}

#[test]
fn trim_number_drops_trailing_zeros_then_point() {
    assert_eq!(trim_number("2.500000"), "2.5");
    assert_eq!(trim_number("3.000000"), "3");
    assert_eq!(trim_number("10.000000"), "10");
    assert_eq!(trim_number("120.250000"), "120.25");
    assert_eq!(trim_number("-0.000000"), "-0");
    assert_eq!(trim_number("0.000001"), "0.000001");
}

#[test]
fn parse_u32_follows_str_parse() {
    for text in ["42", "+7", "", "+", "-1", "4294967295", "4294967296", "1a", "007", " 5"] {
        assert_eq!(parse_u32(text), text.parse::<u32>().ok(), "{text:?}");
    }
    assert_eq!(parse_u32("007"), Some(7));
}

#[test]
fn decimal_string_values() {
    assert_eq!(decimal_string(0), "0");
    assert_eq!(decimal_string(101), "101");
    assert_eq!(decimal_string(u64::MAX), u64::MAX.to_string());
}

#[test]
fn simplify_name_replaces_printed_leather() {
    assert_eq!(
        simplify_name("04 Printed Leather Handle 195mm 34mm Max"),
        "04 Simple Leather Handle 195mm 34mm Max"
    );
    assert_eq!(simplify_name("Core 195mm"), "Core 195mm");
}

#[test]
fn builder_error_text() {
    assert_eq!(BuilderError::Message("m".to_string()).text(), "m");
    assert_eq!(BuilderError::Io("io".to_string()).text(), "io");
    assert_eq!(BuilderError::Zip("zip".to_string()).text(), "zip");
}

// ---------------------------------------------------------------------------
// Mesh collection and library loading
// ---------------------------------------------------------------------------

#[test]
fn collector_builds_meshes_from_events() {
    let mut c = MeshCollector::new();
    let events = vec![
        tag("model", &[]),
        tag("object", &[("id", "3"), ("name", "Head Shell")]),
        tag("mesh", &[]),
        tag("vertices", &[]),
        tag("vertex", &[("x", "1.5"), ("y", "2"), ("z", "-3")]),
        tag("vertex", &[("x", "0"), ("y", "bad")]),
        close("vertices"),
        tag("triangles", &[]),
        tag("triangle", &[("v1", "0"), ("v2", "1"), ("v3", "x")]),
        close("triangles"),
        close("mesh"),
        XmlEvent::Other,
        close("object"),
        XmlEvent::Eof,
    ];
    for e in &events {
        c.feed(e);
    }
    let ms = c.finish();
    assert_eq!(ms.len(), 1);
    assert_eq!(ms[0].id, 3);
    assert_eq!(ms[0].name, "Head Shell");
    assert_eq!(ms[0].vertices.len(), 2);
    assert_eq!(ms[0].vertices[0].x.as_deref(), Some("1.5"));
    assert_eq!(ms[0].vertices[1].y.as_deref(), Some("bad"));
    assert_eq!(ms[0].vertices[1].z, None);
    assert_eq!(ms[0].triangles, vec![(0, 1, 0)]);
}

#[test]
fn collector_defaults_and_skips() {
    let mut c = MeshCollector::new();
    let events = vec![
        // A vertex outside any mesh is ignored.
        tag("vertex", &[("x", "9")]),
        tag("object", &[("id", "7")]),
        tag("mesh", &[]),
        tag("vertex", &[("x", "1")]),
        close("mesh"),
        // No triangles: the object is not emitted.
        close("object"),
        XmlEvent::Open(XmlTag {
            name: "object".to_string(),
            attributes: vec![None, Some(XmlAttribute { key: "id".to_string(), value: "x".to_string() })],
        }),
        tag("mesh", &[]),
        tag("vertex", &[]),
        tag("triangle", &[("v1", "+2"), ("v2", "1"), ("v3", "0")]),
        close("mesh"),
        // After the mesh closes, vertices are no longer collected.
        tag("vertex", &[("x", "5")]),
        close("object"),
    ];
    for e in &events {
        c.feed(e);
    }
    let ms = c.finish();
    assert_eq!(ms.len(), 1);
    assert_eq!(ms[0].id, 0);
    assert_eq!(ms[0].name, "Object 0");
    assert_eq!(ms[0].vertices.len(), 1);
    assert_eq!(ms[0].triangles, vec![(2, 1, 0)]);
}

#[test]
fn collector_names_unnamed_objects_by_id() {
    let mut c = MeshCollector::new();
    for e in [
        tag("object", &[("id", "12")]),
        tag("mesh", &[]),
        tag("vertex", &[]),
        tag("triangle", &[]),
        close("mesh"),
        close("object"),
    ] {
        c.feed(&e);
    }
    let ms = c.finish();
    assert_eq!(ms[0].name, "Object 12");
}

#[test]
fn load_reads_meshes_from_a_3mf_package() {
    let model = r#"<?xml version="1.0" encoding="UTF-8"?>
<model unit="millimeter" xmlns="http://schemas.microsoft.com/3dmanufacturing/core/2015/02">
  <resources>
    <object id="1" name="Head Shell" type="model">
      <mesh>
        <vertices>
          <vertex x="0" y="0" z="0"/>
          <vertex x="1.25" y="0" z="0"/>
          <vertex x="0" y="1" z="0"/>
        </vertices>
        <triangles>
          <triangle v1="0" v2="1" v3="2"/>
        </triangles>
      </mesh>
    </object>
    <object id="2" type="model">
      <mesh><vertices><vertex x="0" y="0" z="0"/></vertices><triangles><triangle v1="0" v2="0" v3="0"/></triangles></mesh>
    </object>
  </resources>
</model>"#;
    let ms = load_3mf_bytes(&package_bytes(model), "lib.3mf").ok().unwrap();
    assert_eq!(ms.len(), 2);
    assert_eq!(ms[0].id, 1);
    assert_eq!(ms[0].name, "Head Shell");
    assert_eq!(ms[0].vertices.len(), 3);
    assert_eq!(ms[0].vertices[1].x.as_deref(), Some("1.25"));
    assert_eq!(ms[0].triangles, vec![(0, 1, 2)]);
    assert_eq!(ms[1].id, 2);
    assert_eq!(ms[1].name, "Object 2");
}

#[test]
fn load_reports_missing_meshes() {
    let model = r#"<model><resources><object id="1"><mesh/></object></resources></model>"#;
    match load_3mf_bytes(&package_bytes(model), "lib.3mf") {
        Err(BuilderError::Message(m)) => {
            assert_eq!(m, "No mesh objects were found in embedded asset lib.3mf.")
        }
        _ => panic!("expected a message"),
    }
}

#[test]
fn load_reports_invalid_xml() {
    let model = r#"<model><resources></model>"#;
    match load_3mf_bytes(&package_bytes(model), "lib.3mf") {
        Err(BuilderError::Message(m)) => assert!(m.starts_with("Invalid 3MF XML in lib.3mf: ")),
        _ => panic!("expected a message"),
    }
}

#[test]
fn load_reports_archive_errors() {
    assert!(matches!(load_3mf_bytes(b"not a zip", "x"), Err(BuilderError::Zip(_))));
    let mut writer = zip::ZipWriter::new(Cursor::new(Vec::new()));
    writer.start_file("other.txt", zip::write::SimpleFileOptions::default()).unwrap();
    writer.write_all(b"hello").unwrap();
    let bytes = writer.finish().unwrap().into_inner();
    assert!(matches!(load_3mf_bytes(&bytes, "x"), Err(BuilderError::Zip(_))));
}

// ---------------------------------------------------------------------------
// Selection
// ---------------------------------------------------------------------------

#[test]
fn library_file_names() {
    assert_eq!(Library::Head.file_name(), "01_Mjolnir_Hammer_Head_System_Clean_Circles.3mf");
    assert_eq!(Library::Straps.file_name(), "05_Mjolnir_Wrist_Strap_Options.3mf");
    assert_eq!(
        Library::from_file_name("03_Mjolnir_Real_Leather_Handle_Core_Library.3mf").ok(),
        Some(Library::FlatHandles)
    );
    match Library::from_file_name("other.3mf") {
        Err(BuilderError::Message(m)) => assert_eq!(m, "Unknown embedded asset: other.3mf"),
        _ => panic!("expected a message"),
    }
}

#[test]
fn mesh_by_id_finds_the_first() {
    let ms = vec![mesh(2, "a"), mesh(1, "b"), mesh(1, "c")];
    assert_eq!(mesh_by_id(&ms, 1).ok(), Some(1));
    match mesh_by_id(&ms, 5) {
        Err(BuilderError::Message(m)) => assert_eq!(m, "Object 5 is missing."),
        _ => panic!("expected a message"),
    }
}

#[test]
fn find_handle_matches_length_thickness_and_pommel() {
    let cat = catalogue();
    let flat = cat.flat_handles.as_ref().unwrap();
    assert_eq!(find_handle(flat, &combo("flat", 195, 28, "pommel", "none")).ok(), Some(2));
    assert_eq!(find_handle(flat, &combo("flat", 195, 28, "no_pommel", "none")).ok(), Some(1));
    match find_handle(flat, &combo("real", 195, 99, "pommel", "none")) {
        Err(BuilderError::Message(m)) => {
            assert_eq!(m, "No handle matched real / 195mm / 99mm Core.")
        }
        _ => panic!("expected a message"),
    }
    let detailed = cat.detailed_handles.as_ref().unwrap();
    match find_handle(detailed, &combo("simple", 170, 31, "pommel", "none")) {
        Err(BuilderError::Message(m)) => {
            assert_eq!(m, "No handle matched simple / 170mm / 31mm Max.")
        }
        _ => panic!("expected a message"),
    }
}

#[test]
fn selected_parts_for_a_full_combination() {
    let cat = catalogue();
    let parts = selected(&cat, &combo("flat", 195, 28, "pommel", "plain_tpu")).ok().unwrap();
    let roles: Vec<Role> = parts.iter().map(|p| p.role).collect();
    assert_eq!(roles, vec![Role::HeadShell, Role::HeadBottom, Role::Handle, Role::Pommel, Role::Strap]);
    assert_eq!(parts[0].library, Library::Head);
    assert_eq!(parts[0].index, 1);
    assert_eq!(parts[1].index, 0);
    assert_eq!(parts[2].library, Library::FlatHandles);
    assert_eq!(parts[2].index, 2);
    assert_eq!(parts[2].material, Material::Leather);
    assert!(!parts[2].softened);
    assert_eq!(parts[3].library, Library::Pommel);
    assert_eq!(parts[4].index, 0);
    assert_eq!(parts[4].material, Material::Strap);
    assert_eq!(parts[4].name, "Plain TPU Strap");
}

#[test]
fn selected_parts_without_pommel_and_detailed_strap() {
    let cat = catalogue();
    let parts = selected(&cat, &combo("simple", 220, 37, "no_pommel", "detailed_tpu")).ok().unwrap();
    assert_eq!(parts.len(), 4);
    assert_eq!(parts[2].library, Library::DetailedHandles);
    assert_eq!(parts[2].index, 1);
    assert!(parts[2].softened);
    assert_eq!(parts[2].name, "Simple Leather Handle 220mm 37mm Max No Pommel");
    assert_eq!(parts[3].role, Role::Strap);
    assert_eq!(parts[3].index, 1);
    assert_eq!(parts[3].name, "Detailed TPU Strap");
}

#[test]
fn selected_parts_with_real_strap_and_no_strap() {
    let cat = catalogue();
    let real = selected(&cat, &combo("detailed", 220, 37, "pommel", "real")).ok().unwrap();
    assert_eq!(real.len(), 5);
    assert_eq!(real[4].role, Role::Strap);
    assert_eq!(real[2].name, "Printed Leather Handle 220mm 37mm Max");
    let none = selected(&cat, &combo("detailed", 220, 37, "none", "none")).ok().unwrap();
    assert_eq!(none.len(), 3);
}

#[test]
fn selected_reports_the_first_failure() {
    let mut cat = catalogue();
    cat.pommel = Err("pommel library broken".to_string());
    match selected(&cat, &combo("flat", 195, 28, "pommel", "none")) {
        Err(BuilderError::Message(m)) => assert_eq!(m, "pommel library broken"),
        _ => panic!("expected a message"),
    }
    // The pommel library is not needed without a pommel.
    assert!(selected(&cat, &combo("flat", 195, 28, "no_pommel", "none")).is_ok());
    let mut cat = catalogue();
    cat.head = Ok(vec![mesh(1, "Head Shell")]);
    match selected(&cat, &combo("flat", 195, 28, "pommel", "none")) {
        Err(BuilderError::Message(m)) => assert_eq!(m, "Object 2 is missing."),
        _ => panic!("expected a message"),
    }
    let mut cat = catalogue();
    cat.straps = Ok(vec![mesh(1, "Plain TPU Strap")]);
    match selected(&cat, &combo("flat", 195, 28, "pommel", "detailed_tpu")) {
        Err(BuilderError::Message(m)) => assert_eq!(m, "Object 2 is missing."),
        _ => panic!("expected a message"),
    }
}

// ---------------------------------------------------------------------------
// Preview
// ---------------------------------------------------------------------------

#[test]
fn preview_budget_and_step() {
    assert_eq!(face_budget(Role::HeadShell), 12000);
    assert_eq!(face_budget(Role::Handle), 12000);
    assert_eq!(face_budget(Role::Pommel), 6000);
    assert_eq!(face_budget(Role::Strap), 6000);
    assert_eq!(preview_step(0, 6000), 1);
    assert_eq!(preview_step(6000, 6000), 1);
    assert_eq!(preview_step(6001, 6000), 2);
    assert_eq!(preview_step(25000, 12000), 3);
}

#[test]
fn compaction_reindexes_in_first_use_order() {
    let ts = vec![(5, 3, 5), (9, 9, 9), (3, 7, 5)];
    let m = compact_triangles(&ts, 1);
    assert_eq!(m.vertices, vec![5, 3, 9, 7]);
    assert_eq!(m.indices, vec![0, 1, 0, 2, 2, 2, 1, 3, 0]);
    let m = compact_triangles(&ts, 2);
    assert_eq!(m.vertices, vec![5, 3, 7]);
    assert_eq!(m.indices, vec![0, 1, 0, 1, 2, 0]);
    let m = compact_triangles(&ts, 5);
    assert_eq!(m.vertices, vec![5, 3]);
    assert_eq!(m.indices, vec![0, 1, 0]);
}

#[test]
fn preview_keeps_at_most_the_budget() {
    let ts: Vec<(u32, u32, u32)> = (0..25000u32).map(|i| (i, i + 1, i + 2)).collect();
    let m = preview_mesh(Role::Pommel, &ts);
    assert_eq!(m.indices.len() / 3, 5000);
    assert!(m.indices.len() / 3 <= 6000);
    for (k, idx) in m.indices.iter().enumerate() {
        let corner = ts[(k / 3) * 5];
        let expected = [corner.0, corner.1, corner.2][k % 3];
        assert_eq!(m.vertices[*idx as usize], expected);
    }
}

// ---------------------------------------------------------------------------
// Export
// ---------------------------------------------------------------------------

#[test]
fn real_strap_is_not_exported() {
    let objs = vec![
        object(Role::HeadShell, Material::Silver, "a"),
        object(Role::Strap, Material::Strap, "s"),
        object(Role::Handle, Material::Leather, "h"),
    ];
    let kept = exported(objs, "real");
    let roles: Vec<Role> = kept.iter().map(|o| o.role).collect();
    assert_eq!(roles, vec![Role::HeadShell, Role::Handle]);
    let objs = vec![object(Role::Strap, Material::Strap, "s")];
    assert_eq!(exported(objs, "plain_tpu").len(), 1);
}

#[test]
fn materials_add_strap_only_when_used() {
    let objs = vec![object(Role::HeadShell, Material::Silver, "a")];
    assert_eq!(materials(&objs), vec![Material::Silver, Material::Leather]);
    let objs = vec![
        object(Role::HeadShell, Material::Silver, "a"),
        object(Role::Strap, Material::Strap, "s"),
    ];
    assert_eq!(materials(&objs), vec![Material::Silver, Material::Leather, Material::Strap]);
}

#[test]
fn model_xml_exact_text() {
    let objs = vec![object(Role::HeadShell, Material::Silver, "Head <A>")];
    let ms = vec![Material::Silver, Material::Leather];
    let uuids = vec!["00000000-0000-4000-8000-000000000000".to_string()];
    let xml = model_xml(&objs, &ms, &colours(), &uuids);
    let expected = format!(
        "{MODEL_HEADER}<base name=\"silver\" displaycolor=\"#AABBCC\"/><base name=\"leather\" displaycolor=\"#112233\"/></basematerials><object id=\"1\" name=\"Head &lt;A&gt;\" type=\"model\" pid=\"100\" pindex=\"0\" p:UUID=\"00000000-0000-4000-8000-000000000000\"><mesh><vertices><vertex x=\"1.5\" y=\"0\" z=\"-2.25\"/></vertices><triangles><triangle v1=\"0\" v2=\"0\" v3=\"0\"/></triangles></mesh></object></resources><build><item objectid=\"1\"/></build></model>"
    );
    assert_eq!(xml, expected);
}

#[test]
fn model_settings_exact_text() {
    let objs = vec![
        object(Role::Handle, Material::Leather, "H"),
        object(Role::Strap, Material::Strap, "S"),
    ];
    let ms = vec![Material::Silver, Material::Leather, Material::Strap];
    let xml = model_settings_xml(&objs, &ms);
    let object = |id: usize, name: &str, extruder: usize| {
        format!("<object id=\"{id}\"><metadata key=\"name\" value=\"{name}\"/><metadata key=\"extruder\" value=\"{extruder}\"/><part id=\"{id}\" subtype=\"normal_part\"><metadata key=\"name\" value=\"{name}\"/><metadata key=\"matrix\" value=\"1 0 0 0 0 1 0 0 0 0 1 0 0 0 0 1\"/><mesh_stat face_count=\"1\" edges_fixed=\"0\" degenerate_facets=\"0\" facets_removed=\"0\" facets_reversed=\"0\" backwards_edges=\"0\"/></part></object>")
    };
    let plate = |i: usize, material: &str, role: &str| {
        format!("<plate><metadata key=\"plater_id\" value=\"{i}\"/><metadata key=\"plater_name\" value=\"{i:02} — {material} — {role}\"/><metadata key=\"locked\" value=\"false\"/><metadata key=\"thumbnail_file\" value=\"Metadata/plate_{i}.png\"/><model_instance><metadata key=\"object_id\" value=\"{i}\"/><metadata key=\"instance_id\" value=\"0\"/><metadata key=\"identify_id\" value=\"{}\"/></model_instance></plate>", 100 + i)
    };
    let expected = format!(
        "<?xml version=\"1.0\" encoding=\"UTF-8\"?><config>{}{}{}{}</config>",
        object(1, "H", 2),
        object(2, "S", 3),
        plate(1, "leather", "handle"),
        plate(2, "strap", "strap")
    );
    assert_eq!(xml, expected);
}

#[test]
fn project_settings_per_filament() {
    let ms = vec![Material::Silver, Material::Leather, Material::Strap];
    let p = project_settings(&ms, &colours());
    assert_eq!(p.filament_type, vec!["PLA", "PLA", "TPU"]);
    assert_eq!(p.filament_colour, vec!["#AABBCC", "#112233", "#FF00EE"]);
    assert_eq!(p.filament_vendor, vec!["Generic", "Generic", "Generic"]);
    assert_eq!(p.printer_model, "Bambu Lab P2S");
    assert_eq!(p.nozzle_diameter, vec!["0.4"]);
    assert_eq!(p.sparse_infill_density, "18%");
    assert_eq!(p.brim_width, "8");
}

#[test]
fn placeholder_png_is_a_png() {
    let png = placeholder_png("#ffffff");
    assert!(png.len() > 8);
    assert_eq!(&png[..8], &[0x89, b'P', b'N', b'G', 0x0d, 0x0a, 0x1a, 0x0a]);
}

#[test]
fn package_has_one_plate_per_exported_object() {
    let objs = vec![
        object(Role::HeadShell, Material::Silver, "a"),
        object(Role::HeadBottom, Material::Silver, "b"),
        object(Role::Handle, Material::Leather, "h"),
        object(Role::Strap, Material::Strap, "s"),
    ];
    let p = build_package(objs, "real", &colours());
    assert_eq!(p.plates.len(), 3);
    assert_eq!(p.plates[2].name, "Metadata/plate_3.png");
    assert_eq!(p.content_types.name, "[Content_Types].xml");
    assert_eq!(p.relationships.name, "_rels/.rels");
    assert_eq!(p.model.name, "3D/3dmodel.model");
    assert_eq!(p.model_settings.name, "Metadata/model_settings.config");
    assert_eq!(p.project_settings_name, "Metadata/project_settings.config");
    assert_eq!(p.project_settings.filament_type, vec!["PLA", "PLA"]);
    assert!(!p.model_settings.text.contains("strap"));
    assert_eq!(p.model.text.matches("<object id=").count(), 3);
    assert_eq!(p.model.text.matches("<item objectid=").count(), 3);
    let at = p.model.text.find("p:UUID=\"").unwrap() + 8;
    let uuid = &p.model.text[at..at + 36];
    assert!(uuid::Uuid::parse_str(uuid).is_ok());
    assert_eq!(&uuid[14..15], "4");
    let p = build_package(
        vec![object(Role::Strap, Material::Strap, "s")],
        "plain_tpu",
        &colours(),
    );
    assert_eq!(p.plates.len(), 1);
    assert!(p.model.text.contains("<base name=\"strap\" displaycolor=\"#FF00EE\"/>"));
}

#[test]
fn vertex_text_is_plain_data() {
    let v = VertexText { x: Some("1".to_string()), y: None, z: None };
    assert_eq!(v.x.as_deref(), Some("1"));
}

#[test]
fn printed_numbers_parse_back() {
    for n in [0u32, 7, 10, 4096, 65535, u32::MAX] {
        assert_eq!(parse_u32(&decimal_string(n as u64)), Some(n));
    }
}

#[test]
fn escaped_text_has_no_markup() {
    let e = escape_xml("<object name=\"a&b\">'x'</object>");
    assert!(!e.contains('<') && !e.contains('>') && !e.contains('"'));
    assert_eq!(e, "&lt;object name=&quot;a&amp;b&quot;&gt;'x'&lt;/object&gt;");
}

#[test]
fn whole_numbers_trim_to_integers() {
    for n in [0u64, 1, 10, 170, 1000] {
        assert_eq!(trim_number(&format!("{n}.000000")), n.to_string());
    }
}

#[test]
fn selection_shape_for_every_choice() {
    let cat = catalogue();
    for lower_end in ["pommel", "no_pommel", "none"] {
        for strap in ["none", "real", "plain_tpu", "detailed_tpu"] {
            let c = combo("flat", 195, 28, lower_end, strap);
            let parts = selected(&cat, &c).ok().unwrap();
            let pommel = lower_end == "pommel";
            let has_strap = strap != "none";
            assert_eq!(parts.len(), 3 + pommel as usize + has_strap as usize);
            assert_eq!(parts.iter().any(|p| p.role == Role::Pommel), pommel);
            assert_eq!(parts.iter().any(|p| p.role == Role::Strap), has_strap);
            for p in &parts {
                assert_eq!(p.role == Role::Strap, p.material == Material::Strap);
            }
        }
    }
}

fn unescape(s: &str) -> String {
    s.replace("&lt;", "<").replace("&gt;", ">").replace("&quot;", "\"").replace("&amp;", "&")
}

#[test]
fn escaping_distributes_over_concatenation() {
    let a = "a&b<\"";
    let b = ">c&amp;";
    assert_eq!(escape_xml(&format!("{a}{b}")), format!("{}{}", escape_xml(a), escape_xml(b)));
    assert_eq!(escape_xml(""), "");
}

#[test]
fn escaped_text_reads_back() {
    for s in ["", "plain", "a&b", "&amp;", "<x y=\"1\">", "&lt;&gt;&quot;", "\"&\"<>"] {
        assert_eq!(unescape(&escape_xml(s)), s);
    }
    assert_ne!(escape_xml("&lt;"), escape_xml("<"));
}

#[test]
fn compacted_indices_are_numbered_by_first_use() {
    let ts = vec![(7, 7, 2), (4, 2, 9), (9, 1, 7), (3, 3, 3)];
    let m = compact_triangles(&ts, 1);
    let mut highest: i64 = -1;
    for &i in &m.indices {
        assert!(i as i64 <= highest + 1);
        highest = highest.max(i as i64);
    }
    assert_eq!(m.vertices.len() as i64, highest + 1);
    assert_eq!(m.indices[0], 0);
    assert_eq!(m.vertices, vec![7, 2, 4, 9, 1, 3]);
    for (k, &i) in m.indices.iter().enumerate() {
        let t = ts[k / 3];
        assert_eq!(m.vertices[i as usize], [t.0, t.1, t.2][k % 3]);
    }
}

#[test]
fn two_packages_differ_only_in_uuids() {
    let objs = || {
        vec![
            object(Role::HeadShell, Material::Silver, "a"),
            object(Role::Handle, Material::Leather, "h"),
            object(Role::Strap, Material::Strap, "s"),
        ]
    };
    let p = build_package(objs(), "plain_tpu", &colours());
    let q = build_package(objs(), "plain_tpu", &colours());
    assert_eq!(p.content_types.text, q.content_types.text);
    assert_eq!(p.relationships.text, q.relationships.text);
    assert_eq!(p.model_settings.text, q.model_settings.text);
    assert_eq!(p.project_settings.filament_type, q.project_settings.filament_type);
    assert_eq!(p.project_settings.filament_colour, q.project_settings.filament_colour);
    assert_eq!(p.plates.len(), q.plates.len());
    for (a, b) in p.plates.iter().zip(q.plates.iter()) {
        assert_eq!(a.name, b.name);
        assert_eq!(a.data, b.data);
    }
    let blank = |t: &str| {
        let mut out = String::new();
        let mut rest = t;
        while let Some(at) = rest.find("p:UUID=\"") {
            out.push_str(&rest[..at + 8]);
            rest = &rest[at + 8 + 36..];
        }
        out.push_str(rest);
        out
    };
    assert_ne!(p.model.text, q.model.text);
    assert_eq!(blank(&p.model.text), blank(&q.model.text));
}

#[test]
fn load_reports_unreadable_model_as_io() {
    let mut writer = zip::ZipWriter::new(Cursor::new(Vec::new()));
    writer.start_file("3D/3dmodel.model", zip::write::SimpleFileOptions::default()).unwrap();
    writer.write_all(&[0xff, 0xfe, 0x00]).unwrap();
    let bytes = writer.finish().unwrap().into_inner();
    assert!(matches!(load_3mf_bytes(&bytes, "x"), Err(BuilderError::Io(_))));
}

fn first_xml_error(model: &str) -> String {
    let mut reader = quick_xml::Reader::from_str(model);
    reader.config_mut().trim_text(true);
    loop {
        match reader.read_event() {
            Ok(quick_xml::events::Event::Eof) => panic!("expected an error"),
            Ok(_) => {}
            Err(e) => return e.to_string(),
        }
    }
}

#[test]
fn load_error_texts_are_the_outside_errors() {
    let expected = zip::ZipArchive::new(Cursor::new(&b"not a zip"[..])).err().unwrap().to_string();
    match load_3mf_bytes(b"not a zip", "x") {
        Err(BuilderError::Zip(m)) => assert_eq!(m, expected),
        _ => panic!("expected a zip error"),
    }
    let model = r#"<model><resources></model>"#;
    match load_3mf_bytes(&package_bytes(model), "lib.3mf") {
        Err(BuilderError::Message(m)) => {
            assert_eq!(m, format!("Invalid 3MF XML in lib.3mf: {}", first_xml_error(model)))
        }
        _ => panic!("expected a message"),
    }
    let mut writer = zip::ZipWriter::new(Cursor::new(Vec::new()));
    writer.start_file("3D/3dmodel.model", zip::write::SimpleFileOptions::default()).unwrap();
    writer.write_all(&[0xff, 0xfe, 0x00]).unwrap();
    let bytes = writer.finish().unwrap().into_inner();
    let mut text = String::new();
    let io = std::io::Read::read_to_string(&mut std::io::Cursor::new(vec![0xffu8, 0xfe, 0x00]), &mut text)
        .err()
        .unwrap()
        .to_string();
    match load_3mf_bytes(&bytes, "x") {
        Err(BuilderError::Io(m)) => assert_eq!(m, io),
        _ => panic!("expected an I/O error"),
    }
}
