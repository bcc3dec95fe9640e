use pathtracer::color::Color;
use pathtracer::model::{
    build_bundle, load, mtl_safe, mtllib_names, obj_safe, MaterialData, MeshData, MtlFile,
    SceneLoadError,
};

fn library(name: &str, text: &str) -> Vec<MtlFile> {
    vec![MtlFile { name: name.as_bytes().to_vec(), text: text.as_bytes().to_vec() }]
}

fn quad_positions(y: f32) -> Vec<u32> {
    let floats: [f32; 12] = [0.0, y, 0.0, 1.0, y, 0.0, 1.0, y, 1.0, 0.0, y, 1.0];
    floats.iter().map(|f| f.to_bits()).collect()
}

fn quad_indices() -> Vec<u32> {
    vec![0, 1, 2, 0, 2, 3]
}

fn color_bits(r: f32, g: f32, b: f32) -> Color {
    Color { r: r.to_bits(), g: g.to_bits(), b: b.to_bits() }
}

fn floor_and_light() -> (Vec<MeshData>, Vec<MaterialData>) {
    let meshes = vec![
        MeshData {
            name: "floor".to_string(),
            positions: quad_positions(0.0),
            indices: quad_indices(),
            material_id: Some(0),
        },
        MeshData {
            name: "light".to_string(),
            positions: quad_positions(1.0),
            indices: quad_indices(),
            material_id: Some(1),
        },
    ];
    let materials = vec![
        MaterialData {
            ambient: Some(color_bits(0.0, 0.0, 0.0)),
            diffuse: Some(color_bits(0.8, 0.8, 0.8)),
        },
        MaterialData {
            ambient: Some(color_bits(1.0, 1.0, 1.0)),
            diffuse: Some(color_bits(0.0, 0.0, 0.0)),
        },
    ];
    (meshes, materials)
}

#[test]
fn two_quads_bundle() {
    let (meshes, materials) = floor_and_light();
    let bundle = build_bundle(&meshes, &materials).unwrap();
    assert_eq!(bundle.compute_info.num_meshes, 2);
    assert_eq!(bundle.compute_info.num_lights, 1);
    assert_eq!(bundle.mesh_info.len(), 3);
    assert_eq!(bundle.mesh_info[0].vertex_offset, 0);
    assert_eq!(bundle.mesh_info[0].index_offset, 0);
    assert_eq!(bundle.mesh_info[1].vertex_offset, 4);
    assert_eq!(bundle.mesh_info[1].index_offset, 6);
    assert_eq!(bundle.mesh_info[2].vertex_offset, 8);
    assert_eq!(bundle.mesh_info[2].index_offset, 12);
    assert_eq!(bundle.vertices.len(), 8);
    assert_eq!(bundle.indices.len(), 12);
    assert_eq!(bundle.colors.len(), 3);
    assert_eq!(bundle.colors[0].diffuse_color, color_bits(0.8, 0.8, 0.8));
    assert_eq!(bundle.colors[1].ambient_color, color_bits(1.0, 1.0, 1.0));
    assert_eq!(bundle.colors[2].ambient_color, Color { r: 0, g: 0, b: 0 });
    assert_eq!(bundle.colors[2].diffuse_color, Color { r: 0, g: 0, b: 0 });
    // The indices stay local to their mesh; the kernel re-bases them
    // through the offset table.
    assert_eq!(&bundle.indices[..6], &[0, 1, 2, 0, 2, 3]);
    assert_eq!(&bundle.indices[6..], &[0, 1, 2, 0, 2, 3]);
    // The first vertex of the second mesh sits at the recorded offset.
    assert_eq!(bundle.vertices[4].y, 1.0f32.to_bits());
}

const OBJ_TWO_QUADS: &str = "mtllib scene.mtl\n\
o floor\n\
v 0 0 0\n\
v 1 0 0\n\
v 1 0 1\n\
v 0 0 1\n\
usemtl white\n\
f 1 2 3\n\
f 1 3 4\n\
o light\n\
v 0 1 0\n\
v 1 1 0\n\
v 1 1 1\n\
v 0 1 1\n\
usemtl lamp\n\
f 5 6 7\n\
f 5 7 8\n";

const MTL_TWO_QUADS: &str = "newmtl white\n\
Ka 0 0 0\n\
Kd 0.8 0.8 0.8\n\
newmtl lamp\n\
Ka 1 1 1\n\
Kd 0 0 0\n";

#[test]
fn two_quads_through_obj() {
    let bundle = load(OBJ_TWO_QUADS.as_bytes(), &library("scene.mtl", MTL_TWO_QUADS)).unwrap();
    assert_eq!(bundle.compute_info.num_meshes, 2);
    assert_eq!(bundle.compute_info.num_lights, 1);
    assert_eq!(bundle.mesh_info.len(), 3);
    assert_eq!(bundle.mesh_info[1].vertex_offset, 4);
    assert_eq!(bundle.mesh_info[1].index_offset, 6);
    assert_eq!(bundle.mesh_info[2].vertex_offset, 8);
    assert_eq!(bundle.mesh_info[2].index_offset, 12);
    assert_eq!(bundle.vertices.len(), 8);
    assert_eq!(bundle.indices.len(), 12);
    assert_eq!(bundle.colors[0].diffuse_color, color_bits(0.8, 0.8, 0.8));
    assert_eq!(bundle.colors[1].ambient_color, color_bits(1.0, 1.0, 1.0));
    // Offsets never decrease and the sentinel row carries the totals.
    for i in 0..bundle.mesh_info.len() - 1 {
        assert!(bundle.mesh_info[i].vertex_offset <= bundle.mesh_info[i + 1].vertex_offset);
        assert!(bundle.mesh_info[i].index_offset <= bundle.mesh_info[i + 1].index_offset);
    }
}

#[test]
fn missing_material_errors() {
    let obj = "v 0 0 0\nv 1 0 0\nv 1 1 0\nf 1 2 3\n";
    let err = load(obj.as_bytes(), &Vec::new()).unwrap_err();
    assert_eq!(err, SceneLoadError::MissingMaterial { mesh: 0 });
}

#[test]
fn missing_material_identifies_mesh() {
    // The second mesh is the one without a material.
    let (mut meshes, materials) = floor_and_light();
    meshes[1].material_id = None;
    let err = build_bundle(&meshes, &materials).unwrap_err();
    assert_eq!(err, SceneLoadError::MissingMaterial { mesh: 1 });
}

#[test]
fn unknown_material_errors() {
    let (mut meshes, materials) = floor_and_light();
    meshes[0].material_id = Some(7);
    let err = build_bundle(&meshes, &materials).unwrap_err();
    assert_eq!(err, SceneLoadError::UnknownMaterial { mesh: 0, material: 7 });
}

#[test]
fn missing_ambient_errors() {
    let (meshes, mut materials) = floor_and_light();
    materials[0].ambient = None;
    let err = build_bundle(&meshes, &materials).unwrap_err();
    assert_eq!(err, SceneLoadError::MissingAmbient { mesh: 0, material: 0 });
}

#[test]
fn missing_ambient_through_obj() {
    let obj = "mtllib scene.mtl\nv 0 0 0\nv 1 0 0\nv 1 1 0\nusemtl bare\nf 1 2 3\n";
    let mtl = "newmtl bare\nKd 0.5 0.5 0.5\n";
    let err = load(obj.as_bytes(), &library("scene.mtl", mtl)).unwrap_err();
    assert_eq!(err, SceneLoadError::MissingAmbient { mesh: 0, material: 0 });
}

#[test]
fn missing_diffuse_errors() {
    let (meshes, mut materials) = floor_and_light();
    materials[1].diffuse = None;
    let err = build_bundle(&meshes, &materials).unwrap_err();
    assert_eq!(err, SceneLoadError::MissingDiffuse { mesh: 1, material: 1 });
}

#[test]
fn parse_failure_errors() {
    let obj = "v one two three\n";
    let err = load(obj.as_bytes(), &Vec::new()).unwrap_err();
    assert!(matches!(err, SceneLoadError::Parse { .. }));
}

#[test]
fn no_lights() {
    let (meshes, mut materials) = floor_and_light();
    materials[1].ambient = Some(color_bits(0.0, 0.0, 0.0));
    let bundle = build_bundle(&meshes, &materials).unwrap();
    assert_eq!(bundle.compute_info.num_lights, 0);
}

#[test]
fn all_lights() {
    let (meshes, mut materials) = floor_and_light();
    materials[0].ambient = Some(color_bits(0.0, 0.2, 0.0));
    let bundle = build_bundle(&meshes, &materials).unwrap();
    assert_eq!(bundle.compute_info.num_lights, 2);
}

#[test]
fn negative_ambient_is_no_light() {
    // A negative channel does not compare greater than zero.
    let (meshes, mut materials) = floor_and_light();
    materials[1].ambient = Some(color_bits(-1.0, -0.5, 0.0));
    let bundle = build_bundle(&meshes, &materials).unwrap();
    assert_eq!(bundle.compute_info.num_lights, 0);
}

#[test]
fn empty_scene() {
    let bundle = build_bundle(&Vec::new(), &Vec::new()).unwrap();
    assert_eq!(bundle.compute_info.num_meshes, 0);
    assert_eq!(bundle.compute_info.num_lights, 0);
    assert_eq!(bundle.mesh_info.len(), 1);
    assert_eq!(bundle.mesh_info[0].vertex_offset, 0);
    assert_eq!(bundle.mesh_info[0].index_offset, 0);
    assert_eq!(bundle.colors.len(), 1);
    assert!(bundle.vertices.is_empty());
    assert!(bundle.indices.is_empty());
}

#[test]
fn mtllib_single_statement() {
    let obj = "# comment\nmtllib cornell_box.mtl\nv 0 0 0\n";
    let names = mtllib_names(obj.as_bytes());
    assert_eq!(names, vec![b"cornell_box.mtl".to_vec()]);
}

#[test]
fn mtllib_crlf_and_extra_spaces() {
    // The name is everything after the first plain space, trimmed.
    let obj = "mtllib  scene.mtl \r\nv 0 0 0\r\n";
    let names = mtllib_names(obj.as_bytes());
    assert_eq!(names, vec![b"scene.mtl".to_vec()]);
}

#[test]
fn mtllib_absent() {
    let obj = "v 0 0 0\nf 1 1 1\n";
    assert!(mtllib_names(obj.as_bytes()).is_empty());
}

#[test]
fn mtllib_several_statements_in_order() {
    let obj = "mtllib a.mtl\nv 0 0 0\nmtllib b.mtl\nmtllib a.mtl\n";
    let names = mtllib_names(obj.as_bytes());
    assert_eq!(names, vec![b"a.mtl".to_vec(), b"b.mtl".to_vec(), b"a.mtl".to_vec()]);
}

#[test]
fn mtllib_must_open_its_line() {
    let obj = "x mtllib other.mtl\nmtllib real.mtl\n";
    let names = mtllib_names(obj.as_bytes());
    assert_eq!(names, vec![b"real.mtl".to_vec()]);
}

#[test]
fn mtllib_indented_keeps_parser_quirk() {
    // An indented statement cuts at the first plain space, which precedes
    // the keyword, so the requested name still holds it.
    let obj = " mtllib x.mtl\n";
    let names = mtllib_names(obj.as_bytes());
    assert_eq!(names, vec![b"mtllib x.mtl".to_vec()]);
}

#[test]
fn two_material_files_resolve_by_name() {
    let obj = "mtllib a.mtl\nmtllib b.mtl\n\
v 0 0 0\nv 1 0 0\nv 1 1 0\nusemtl white\nf 1 2 3\n\
v 0 0 1\nv 1 0 1\nv 1 1 1\nusemtl lamp\nf 4 5 6\n";
    let lib = vec![
        MtlFile {
            name: b"a.mtl".to_vec(),
            text: b"newmtl white\nKa 0 0 0\nKd 0.8 0.8 0.8\n".to_vec(),
        },
        MtlFile {
            name: b"b.mtl".to_vec(),
            text: b"newmtl lamp\nKa 1 1 1\nKd 0 0 0\n".to_vec(),
        },
    ];
    let bundle = load(obj.as_bytes(), &lib).unwrap();
    assert_eq!(bundle.compute_info.num_meshes, 2);
    assert_eq!(bundle.compute_info.num_lights, 1);
    assert_eq!(bundle.colors[0].diffuse_color, color_bits(0.8, 0.8, 0.8));
    assert_eq!(bundle.colors[1].ambient_color, color_bits(1.0, 1.0, 1.0));
}

#[test]
fn short_color_statement_is_rejected() {
    // tobj's float-triple collect would panic on this line; the loader
    // rejects it as unparseable instead.
    let obj = "mtllib m.mtl\nv 0 0 0\nv 1 0 0\nv 1 1 0\nusemtl m\nf 1 2 3\n";
    let mtl = "newmtl m\nKa 1 2\n";
    assert!(!mtl_safe(mtl.as_bytes()));
    let err = load(obj.as_bytes(), &library("m.mtl", mtl)).unwrap_err();
    assert!(matches!(err, SceneLoadError::Parse { .. }));
}

#[test]
fn short_color_statement_with_junk_is_rejected() {
    let mtl = "newmtl m\nKd 1 x\n";
    assert!(!mtl_safe(mtl.as_bytes()));
}

#[test]
fn full_color_statements_are_safe() {
    assert!(mtl_safe(MTL_TWO_QUADS.as_bytes()));
    assert!(mtl_safe(b"newmtl m\nKa 1 2 3 4\nKs 0 0 0\nKe 0 0 0\nNs 10\n"));
}

#[test]
fn junk_color_value_errors_through_parser() {
    // Four fields keep the statement safe; the unparseable value is the
    // parser's own error, carried back as a parse failure.
    let obj = "mtllib m.mtl\nv 0 0 0\nv 1 0 0\nv 1 1 0\nusemtl m\nf 1 2 3\n";
    let mtl = "newmtl m\nKa 1 2 x\nKd 0 0 0\n";
    assert!(mtl_safe(mtl.as_bytes()));
    let err = load(obj.as_bytes(), &library("m.mtl", mtl)).unwrap_err();
    assert!(matches!(err, SceneLoadError::Parse { .. }));
}

#[test]
fn non_ascii_material_line_is_rejected() {
    let mtl = "newmtl caf\u{e9}\nKa 0 0 0\nKd 1 1 1\n";
    assert!(!mtl_safe(mtl.as_bytes()));
}

#[test]
fn wild_normal_reference_is_rejected() {
    // With normal data present, a face normal reference this large would
    // drive the parser's bound arithmetic out of the machine range.
    let obj = "vn 0 1 0\nv 0 0 0\nv 1 0 0\nv 1 1 0\nf 1//9223372036854775807 2//1 3//1\n";
    assert!(!obj_safe(obj.as_bytes()));
    let err = load(obj.as_bytes(), &Vec::new()).unwrap_err();
    assert!(matches!(err, SceneLoadError::Parse { .. }));
}

#[test]
fn negative_texcoord_reference_is_rejected() {
    let obj = "vt 0 0\nv 0 0 0\nv 1 0 0\nv 1 1 0\nf 1/-5 2/-5 3/-5\n";
    assert!(!obj_safe(obj.as_bytes()));
}

#[test]
fn plain_faces_are_safe() {
    assert!(obj_safe(OBJ_TWO_QUADS.as_bytes()));
    // Without texture or normal data the references are never dereferenced.
    assert!(obj_safe(b"v 0 0 0\nf 1/-5/-5 1/2/3 1/4/5\n"));
    // With data present, in-range references stay safe.
    assert!(obj_safe(b"vt 0 0\nvn 0 1 0\nv 0 0 0\nf 1/1/1 1/1/1 1/1/1\n"));
}
