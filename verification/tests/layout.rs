use pathtracer::color::Color;
use pathtracer::layout::{
    CAMERA_SIZE, COLORS_STRIDE, COMPUTE_INFO_SIZE, MESH_INFO_STRIDE, PIXEL_SIZE, PT_INFO_SIZE,
    VERTEX_STRIDE,
};
use pathtracer::model::{build_bundle, MaterialData, MeshData};
use pathtracer::pt::{identity_rot, Camera, F32_ONE_BITS};

fn f32_le(v: f32) -> [u8; 4] {
    v.to_bits().to_le_bytes()
}

fn one_triangle() -> (Vec<MeshData>, Vec<MaterialData>) {
    let floats: [f32; 9] = [0.5, -1.25, 2.0, 3.5, 4.0, -0.75, 6.25, 7.0, 8.125];
    let meshes = vec![MeshData {
        name: "tri".to_string(),
        positions: floats.iter().map(|f| f.to_bits()).collect(),
        indices: vec![0, 1, 2],
        material_id: Some(0),
    }];
    let materials = vec![MaterialData {
        ambient: Some(Color { r: 0.25f32.to_bits(), g: 0, b: 0 }),
        diffuse: Some(Color {
            r: 0.5f32.to_bits(),
            g: 0.5f32.to_bits(),
            b: 0.5f32.to_bits(),
        }),
    }];
    (meshes, materials)
}

#[test]
fn vertex_bytes_match_floats() {
    let (meshes, materials) = one_triangle();
    let bundle = build_bundle(&meshes, &materials).unwrap();
    let bytes = bundle.vertex_bytes();
    assert_eq!(bytes.len(), VERTEX_STRIDE * 3);
    let mut expected: Vec<u8> = Vec::new();
    let floats: [f32; 9] = [0.5, -1.25, 2.0, 3.5, 4.0, -0.75, 6.25, 7.0, 8.125];
    for v in 0..3 {
        for c in 0..3 {
            expected.extend_from_slice(&f32_le(floats[v * 3 + c]));
        }
        expected.extend_from_slice(&[0, 0, 0, 0]);
    }
    assert_eq!(bytes, expected);
}

#[test]
fn index_bytes_little_endian() {
    let (meshes, materials) = one_triangle();
    let bundle = build_bundle(&meshes, &materials).unwrap();
    let bytes = bundle.index_bytes();
    assert_eq!(bytes.len(), 12);
    assert_eq!(
        bytes,
        vec![0u8, 0, 0, 0, 1, 0, 0, 0, 2, 0, 0, 0]
    );
}

#[test]
fn mesh_info_bytes_stride() {
    let (meshes, materials) = one_triangle();
    let bundle = build_bundle(&meshes, &materials).unwrap();
    let bytes = bundle.mesh_info_bytes();
    assert_eq!(bytes.len(), MESH_INFO_STRIDE * 2);
    // Row zero starts at offset zero; the sentinel holds the totals.
    assert_eq!(&bytes[0..8], &[0u8, 0, 0, 0, 0, 0, 0, 0]);
    assert_eq!(&bytes[8..12], &3u32.to_le_bytes());
    assert_eq!(&bytes[12..16], &3u32.to_le_bytes());
}

#[test]
fn colors_bytes_padded_rows() {
    let (meshes, materials) = one_triangle();
    let bundle = build_bundle(&meshes, &materials).unwrap();
    let bytes = bundle.colors_bytes();
    assert_eq!(bytes.len(), COLORS_STRIDE * 2);
    assert_eq!(&bytes[0..4], &f32_le(0.25));
    assert_eq!(&bytes[4..12], &[0u8; 8]);
    assert_eq!(&bytes[12..16], &[0u8; 4]); // padding word after ambient
    assert_eq!(&bytes[16..20], &f32_le(0.5));
    assert_eq!(&bytes[28..32], &[0u8; 4]); // padding word after diffuse
    assert_eq!(&bytes[32..64], &[0u8; 32]); // all-zero sentinel row
}

#[test]
fn compute_info_bytes_layout() {
    let (meshes, materials) = one_triangle();
    let bundle = build_bundle(&meshes, &materials).unwrap();
    let bytes = bundle.compute_info_bytes();
    assert_eq!(bytes.len(), COMPUTE_INFO_SIZE);
    assert_eq!(&bytes[0..4], &1u32.to_le_bytes());
    assert_eq!(&bytes[4..8], &1u32.to_le_bytes());
}

#[test]
fn identity_rotation_matches_glam() {
    let rot = identity_rot();
    let cols = glam::Mat3::IDENTITY.to_cols_array();
    for i in 0..9 {
        assert_eq!(rot[i], cols[i].to_bits());
    }
    assert_eq!(F32_ONE_BITS, 1.0f32.to_bits());
}

#[test]
fn camera_bytes_layout() {
    let cam = Camera {
        position: [250.0f32.to_bits(), 250.0f32.to_bits(), (-500.0f32).to_bits()],
        yaw: 0.0f32.to_bits(),
        pitch: 0.0f32.to_bits(),
        rot: identity_rot(),
        aspect: (800.0f32 / 600.0f32).to_bits(),
        focal_length: 300.0f32.to_bits(),
        znear: 0.1f32.to_bits(),
        zfar: 100.0f32.to_bits(),
    };
    let bytes = cam.to_bytes();
    assert_eq!(bytes.len(), CAMERA_SIZE);
    assert_eq!(&bytes[0..4], &f32_le(250.0));
    assert_eq!(&bytes[8..12], &f32_le(-500.0));
    assert_eq!(&bytes[12..16], &[0u8; 4]); // padding after position
    assert_eq!(&bytes[16..20], &f32_le(0.0)); // yaw
    assert_eq!(&bytes[24..28], &f32_le(1.0)); // rot column 0 row 0
    assert_eq!(&bytes[40..44], &f32_le(1.0)); // rot column 1 row 1
    assert_eq!(&bytes[56..60], &f32_le(1.0)); // rot column 2 row 2
    assert_eq!(&bytes[60..72], &[0u8; 12]); // padding after the matrix
    assert_eq!(&bytes[72..76], &f32_le(800.0 / 600.0));
    assert_eq!(&bytes[76..80], &f32_le(300.0));
    assert_eq!(&bytes[80..84], &f32_le(0.1));
    assert_eq!(&bytes[84..88], &f32_le(100.0));
    assert_eq!(&bytes[88..96], &[0u8; 8]); // trailing padding
}

#[test]
fn strides_match_kernel_expectation() {
    assert_eq!(VERTEX_STRIDE, 16);
    assert_eq!(MESH_INFO_STRIDE, 8);
    assert_eq!(COLORS_STRIDE, 32);
    assert_eq!(COMPUTE_INFO_SIZE, 8);
    assert_eq!(PT_INFO_SIZE, 16);
    assert_eq!(CAMERA_SIZE, 96);
    assert_eq!(PIXEL_SIZE, 16);
}

#[test]
fn emits_follows_float_comparison() {
    let zero = Color { r: 0, g: 0, b: 0 };
    assert!(!zero.emits());
    let half = Color { r: 0, g: 0.5f32.to_bits(), b: 0 };
    assert!(half.emits());
    let negative = Color {
        r: (-1.0f32).to_bits(),
        g: (-0.0f32).to_bits(),
        b: 0,
    };
    assert!(!negative.emits());
    let infinite = Color { r: f32::INFINITY.to_bits(), g: 0, b: 0 };
    assert!(infinite.emits());
    let nan = Color { r: f32::NAN.to_bits(), g: 0, b: 0 };
    assert!(!nan.emits());
    let tiny = Color { r: 1, g: 0, b: 0 }; // smallest positive subnormal
    assert!(tiny.emits());
    // The predicate agrees with comparing the decoded floats.
    for c in [zero, half, negative, infinite, nan, tiny] {
        let decoded = [f32::from_bits(c.r), f32::from_bits(c.g), f32::from_bits(c.b)];
        let expected = decoded.iter().any(|v| *v > 0.0);
        assert_eq!(c.emits(), expected);
    }
}
