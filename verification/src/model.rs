//! The scene loader.
//!
//! An OBJ document is parsed by `tobj` into per-mesh vertex positions,
//! triangle indices and a material id; the loader flattens those meshes into
//! one shared vertex array and one shared index array, records each mesh's
//! starting offsets in a table with a sentinel row, resolves every mesh's
//! material into an ambient/diffuse pair, and counts the light sources.
//! Positions and colors are carried as IEEE-754 bit patterns, so the whole
//! flattening pass works on plain integers while the bytes uploaded to the
//! GPU are identical to the parsed floats.

use vstd::prelude::*;

use crate::color::{black, spec_emits, Color};
use crate::layout::{le4, push_le4};

verus! {

/// A vertex position, each coordinate the bit pattern of a binary32 value.
/// Serialized with one trailing padding word (see `layout::VERTEX_STRIDE`).
#[derive(Clone, Copy, Debug, PartialEq, Eq, Structural)]
pub struct Vertex {
    pub x: u32,
    pub y: u32,
    pub z: u32,
}

/// Where a mesh's data starts inside the shared vertex and index arrays,
/// in elements. A sentinel row holding the total counts closes the table,
/// so mesh `i` spans `[row i, row i+1)` without a separate count field.
#[derive(Clone, Copy, Debug, PartialEq, Eq, Structural)]
pub struct MeshInfo {
    pub vertex_offset: u32,
    pub index_offset: u32,
}

/// A mesh's resolved material: emitted radiance and diffuse reflectance.
#[derive(Clone, Copy, Debug, PartialEq, Eq, Structural)]
pub struct Colors {
    pub ambient_color: Color,
    pub diffuse_color: Color,
}

/// The scalar counts the kernel needs because it cannot query container
/// lengths: the number of real meshes (the sentinel row excluded) and the
/// number of light sources among them.
#[derive(Clone, Copy, Debug, PartialEq, Eq, Structural)]
pub struct ComputeInfo {
    pub num_meshes: u32,
    pub num_lights: u32,
}

/// One sub-mesh as parsing delivers it: flattened vertex position bit
/// patterns (three words per vertex), triangle indices local to this mesh,
/// and the id of the material assigned to it, if any.
pub struct MeshData {
    pub name: String,
    pub positions: Vec<u32>,
    pub indices: Vec<u32>,
    pub material_id: Option<usize>,
}

/// One material as parsing delivers it: the ambient and diffuse colors,
/// either of which an MTL document may omit.
pub struct MaterialData {
    pub ambient: Option<Color>,
    pub diffuse: Option<Color>,
}

/// The immutable aggregate a loaded scene becomes: the flat arrays and
/// tables every frame's compute dispatch reads.
#[derive(Debug)]
pub struct SceneBundle {
    pub vertices: Vec<Vertex>,
    pub indices: Vec<u32>,
    pub mesh_info: Vec<MeshInfo>,
    pub colors: Vec<Colors>,
    pub compute_info: ComputeInfo,
}

/// The mathematical value of a `SceneBundle`.
#[verifier::ext_equal]
pub ghost struct SceneBundleView {
    pub vertices: Seq<Vertex>,
    pub indices: Seq<u32>,
    pub mesh_info: Seq<MeshInfo>,
    pub colors: Seq<Colors>,
    pub compute_info: ComputeInfo,
}

impl View for SceneBundle {
    type V = SceneBundleView;

    open spec fn view(&self) -> SceneBundleView {
        SceneBundleView {
            vertices: self.vertices@,
            indices: self.indices@,
            mesh_info: self.mesh_info@,
            colors: self.colors@,
            compute_info: self.compute_info,
        }
    }
}

/// Why a scene cannot be loaded. Load failures are fatal: no partially
/// built bundle is ever handed out.
#[derive(Clone, Debug, PartialEq, Eq)]
pub enum SceneLoadError {
    /// The OBJ or MTL text could not be parsed; the message says why.
    Parse { message: String },
    /// Mesh `mesh` has no assigned material.
    MissingMaterial { mesh: usize },
    /// Mesh `mesh` names a material id outside the material table.
    UnknownMaterial { mesh: usize, material: usize },
    /// The material of mesh `mesh` has no ambient color.
    MissingAmbient { mesh: usize, material: usize },
    /// The material of mesh `mesh` has no diffuse color.
    MissingDiffuse { mesh: usize, material: usize },
    /// A running element count left the 32-bit range the offset table and
    /// the scalar counts use; `mesh` is the mesh at which it did (the mesh
    /// count itself overflowing reports the number of meshes).
    TooLarge { mesh: usize },
}

// ---------------------------------------------------------------------------
// The loader's specification.
// ---------------------------------------------------------------------------

/// How many vertices a mesh contributes: one per three position words
/// (a trailing fragment of fewer than three words contributes none).
pub open spec fn vertex_count(m: MeshData) -> int {
    m.positions@.len() as int / 3
}

/// Total vertices of a mesh sequence.
pub open spec fn total_vertices(ms: Seq<MeshData>) -> int
    decreases ms.len(),
{
    if ms.len() == 0 {
        0
    } else {
        total_vertices(ms.drop_last()) + vertex_count(ms.last())
    }
}

/// Total indices of a mesh sequence.
pub open spec fn total_indices(ms: Seq<MeshData>) -> int
    decreases ms.len(),
{
    if ms.len() == 0 {
        0
    } else {
        total_indices(ms.drop_last()) + ms.last().indices@.len()
    }
}

/// The vertices of one mesh, grouped from its flattened position words.
pub open spec fn mesh_vertices(m: MeshData) -> Seq<Vertex> {
    Seq::new(vertex_count(m) as nat, |i: int| Vertex {
        x: m.positions@[3 * i],
        y: m.positions@[3 * i + 1],
        z: m.positions@[3 * i + 2],
    })
}

/// The shared vertex array: every mesh's vertices, in parse order.
pub open spec fn flat_vertices(ms: Seq<MeshData>) -> Seq<Vertex>
    decreases ms.len(),
{
    if ms.len() == 0 {
        Seq::empty()
    } else {
        flat_vertices(ms.drop_last()) + mesh_vertices(ms.last())
    }
}

/// The shared index array: every mesh's indices, in parse order, kept local
/// to their mesh (the kernel re-bases them through the offset table).
pub open spec fn flat_indices(ms: Seq<MeshData>) -> Seq<u32>
    decreases ms.len(),
{
    if ms.len() == 0 {
        Seq::empty()
    } else {
        flat_indices(ms.drop_last()) + ms.last().indices@
    }
}

/// True when mesh `m` is a light source: its material resolves and its
/// ambient color has a channel greater than zero.
pub open spec fn mesh_is_light(m: MeshData, mats: Seq<MaterialData>) -> bool {
    &&& m.material_id matches Some(id)
    &&& m.material_id->0 < mats.len()
    &&& mats[m.material_id->0 as int].ambient matches Some(c)
    &&& spec_emits(mats[m.material_id->0 as int].ambient->0)
}

/// How many meshes of the sequence are light sources.
pub open spec fn light_count(ms: Seq<MeshData>, mats: Seq<MaterialData>) -> int
    decreases ms.len(),
{
    if ms.len() == 0 {
        0
    } else {
        light_count(ms.drop_last(), mats) + if mesh_is_light(ms.last(), mats) {
            1int
        } else {
            0int
        }
    }
}

/// The first reason mesh `i` is rejected, checked in the order the loader
/// checks them, or `None` when the mesh is acceptable.
pub open spec fn mesh_fault(ms: Seq<MeshData>, mats: Seq<MaterialData>, i: int) -> Option<
    SceneLoadError,
> {
    let m = ms[i];
    match m.material_id {
        None => Some(SceneLoadError::MissingMaterial { mesh: i as usize }),
        Some(id) => if id >= mats.len() {
            Some(SceneLoadError::UnknownMaterial { mesh: i as usize, material: id })
        } else if mats[id as int].ambient is None {
            Some(SceneLoadError::MissingAmbient { mesh: i as usize, material: id })
        } else if mats[id as int].diffuse is None {
            Some(SceneLoadError::MissingDiffuse { mesh: i as usize, material: id })
        } else if total_vertices(ms.take(i + 1)) > u32::MAX || total_indices(ms.take(i + 1))
            > u32::MAX {
            Some(SceneLoadError::TooLarge { mesh: i as usize })
        } else {
            None
        },
    }
}

/// The first fault among meshes `i ..`, then the mesh-count check.
pub open spec fn first_fault_from(ms: Seq<MeshData>, mats: Seq<MaterialData>, i: int) -> Option<
    SceneLoadError,
>
    decreases ms.len() - i,
{
    if i < 0 || i >= ms.len() {
        if ms.len() > u32::MAX {
            Some(SceneLoadError::TooLarge { mesh: ms.len() as usize })
        } else {
            None
        }
    } else {
        match mesh_fault(ms, mats, i) {
            Some(e) => Some(e),
            None => first_fault_from(ms, mats, i + 1),
        }
    }
}

/// Why loading the parsed scene fails, or `None` when it succeeds.
pub open spec fn load_fault(ms: Seq<MeshData>, mats: Seq<MaterialData>) -> Option<
    SceneLoadError,
> {
    first_fault_from(ms, mats, 0)
}

/// Row `i` of the offset table: the element totals of the meshes before `i`.
/// Row `ms.len()` is the sentinel holding the full totals.
pub open spec fn spec_mesh_info(ms: Seq<MeshData>, i: int) -> MeshInfo {
    MeshInfo {
        vertex_offset: total_vertices(ms.take(i)) as u32,
        index_offset: total_indices(ms.take(i)) as u32,
    }
}

/// Row `i` of the material table: mesh `i`'s resolved colors, or the
/// all-zero sentinel row.
pub open spec fn spec_colors_entry(ms: Seq<MeshData>, mats: Seq<MaterialData>, i: int) -> Colors {
    if i < ms.len() {
        Colors {
            ambient_color: mats[ms[i].material_id->0 as int].ambient->0,
            diffuse_color: mats[ms[i].material_id->0 as int].diffuse->0,
        }
    } else {
        Colors { ambient_color: black(), diffuse_color: black() }
    }
}

/// The bundle a fault-free parsed scene becomes.
pub open spec fn spec_bundle(ms: Seq<MeshData>, mats: Seq<MaterialData>) -> SceneBundleView {
    SceneBundleView {
        vertices: flat_vertices(ms),
        indices: flat_indices(ms),
        mesh_info: Seq::new((ms.len() + 1) as nat, |i: int| spec_mesh_info(ms, i)),
        colors: Seq::new((ms.len() + 1) as nat, |i: int| spec_colors_entry(ms, mats, i)),
        compute_info: ComputeInfo {
            num_meshes: ms.len() as u32,
            num_lights: light_count(ms, mats) as u32,
        },
    }
}

/// What every loaded bundle guarantees the kernel: a full offset table with
/// one sentinel row, non-decreasing offsets that end at the true totals, a
/// parallel material table closed by an all-zero row, and a light count no
/// larger than the mesh count.
pub open spec fn bundle_wf(b: SceneBundleView) -> bool {
    &&& b.mesh_info.len() == b.compute_info.num_meshes + 1
    &&& b.colors.len() == b.mesh_info.len()
    &&& forall|i: int|
        0 <= i < b.mesh_info.len() - 1 ==> (#[trigger] b.mesh_info[i]).vertex_offset <= b.mesh_info[
            i + 1
        ].vertex_offset && b.mesh_info[i].index_offset <= b.mesh_info[i + 1].index_offset
    &&& b.mesh_info[0].vertex_offset == 0
    &&& b.mesh_info[0].index_offset == 0
    &&& b.mesh_info.last().vertex_offset == b.vertices.len()
    &&& b.mesh_info.last().index_offset == b.indices.len()
    &&& b.colors.last() == (Colors { ambient_color: black(), diffuse_color: black() })
    &&& b.compute_info.num_lights <= b.compute_info.num_meshes
}

// ---------------------------------------------------------------------------
// Facts about the specification.
// ---------------------------------------------------------------------------

/// Element totals are sums of non-negative counts.
proof fn lemma_totals_nonneg(ms: Seq<MeshData>)
    ensures
        total_vertices(ms) >= 0,
        total_indices(ms) >= 0,
    decreases ms.len(),
{
    if ms.len() > 0 {
        lemma_totals_nonneg(ms.drop_last());
    }
}

/// The flat arrays are exactly as long as the element totals.
proof fn lemma_flat_lens(ms: Seq<MeshData>)
    ensures
        flat_vertices(ms).len() == total_vertices(ms),
        flat_indices(ms).len() == total_indices(ms),
    decreases ms.len(),
{
    if ms.len() > 0 {
        lemma_flat_lens(ms.drop_last());
    }
}

/// There are never more lights than meshes.
proof fn lemma_light_count_bounds(ms: Seq<MeshData>, mats: Seq<MaterialData>)
    ensures
        0 <= light_count(ms, mats) <= ms.len(),
    decreases ms.len(),
{
    if ms.len() > 0 {
        lemma_light_count_bounds(ms.drop_last(), mats);
    }
}

/// Extending a prefix by one mesh extends every accumulated quantity by that
/// mesh's contribution.
proof fn lemma_prefix_step(ms: Seq<MeshData>, mats: Seq<MaterialData>, i: int)
    requires
        0 <= i < ms.len(),
    ensures
        total_vertices(ms.take(i + 1)) == total_vertices(ms.take(i)) + vertex_count(ms[i]),
        total_indices(ms.take(i + 1)) == total_indices(ms.take(i)) + ms[i].indices@.len(),
        flat_vertices(ms.take(i + 1)) == flat_vertices(ms.take(i)) + mesh_vertices(ms[i]),
        flat_indices(ms.take(i + 1)) == flat_indices(ms.take(i)) + ms[i].indices@,
        light_count(ms.take(i + 1), mats) == light_count(ms.take(i), mats) + if mesh_is_light(
            ms[i],
            mats,
        ) {
            1int
        } else {
            0int
        },
{
    let t = ms.take(i + 1);
    assert(t.drop_last() =~= ms.take(i));
    assert(t.last() == ms[i]);
}

/// A fault-free scene stays fault-free from any later index on.
proof fn lemma_fault_free_from(ms: Seq<MeshData>, mats: Seq<MaterialData>, i: int, j: int)
    requires
        0 <= i <= j <= ms.len(),
        first_fault_from(ms, mats, i) is None,
    ensures
        first_fault_from(ms, mats, j) is None,
    decreases j - i,
{
    if i < j {
        lemma_fault_free_from(ms, mats, i + 1, j);
    }
}

/// In a fault-free scene every single mesh is acceptable and the mesh count
/// fits the 32-bit counter.
proof fn lemma_fault_free_facts(ms: Seq<MeshData>, mats: Seq<MaterialData>, i: int)
    requires
        load_fault(ms, mats) is None,
        0 <= i <= ms.len(),
    ensures
        i < ms.len() ==> mesh_fault(ms, mats, i) is None,
        ms.len() <= u32::MAX,
{
    lemma_fault_free_from(ms, mats, 0, i);
    lemma_fault_free_from(ms, mats, 0, ms.len() as int);
}

/// In a fault-free scene every prefix's element totals fit the 32-bit
/// offsets.
proof fn lemma_prefix_fits(ms: Seq<MeshData>, mats: Seq<MaterialData>, i: int)
    requires
        load_fault(ms, mats) is None,
        0 <= i <= ms.len(),
    ensures
        0 <= total_vertices(ms.take(i)) <= u32::MAX,
        0 <= total_indices(ms.take(i)) <= u32::MAX,
{
    lemma_totals_nonneg(ms.take(i));
    if i == 0 {
        assert(ms.take(0) =~= Seq::<MeshData>::empty());
    } else {
        lemma_fault_free_facts(ms, mats, i - 1);
        assert(mesh_fault(ms, mats, i - 1) is None);
    }
}

/// Law: every fault-free scene's bundle is well formed — the offset table
/// has exactly `num_meshes + 1` rows beginning at zero, offsets never
/// decrease from row to row, and the sentinel row holds the true totals of
/// the flat arrays.
pub proof fn lemma_bundle_wf(ms: Seq<MeshData>, mats: Seq<MaterialData>)
    requires
        load_fault(ms, mats) is None,
    ensures
        bundle_wf(spec_bundle(ms, mats)),
        spec_bundle(ms, mats).mesh_info.len() == ms.len() + 1,
        spec_bundle(ms, mats).vertices.len() == total_vertices(ms),
        spec_bundle(ms, mats).indices.len() == total_indices(ms),
{
    let b = spec_bundle(ms, mats);
    lemma_flat_lens(ms);
    lemma_fault_free_facts(ms, mats, ms.len() as int);
    lemma_light_count_bounds(ms, mats);
    assert forall|i: int|
        0 <= i < b.mesh_info.len() - 1 implies (#[trigger] b.mesh_info[i]).vertex_offset
        <= b.mesh_info[i + 1].vertex_offset && b.mesh_info[i].index_offset <= b.mesh_info[
        i + 1
    ].index_offset by {
        lemma_prefix_step(ms, mats, i);
        lemma_prefix_fits(ms, mats, i);
        lemma_prefix_fits(ms, mats, i + 1);
    }
    assert(ms.take(0) =~= Seq::<MeshData>::empty());
    assert(ms.take(ms.len() as int) =~= ms);
    lemma_prefix_fits(ms, mats, ms.len() as int);
}

/// Law: the loader's light count is exactly the number of meshes whose
/// ambient color has a channel greater than zero; it holds whether no mesh,
/// one mesh, or every mesh is a light.
pub proof fn lemma_num_lights(ms: Seq<MeshData>, mats: Seq<MaterialData>)
    requires
        load_fault(ms, mats) is None,
    ensures
        spec_bundle(ms, mats).compute_info.num_lights == ms.filter(
            |m: MeshData| mesh_is_light(m, mats),
        ).len(),
{
    lemma_light_count_filter(ms, mats);
    lemma_light_count_bounds(ms, mats);
    lemma_fault_free_facts(ms, mats, 0);
}

/// The recursive light count agrees with filtering the mesh sequence by the
/// light predicate.
proof fn lemma_light_count_filter(ms: Seq<MeshData>, mats: Seq<MaterialData>)
    ensures
        light_count(ms, mats) == ms.filter(|m: MeshData| mesh_is_light(m, mats)).len(),
    decreases ms.len(),
{
    reveal(Seq::filter);
    if ms.len() > 0 {
        lemma_light_count_filter(ms.drop_last(), mats);
    }
}

// ---------------------------------------------------------------------------
// The executable loader.
// ---------------------------------------------------------------------------

/// Flatten a parsed scene into the bundle the kernel reads, or report the
/// first fault in parse order: a mesh without a material, a material id
/// outside the table, a material without an ambient or diffuse color, or an
/// element count leaving the 32-bit range of the offset table.
#[verifier::loop_isolation(false)]
pub fn build_bundle(meshes: &Vec<MeshData>, materials: &Vec<MaterialData>) -> (r: Result<
    SceneBundle,
    SceneLoadError,
>)
    ensures
        match r {
            Ok(b) => load_fault(meshes@, materials@) is None && b@ == spec_bundle(
                meshes@,
                materials@,
            ),
            Err(e) => load_fault(meshes@, materials@) == Some(e),
        },
{
    let ghost ms = meshes@;
    let ghost mats = materials@;
    let mut vertices: Vec<Vertex> = Vec::new();
    let mut indices: Vec<u32> = Vec::new();
    let mut mesh_info: Vec<MeshInfo> = Vec::new();
    let mut colors: Vec<Colors> = Vec::new();
    let mut vertex_offset: u32 = 0;
    let mut index_offset: u32 = 0;
    let mut num_lights: usize = 0;

    proof {
        assert(ms.take(0) =~= Seq::<MeshData>::empty());
    }

    let mut i: usize = 0;
    while i < meshes.len()
        invariant
            i <= meshes.len(),
            first_fault_from(ms, mats, 0) == first_fault_from(ms, mats, i as int),
            vertex_offset == total_vertices(ms.take(i as int)),
            index_offset == total_indices(ms.take(i as int)),
            vertices@ == flat_vertices(ms.take(i as int)),
            indices@ == flat_indices(ms.take(i as int)),
            mesh_info@.len() == i,
            forall|j: int| 0 <= j < i ==> #[trigger] mesh_info@[j] == spec_mesh_info(ms, j),
            colors@.len() == i,
            forall|j: int| 0 <= j < i ==> #[trigger] colors@[j] == spec_colors_entry(ms, mats, j),
            num_lights == light_count(ms.take(i as int), mats),
            num_lights <= i,
        decreases meshes.len() - i,
    {
        let m = &meshes[i];
        let mat_id: usize = match m.material_id {
            None => {
                return Err(SceneLoadError::MissingMaterial { mesh: i });
            },
            Some(id) => id,
        };
        if mat_id >= materials.len() {
            return Err(SceneLoadError::UnknownMaterial { mesh: i, material: mat_id });
        }
        let mat = &materials[mat_id];
        let amb: Color = match mat.ambient {
            None => {
                return Err(SceneLoadError::MissingAmbient { mesh: i, material: mat_id });
            },
            Some(c) => c,
        };
        let dif: Color = match mat.diffuse {
            None => {
                return Err(SceneLoadError::MissingDiffuse { mesh: i, material: mat_id });
            },
            Some(c) => c,
        };
        let vc: usize = m.positions.len() / 3;
        let new_vo: u128 = vertex_offset as u128 + vc as u128;
        let new_io: u128 = index_offset as u128 + m.indices.len() as u128;
        proof {
            lemma_prefix_step(ms, mats, i as int);
        }
        if new_vo > u32::MAX as u128 || new_io > u32::MAX as u128 {
            return Err(SceneLoadError::TooLarge { mesh: i });
        }
        assert(mesh_fault(ms, mats, i as int) is None);

        mesh_info.push(MeshInfo { vertex_offset, index_offset });
        colors.push(Colors { ambient_color: amb, diffuse_color: dif });
        if amb.emits() {
            num_lights = num_lights + 1;
        }

        let mut j: usize = 0;
        while j < vc
            invariant
                j <= vc,
                vertices@ == flat_vertices(ms.take(i as int)) + mesh_vertices(
                    ms[i as int],
                ).take(j as int),
            decreases vc - j,
        {
            vertices.push(
                Vertex {
                    x: m.positions[3 * j],
                    y: m.positions[3 * j + 1],
                    z: m.positions[3 * j + 2],
                },
            );
            proof {
                assert(vertices@ =~= flat_vertices(ms.take(i as int)) + mesh_vertices(
                    ms[i as int],
                ).take(j as int + 1));
            }
            j = j + 1;
        }
        proof {
            assert(mesh_vertices(ms[i as int]).take(vc as int) =~= mesh_vertices(ms[i as int]));
        }

        let mut k: usize = 0;
        while k < m.indices.len()
            invariant
                k <= m.indices.len(),
                indices@ == flat_indices(ms.take(i as int)) + ms[i as int].indices@.take(k as int),
            decreases m.indices.len() - k,
        {
            indices.push(m.indices[k]);
            proof {
                assert(indices@ =~= flat_indices(ms.take(i as int)) + ms[i as int].indices@.take(
                    k as int + 1,
                ));
            }
            k = k + 1;
        }
        proof {
            assert(ms[i as int].indices@.take(m.indices@.len() as int) =~= ms[i as int].indices@);
        }

        vertex_offset = new_vo as u32;
        index_offset = new_io as u32;
        i = i + 1;
    }

    proof {
        assert(ms.take(meshes@.len() as int) =~= ms);
    }
    mesh_info.push(MeshInfo { vertex_offset, index_offset });
    colors.push(Colors { ambient_color: Color::zero(), diffuse_color: Color::zero() });
    if meshes.len() as u64 > u32::MAX as u64 {
        return Err(SceneLoadError::TooLarge { mesh: meshes.len() });
    }
    proof {
        lemma_light_count_bounds(ms, mats);
    }
    let bundle = SceneBundle {
        vertices,
        indices,
        mesh_info,
        colors,
        compute_info: ComputeInfo {
            num_meshes: meshes.len() as u32,
            num_lights: num_lights as u32,
        },
    };
    proof {
        assert(bundle@.mesh_info =~= spec_bundle(ms, mats).mesh_info);
        assert(bundle@.colors =~= spec_bundle(ms, mats).colors);
        assert(bundle@ =~= spec_bundle(ms, mats));
    }
    Ok(bundle)
}

// ---------------------------------------------------------------------------
// Parsing, through tobj.
// ---------------------------------------------------------------------------

#[verifier::external_type_specification]
#[verifier::external_body]
pub struct ExTobjModel(tobj::Model);

#[verifier::external_type_specification]
#[verifier::external_body]
pub struct ExTobjMaterial(tobj::Material);

#[verifier::external_type_specification]
#[verifier::external_body]
pub struct ExTobjLoadError(tobj::LoadError);

/// What parsing returns, as a function of the OBJ text and the material
/// library (each file's name and text) alone. The parse is deterministic
/// byte-level work; this name stands for its result, which would take
/// pages to state.
pub uninterp spec fn spec_parse(obj: Seq<u8>, mtls: Seq<(Seq<u8>, Seq<u8>)>) -> Option<
    (Seq<MeshData>, Seq<MaterialData>),
>;

/// Relies on tobj::load_obj_buf and tobj::load_mtl_buf: parses OBJ text
/// with the GPU load options (triangulated faces, a single index per
/// vertex), resolving each material-library statement against the caller's
/// library by the requested file name (a name the library lacks fails that
/// statement, as a missing file would). The preconditions keep out the
/// inputs on which the parser panics; on the rest the outcome is a
/// function of the two arguments alone, named `spec_parse`.
#[verifier::external_body]
fn parse_obj(obj_text: &[u8], lib: &Vec<MtlFile>) -> (r: Result<
    (Vec<MeshData>, Vec<MaterialData>),
    tobj::LoadError,
>)
    requires
        obj_parse_safe(obj_text@),
        lib_safe(lib@),
    ensures
        r is Ok <==> spec_parse(obj_text@, lib_view(lib@)) is Some,
        r matches Ok(p) ==> Some((p.0@, p.1@)) == spec_parse(obj_text@, lib_view(lib@)),
{
    let mut reader: &[u8] = obj_text;
    let parsed = tobj::load_obj_buf(&mut reader, &tobj::GPU_LOAD_OPTIONS, |p| {
        match p.to_str().and_then(|nm| find_mtl(lib, nm.as_bytes())) {
            Some(text) => tobj::load_mtl_buf(&mut &text[..]),
            None => Err(tobj::LoadError::OpenFileFailed),
        }
    });
    match parsed {
        Ok((models, Ok(mats))) => Ok((
            models.iter().map(mesh_data_of).collect(),
            mats.iter().map(material_data_of).collect(),
        )),
        Ok((_, Err(e))) => Err(e),
        Err(e) => Err(e),
    }
}

/// Relies on the public fields of tobj::Model: the mesh's name, its
/// flattened vertex positions, its triangle indices and its material id.
/// Positions are carried over as their IEEE-754 bit patterns.
#[verifier::external_body]
fn mesh_data_of(m: &tobj::Model) -> (r: MeshData) {
    MeshData {
        name: m.name.clone(),
        positions: m.mesh.positions.iter().map(|p| p.to_bits()).collect(),
        indices: m.mesh.indices.clone(),
        material_id: m.mesh.material_id,
    }
}

/// Relies on the public fields of tobj::Material: the optional ambient and
/// diffuse colors, carried over as their IEEE-754 bit patterns.
#[verifier::external_body]
fn material_data_of(m: &tobj::Material) -> (r: MaterialData) {
    MaterialData {
        ambient: m.ambient.map(|c| Color { r: c[0].to_bits(), g: c[1].to_bits(), b: c[2].to_bits() }),
        diffuse: m.diffuse.map(|c| Color { r: c[0].to_bits(), g: c[1].to_bits(), b: c[2].to_bits() }),
    }
}

/// Relies on tobj::LoadError's Display text for diagnostics.
#[verifier::external_body]
fn load_error_message(e: &tobj::LoadError) -> (r: String) {
    format!("{}", e)
}

/// Load a scene from OBJ text and the material-library documents its
/// `mtllib` statements reference (see `mtllib_names`). Text whose parsing
/// is not modelled here — a non-ASCII line, or a color statement with
/// fewer than three fields, on some of which the parser panics — is
/// rejected as unparseable up front; everything else is parsed by tobj and
/// flattened by `build_bundle`, whose contract pins the bundle exactly.
pub fn load(obj_text: &[u8], mtl_library: &Vec<MtlFile>) -> (r: Result<
    SceneBundle,
    SceneLoadError,
>)
    ensures
        match r {
            Ok(b) => {
                &&& obj_parse_safe(obj_text@) && lib_safe(mtl_library@)
                &&& spec_parse(obj_text@, lib_view(mtl_library@)) matches Some(p) && load_fault(
                    p.0,
                    p.1,
                ) is None && b@ == spec_bundle(p.0, p.1)
                &&& bundle_wf(b@)
            },
            Err(e) => {
                if !(obj_parse_safe(obj_text@) && lib_safe(mtl_library@)) {
                    e is Parse
                } else {
                    match spec_parse(obj_text@, lib_view(mtl_library@)) {
                        None => e is Parse,
                        Some(p) => load_fault(p.0, p.1) == Some(e),
                    }
                }
            },
        },
{
    if !obj_safe(obj_text) {
        return Err(
            SceneLoadError::Parse { message: "unparseable geometry statement".to_owned() },
        );
    }
    let mut i: usize = 0;
    while i < mtl_library.len()
        invariant
            i <= mtl_library@.len(),
            forall|k: int| 0 <= k < i ==> mtl_parse_safe(#[trigger] mtl_library@[k].text@),
        decreases mtl_library@.len() - i,
    {
        if !mtl_safe(mtl_library[i].text.as_slice()) {
            return Err(
                SceneLoadError::Parse { message: "unparseable material statement".to_owned() },
            );
        }
        i = i + 1;
    }
    match parse_obj(obj_text, mtl_library) {
        Err(e) => Err(SceneLoadError::Parse { message: load_error_message(&e) }),
        Ok((meshes, materials)) => {
            let r = build_bundle(&meshes, &materials);
            proof {
                if r is Ok {
                    lemma_bundle_wf(meshes@, materials@);
                }
            }
            r
        },
    }
}

// ---------------------------------------------------------------------------
// The bytes uploaded to the GPU.
// ---------------------------------------------------------------------------

/// One vertex record: three position words and a padding word.
pub open spec fn spec_vertex_bytes(v: Vertex) -> Seq<u8> {
    le4(v.x) + le4(v.y) + le4(v.z) + le4(0)
}

/// The vertex buffer's bytes.
pub open spec fn spec_vertices_bytes(vs: Seq<Vertex>) -> Seq<u8>
    decreases vs.len(),
{
    if vs.len() == 0 {
        Seq::empty()
    } else {
        spec_vertices_bytes(vs.drop_last()) + spec_vertex_bytes(vs.last())
    }
}

/// The index buffer's bytes.
pub open spec fn spec_indices_bytes(ixs: Seq<u32>) -> Seq<u8>
    decreases ixs.len(),
{
    if ixs.len() == 0 {
        Seq::empty()
    } else {
        spec_indices_bytes(ixs.drop_last()) + le4(ixs.last())
    }
}

/// One offset-table row: the vertex offset, then the index offset.
pub open spec fn spec_mesh_info_row_bytes(row: MeshInfo) -> Seq<u8> {
    le4(row.vertex_offset) + le4(row.index_offset)
}

/// The offset table's bytes.
pub open spec fn spec_mesh_info_bytes(rows: Seq<MeshInfo>) -> Seq<u8>
    decreases rows.len(),
{
    if rows.len() == 0 {
        Seq::empty()
    } else {
        spec_mesh_info_bytes(rows.drop_last()) + spec_mesh_info_row_bytes(rows.last())
    }
}

/// One material row: ambient rgb and a padding word, then diffuse rgb and a
/// padding word.
pub open spec fn spec_colors_row_bytes(c: Colors) -> Seq<u8> {
    le4(c.ambient_color.r) + le4(c.ambient_color.g) + le4(c.ambient_color.b) + le4(0) + le4(
        c.diffuse_color.r,
    ) + le4(c.diffuse_color.g) + le4(c.diffuse_color.b) + le4(0)
}

/// The material table's bytes.
pub open spec fn spec_colors_bytes(cs: Seq<Colors>) -> Seq<u8>
    decreases cs.len(),
{
    if cs.len() == 0 {
        Seq::empty()
    } else {
        spec_colors_bytes(cs.drop_last()) + spec_colors_row_bytes(cs.last())
    }
}

/// The scalar-count record: the mesh count, then the light count.
pub open spec fn spec_compute_info_bytes(ci: ComputeInfo) -> Seq<u8> {
    le4(ci.num_meshes) + le4(ci.num_lights)
}

impl SceneBundle {
    /// The vertex buffer's bytes: 16 per vertex, positions padded to the
    /// kernel's stride.
    pub fn vertex_bytes(&self) -> (r: Vec<u8>)
        ensures
            r@ == spec_vertices_bytes(self.vertices@),
            r@.len() == crate::layout::VERTEX_STRIDE * self.vertices@.len(),
    {
        let mut out: Vec<u8> = Vec::new();
        let mut i: usize = 0;
        proof {
            assert(self.vertices@.take(0) =~= Seq::<Vertex>::empty());
        }
        while i < self.vertices.len()
            invariant
                i <= self.vertices.len(),
                out@ == spec_vertices_bytes(self.vertices@.take(i as int)),
                out@.len() == 16 * i,
            decreases self.vertices.len() - i,
        {
            let v = self.vertices[i];
            push_le4(&mut out, v.x);
            push_le4(&mut out, v.y);
            push_le4(&mut out, v.z);
            push_le4(&mut out, 0);
            proof {
                assert(self.vertices@.take(i + 1).drop_last() =~= self.vertices@.take(i as int));
                assert(out@ =~= spec_vertices_bytes(self.vertices@.take(i + 1)));
            }
            i = i + 1;
        }
        proof {
            assert(self.vertices@.take(self.vertices@.len() as int) =~= self.vertices@);
        }
        out
    }

    /// The index buffer's bytes: 4 per index, little endian.
    pub fn index_bytes(&self) -> (r: Vec<u8>)
        ensures
            r@ == spec_indices_bytes(self.indices@),
            r@.len() == 4 * self.indices@.len(),
    {
        let mut out: Vec<u8> = Vec::new();
        let mut i: usize = 0;
        proof {
            assert(self.indices@.take(0) =~= Seq::<u32>::empty());
        }
        while i < self.indices.len()
            invariant
                i <= self.indices.len(),
                out@ == spec_indices_bytes(self.indices@.take(i as int)),
                out@.len() == 4 * i,
            decreases self.indices.len() - i,
        {
            push_le4(&mut out, self.indices[i]);
            proof {
                assert(self.indices@.take(i + 1).drop_last() =~= self.indices@.take(i as int));
                assert(out@ =~= spec_indices_bytes(self.indices@.take(i + 1)));
            }
            i = i + 1;
        }
        proof {
            assert(self.indices@.take(self.indices@.len() as int) =~= self.indices@);
        }
        out
    }

    /// The offset table's bytes: 8 per row.
    pub fn mesh_info_bytes(&self) -> (r: Vec<u8>)
        ensures
            r@ == spec_mesh_info_bytes(self.mesh_info@),
            r@.len() == crate::layout::MESH_INFO_STRIDE * self.mesh_info@.len(),
    {
        let mut out: Vec<u8> = Vec::new();
        let mut i: usize = 0;
        proof {
            assert(self.mesh_info@.take(0) =~= Seq::<MeshInfo>::empty());
        }
        while i < self.mesh_info.len()
            invariant
                i <= self.mesh_info.len(),
                out@ == spec_mesh_info_bytes(self.mesh_info@.take(i as int)),
                out@.len() == 8 * i,
            decreases self.mesh_info.len() - i,
        {
            let row = self.mesh_info[i];
            push_le4(&mut out, row.vertex_offset);
            push_le4(&mut out, row.index_offset);
            proof {
                assert(self.mesh_info@.take(i + 1).drop_last() =~= self.mesh_info@.take(i as int));
                assert(out@ =~= spec_mesh_info_bytes(self.mesh_info@.take(i + 1)));
            }
            i = i + 1;
        }
        proof {
            assert(self.mesh_info@.take(self.mesh_info@.len() as int) =~= self.mesh_info@);
        }
        out
    }

    /// The material table's bytes: 32 per row, each color padded to a
    /// four-word boundary.
    pub fn colors_bytes(&self) -> (r: Vec<u8>)
        ensures
            r@ == spec_colors_bytes(self.colors@),
            r@.len() == crate::layout::COLORS_STRIDE * self.colors@.len(),
    {
        let mut out: Vec<u8> = Vec::new();
        let mut i: usize = 0;
        proof {
            assert(self.colors@.take(0) =~= Seq::<Colors>::empty());
        }
        while i < self.colors.len()
            invariant
                i <= self.colors.len(),
                out@ == spec_colors_bytes(self.colors@.take(i as int)),
                out@.len() == 32 * i,
            decreases self.colors.len() - i,
        {
            let row = self.colors[i];
            push_le4(&mut out, row.ambient_color.r);
            push_le4(&mut out, row.ambient_color.g);
            push_le4(&mut out, row.ambient_color.b);
            push_le4(&mut out, 0);
            push_le4(&mut out, row.diffuse_color.r);
            push_le4(&mut out, row.diffuse_color.g);
            push_le4(&mut out, row.diffuse_color.b);
            push_le4(&mut out, 0);
            proof {
                assert(self.colors@.take(i + 1).drop_last() =~= self.colors@.take(i as int));
                assert(out@ =~= spec_colors_bytes(self.colors@.take(i + 1)));
            }
            i = i + 1;
        }
        proof {
            assert(self.colors@.take(self.colors@.len() as int) =~= self.colors@);
        }
        out
    }

    /// The scalar-count record's bytes.
    pub fn compute_info_bytes(&self) -> (r: Vec<u8>)
        ensures
            r@ == spec_compute_info_bytes(self.compute_info),
            r@.len() == crate::layout::COMPUTE_INFO_SIZE,
    {
        let mut out: Vec<u8> = Vec::new();
        push_le4(&mut out, self.compute_info.num_meshes);
        push_le4(&mut out, self.compute_info.num_lights);
        proof {
            assert(out@ =~= spec_compute_info_bytes(self.compute_info));
        }
        out
    }
}

// ---------------------------------------------------------------------------
// Lines and tokens of the OBJ and MTL text.
// ---------------------------------------------------------------------------

/// The bytes the parser's tokenizer treats as spaces inside a line: the
/// ASCII whitespace set without the line feed, which ends the line.
pub open spec fn is_sp(b: u8) -> bool {
    b == 9 || b == 11 || b == 12 || b == 13 || b == 32
}

/// How many bytes the line starting at `i` has before its line feed (or
/// the end of the text).
pub open spec fn line_len(s: Seq<u8>, i: int) -> nat
    decreases s.len() - i,
{
    if i < 0 || i >= s.len() || s[i] == 10 {
        0
    } else {
        1 + line_len(s, i + 1)
    }
}

/// The run of space bytes starting at `k`.
pub open spec fn sp_run(l: Seq<u8>, k: int) -> nat
    decreases l.len() - k,
{
    if k < 0 || k >= l.len() || !is_sp(l[k]) {
        0
    } else {
        1 + sp_run(l, k + 1)
    }
}

/// The run of token (non-space) bytes starting at `k`.
pub open spec fn tok_run(l: Seq<u8>, k: int) -> nat
    decreases l.len() - k,
{
    if k < 0 || k >= l.len() || is_sp(l[k]) {
        0
    } else {
        1 + tok_run(l, k + 1)
    }
}

/// The line's first whitespace-separated token; empty when the line is
/// blank.
pub open spec fn first_tok(l: Seq<u8>) -> Seq<u8> {
    let st = sp_run(l, 0) as int;
    l.subrange(st, st + tok_run(l, st) as int)
}

/// How many whitespace-separated tokens start at or after `k`; `in_tok`
/// says whether position `k` continues a token begun before it.
pub open spec fn ntoks(l: Seq<u8>, k: int, in_tok: bool) -> int
    decreases l.len() - k,
{
    if k < 0 || k >= l.len() {
        0
    } else if is_sp(l[k]) {
        ntoks(l, k + 1, false)
    } else {
        (if in_tok {
            0int
        } else {
            1int
        }) + ntoks(l, k + 1, true)
    }
}

/// True when every byte of the line is ASCII. Only then does this byte-level
/// tokenization agree with the parser's, which splits on Unicode whitespace.
pub open spec fn ascii_line(l: Seq<u8>) -> bool {
    forall|k: int| 0 <= k < l.len() ==> l[k] < 128
}

// ---------------------------------------------------------------------------
// The inputs the parser is known not to panic on.
// ---------------------------------------------------------------------------

/// The four MTL color statements whose values the parser reads as float
/// triples: `Ka`, `Kd`, `Ks`, `Ke`.
pub open spec fn color_keyword(t: Seq<u8>) -> bool {
    ||| t == seq![75u8, 97u8]
    ||| t == seq![75u8, 100u8]
    ||| t == seq![75u8, 115u8]
    ||| t == seq![75u8, 101u8]
}

/// One MTL line the parser handles without panicking: ASCII throughout, and
/// a color statement carries at least three fields (on a shorter one whose
/// fields all parse as floats, the parser's fixed-size collect panics).
pub open spec fn mtl_line_safe(l: Seq<u8>) -> bool {
    &&& ascii_line(l)
    &&& color_keyword(first_tok(l)) ==> ntoks(l, 0, false) >= 4
}

/// All lines from position `i` (a line start) on are safe MTL lines.
pub open spec fn mtl_safe_from(s: Seq<u8>, i: int) -> bool
    decreases s.len() - i,
{
    if i < 0 || i >= s.len() {
        true
    } else {
        let ll = line_len(s, i) as int;
        let ok = mtl_line_safe(s.subrange(i, i + ll));
        if i + ll + 1 <= s.len() {
            ok && mtl_safe_from(s, i + ll + 1)
        } else {
            ok
        }
    }
}

/// MTL text the parser is known not to panic on. Lines holding non-ASCII
/// bytes are excluded outright: the parser tokenizes by Unicode whitespace,
/// which this byte-level check does not model.
pub open spec fn mtl_parse_safe(s: Seq<u8>) -> bool {
    mtl_safe_from(s, 0)
}

/// Walk a face line byte by byte, tracking whether `k` continues a token,
/// which slash-separated component of it `k` is in, and how many bytes of
/// that component precede `k`. False when some face reference could drive
/// the parser's texture-coordinate or normal bound arithmetic out of the
/// machine range: a negative second or third component (an out-of-range
/// relative reference wraps hugely), or one beyond nine bytes (the bound
/// checks multiply the reference by two or three, which must stay inside
/// the machine word on every supported width).
pub open spec fn face_scan(
    l: Seq<u8>,
    k: int,
    in_tok: bool,
    comp: int,
    clen: int,
    hvt: bool,
    hvn: bool,
) -> bool
    decreases l.len() - k,
{
    if k < 0 || k >= l.len() {
        true
    } else if is_sp(l[k]) {
        face_scan(l, k + 1, false, 0, 0, hvt, hvn)
    } else if l[k] == 47 {
        face_scan(l, k + 1, true, (if in_tok {
            comp
        } else {
            0int
        }) + 1, 0, hvt, hvn)
    } else {
        let c: int = if in_tok {
            comp
        } else {
            0
        };
        let n: int = if in_tok {
            clen
        } else {
            0
        };
        let bad = (hvt && c == 1 && ((n == 0 && l[k] == 45) || n >= 9)) || (hvn && c == 2 && ((n
            == 0 && l[k] == 45) || n >= 9));
        !bad && face_scan(l, k + 1, true, c, n + 1, hvt, hvn)
    }
}

/// One OBJ line the parser handles without panicking. The face checks only
/// matter where texture-coordinate or normal data exists (`hvt` / `hvn`):
/// without it the parser never touches those references.
pub open spec fn obj_line_safe(l: Seq<u8>, hvt: bool, hvn: bool) -> bool {
    &&& ascii_line(l)
    &&& (first_tok(l) == seq![102u8] || first_tok(l) == seq![108u8]) ==> face_scan(
        l,
        0,
        false,
        0,
        0,
        hvt,
        hvn,
    )
}

/// All lines from position `i` (a line start) on are safe OBJ lines.
pub open spec fn obj_safe_from(s: Seq<u8>, i: int, hvt: bool, hvn: bool) -> bool
    decreases s.len() - i,
{
    if i < 0 || i >= s.len() {
        true
    } else {
        let ll = line_len(s, i) as int;
        let ok = obj_line_safe(s.subrange(i, i + ll), hvt, hvn);
        if i + ll + 1 <= s.len() {
            ok && obj_safe_from(s, i + ll + 1, hvt, hvn)
        } else {
            ok
        }
    }
}

/// Whether some line from `i` on has `t` as its first token.
pub open spec fn has_first_tok_from(s: Seq<u8>, i: int, t: Seq<u8>) -> bool
    decreases s.len() - i,
{
    if i < 0 || i >= s.len() {
        false
    } else {
        let ll = line_len(s, i) as int;
        let here = first_tok(s.subrange(i, i + ll)) == t;
        if i + ll + 1 <= s.len() {
            here || has_first_tok_from(s, i + ll + 1, t)
        } else {
            here
        }
    }
}

/// Whether the OBJ text carries texture-coordinate data.
pub open spec fn obj_has_vt(s: Seq<u8>) -> bool {
    has_first_tok_from(s, 0, seq![118u8, 116u8])
}

/// Whether the OBJ text carries normal data.
pub open spec fn obj_has_vn(s: Seq<u8>) -> bool {
    has_first_tok_from(s, 0, seq![118u8, 110u8])
}

/// OBJ text the parser is known not to panic on. As with MTL text, lines
/// holding non-ASCII bytes are excluded outright.
pub open spec fn obj_parse_safe(s: Seq<u8>) -> bool {
    obj_safe_from(s, 0, obj_has_vt(s), obj_has_vn(s))
}

// ---------------------------------------------------------------------------
// The material libraries an OBJ document references.
// ---------------------------------------------------------------------------

/// The run of bytes before the first plain space (0x20) at or after `k`.
/// The parser cuts a `mtllib` statement's file name at the first plain
/// space only, so this run is tracked separately from `tok_run`.
pub open spec fn nonspace_run(l: Seq<u8>, k: int) -> nat
    decreases l.len() - k,
{
    if k < 0 || k >= l.len() || l[k] == 32 {
        0
    } else {
        1 + nonspace_run(l, k + 1)
    }
}

/// Everything after the line's first plain space; empty when it has none.
pub open spec fn after_first_space(l: Seq<u8>) -> Seq<u8> {
    let p = nonspace_run(l, 0) as int;
    if p >= l.len() {
        Seq::empty()
    } else {
        l.subrange(p + 1, l.len() as int)
    }
}

/// The bytes without their trailing whitespace.
pub open spec fn trim_right(c: Seq<u8>) -> Seq<u8>
    decreases c.len(),
{
    if c.len() > 0 && is_sp(c.last()) {
        trim_right(c.drop_last())
    } else {
        c
    }
}

/// The bytes without surrounding whitespace, as the parser trims a file
/// name.
pub open spec fn trim_sp(c: Seq<u8>) -> Seq<u8> {
    trim_right(c.skip(sp_run(c, 0) as int))
}

/// The file name a `mtllib` line requests: everything after the first
/// plain space, trimmed — exactly the parser's cut, quirks included (a
/// statement with no plain space requests the empty name).
pub open spec fn line_mtllib_name(l: Seq<u8>) -> Option<Seq<u8>> {
    if first_tok(l) == seq![109u8, 116u8, 108u8, 108u8, 105u8, 98u8] {
        Some(trim_sp(after_first_space(l)))
    } else {
        None
    }
}

/// The file names requested by `mtllib` lines from position `i` on, in
/// order.
pub open spec fn mtllib_names_from(s: Seq<u8>, i: int) -> Seq<Seq<u8>>
    decreases s.len() - i,
{
    if i < 0 || i >= s.len() {
        Seq::empty()
    } else {
        let ll = line_len(s, i) as int;
        let here = match line_mtllib_name(s.subrange(i, i + ll)) {
            Some(n) => seq![n],
            None => Seq::<Seq<u8>>::empty(),
        };
        if i + ll + 1 <= s.len() {
            here + mtllib_names_from(s, i + ll + 1)
        } else {
            here
        }
    }
}

/// Every material-library file name the OBJ text references, in statement
/// order.
pub open spec fn spec_mtllib_names(s: Seq<u8>) -> Seq<Seq<u8>> {
    mtllib_names_from(s, 0)
}

/// One material-library document, by the file name the OBJ text references
/// it under and the text read from that file.
pub struct MtlFile {
    pub name: Vec<u8>,
    pub text: Vec<u8>,
}

/// The library as plain values: each file's name and text.
pub open spec fn lib_view(lib: Seq<MtlFile>) -> Seq<(Seq<u8>, Seq<u8>)> {
    lib.map_values(|f: MtlFile| (f.name@, f.text@))
}

/// Every text of the library is safe to hand to the MTL parser.
pub open spec fn lib_safe(lib: Seq<MtlFile>) -> bool {
    forall|i: int| 0 <= i < lib.len() ==> mtl_parse_safe(#[trigger] lib[i].text@)
}

/// The text of the first library entry carrying `name`, from index `i` on.
pub open spec fn find_mtl_from(lib: Seq<MtlFile>, name: Seq<u8>, i: int) -> Option<Seq<u8>>
    decreases lib.len() - i,
{
    if i < 0 || i >= lib.len() {
        None
    } else if lib[i].name@ == name {
        Some(lib[i].text@)
    } else {
        find_mtl_from(lib, name, i + 1)
    }
}

/// Whether two byte strings are equal.
fn bytes_eq(a: &[u8], b: &[u8]) -> (r: bool)
    ensures
        r == (a@ == b@),
{
    if a.len() != b.len() {
        proof {
            assert(a@ != b@);
        }
        return false;
    }
    let mut i: usize = 0;
    while i < a.len()
        invariant
            i <= a.len(),
            a@.len() == b@.len(),
            forall|k: int| 0 <= k < i ==> a@[k] == b@[k],
        decreases a.len() - i,
    {
        if a[i] != b[i] {
            proof {
                assert(a@ != b@);
            }
            return false;
        }
        i = i + 1;
    }
    proof {
        assert(a@ =~= b@);
    }
    true
}

/// The first library entry read from the file `name`, if any.
fn find_mtl<'a>(lib: &'a Vec<MtlFile>, name: &[u8]) -> (r: Option<&'a Vec<u8>>)
    ensures
        match r {
            Some(t) => find_mtl_from(lib@, name@, 0) == Some(t@),
            None => find_mtl_from(lib@, name@, 0) is None,
        },
{
    let mut i: usize = 0;
    while i < lib.len()
        invariant
            i <= lib.len(),
            find_mtl_from(lib@, name@, 0) == find_mtl_from(lib@, name@, i as int),
        decreases lib.len() - i,
    {
        if bytes_eq(lib[i].name.as_slice(), name) {
            return Some(&lib[i].text);
        }
        i = i + 1;
    }
    None
}

// ---------------------------------------------------------------------------
// Scanning the text: executable counterparts of the predicates above.
// ---------------------------------------------------------------------------

/// Whether the byte is line-internal ASCII whitespace.
fn is_space(b: u8) -> (r: bool)
    ensures
        r == is_sp(b),
{
    b == 9 || b == 11 || b == 12 || b == 13 || b == 32
}

/// The end of the line starting at `i`: the position of the next line feed,
/// or the end of the text.
fn line_end_at(s: &[u8], i: usize) -> (j: usize)
    requires
        i <= s@.len(),
    ensures
        i <= j <= s@.len(),
        j - i == line_len(s@, i as int),
        j < s@.len() ==> s@[j as int] == 10,
{
    let n: usize = s.len();
    let mut j: usize = i;
    while j < n && s[j] != 10
        invariant
            i <= j <= n,
            n == s@.len(),
            line_len(s@, i as int) == (j - i) + line_len(s@, j as int),
        decreases n - j,
    {
        j = j + 1;
    }
    j
}

/// Whether every byte of `[i, j)` is ASCII.
fn ascii_range(s: &[u8], i: usize, j: usize) -> (r: bool)
    requires
        i <= j <= s@.len(),
    ensures
        r == ascii_line(s@.subrange(i as int, j as int)),
{
    let ghost l = s@.subrange(i as int, j as int);
    let mut k: usize = i;
    while k < j
        invariant
            i <= k <= j <= s@.len(),
            l == s@.subrange(i as int, j as int),
            forall|m: int| 0 <= m < k - i ==> l[m] < 128,
        decreases j - k,
    {
        if s[k] >= 128 {
            proof {
                assert(l[k - i] == s@[k as int]);
            }
            return false;
        }
        k = k + 1;
    }
    true
}

/// The first token of the line `[i, j)`: `t.0` is its start, `t.1` its end.
#[verifier::loop_isolation(false)]
fn first_tok_range(s: &[u8], i: usize, j: usize) -> (t: (usize, usize))
    requires
        i <= j <= s@.len(),
    ensures
        i <= t.0 <= t.1 <= j,
        ({
            let l = s@.subrange(i as int, j as int);
            &&& t.0 - i == sp_run(l, 0)
            &&& t.1 - t.0 == tok_run(l, t.0 - i)
            &&& first_tok(l) == s@.subrange(t.0 as int, t.1 as int)
        }),
{
    let ghost l = s@.subrange(i as int, j as int);
    let mut k: usize = i;
    while k < j && is_space(s[k])
        invariant
            i <= k <= j,
            sp_run(l, 0) == (k - i) + sp_run(l, k - i),
        decreases j - k,
    {
        proof {
            assert(l[k - i] == s@[k as int]);
        }
        k = k + 1;
    }
    assert(sp_run(l, k - i) == 0);
    let t0: usize = k;
    while k < j && !is_space(s[k])
        invariant
            t0 <= k <= j,
            tok_run(l, t0 - i) == (k - t0) + tok_run(l, k - i),
        decreases j - k,
    {
        proof {
            assert(l[k - i] == s@[k as int]);
        }
        k = k + 1;
    }
    assert(tok_run(l, k - i) == 0);
    proof {
        assert(first_tok(l) =~= s@.subrange(t0 as int, k as int));
    }
    (t0, k)
}

/// How many whitespace-separated tokens the line `[i, j)` has.
fn count_tokens(s: &[u8], i: usize, j: usize) -> (c: usize)
    requires
        i <= j <= s@.len(),
    ensures
        c == ntoks(s@.subrange(i as int, j as int), 0, false),
{
    let ghost l = s@.subrange(i as int, j as int);
    let mut c: usize = 0;
    let mut in_tok: bool = false;
    let mut k: usize = i;
    while k < j
        invariant
            i <= k <= j <= s@.len(),
            c <= k - i,
            l == s@.subrange(i as int, j as int),
            c + ntoks(l, k - i, in_tok) == ntoks(l, 0, false),
        decreases j - k,
    {
        proof {
            assert(l[k - i] == s@[k as int]);
        }
        if is_space(s[k]) {
            in_tok = false;
        } else {
            if !in_tok {
                c = c + 1;
            }
            in_tok = true;
        }
        k = k + 1;
    }
    c
}

/// Run the face-reference scan over the line `[i, j)`.
fn face_scan_range(s: &[u8], i: usize, j: usize, hvt: bool, hvn: bool) -> (r: bool)
    requires
        i <= j <= s@.len(),
    ensures
        r == face_scan(s@.subrange(i as int, j as int), 0, false, 0, 0, hvt, hvn),
{
    let ghost l = s@.subrange(i as int, j as int);
    let mut in_tok: bool = false;
    let mut comp: usize = 0;
    let mut clen: usize = 0;
    let mut k: usize = i;
    while k < j
        invariant
            i <= k <= j <= s@.len(),
            comp <= k - i,
            clen <= k - i,
            l == s@.subrange(i as int, j as int),
            face_scan(l, 0, false, 0, 0, hvt, hvn) == face_scan(
                l,
                k - i,
                in_tok,
                comp as int,
                clen as int,
                hvt,
                hvn,
            ),
        decreases j - k,
    {
        proof {
            assert(l[k - i] == s@[k as int]);
        }
        let b = s[k];
        if is_space(b) {
            in_tok = false;
            comp = 0;
            clen = 0;
        } else if b == 47 {
            comp = if in_tok {
                comp + 1
            } else {
                1
            };
            clen = 0;
            in_tok = true;
        } else {
            let c: usize = if in_tok {
                comp
            } else {
                0
            };
            let n: usize = if in_tok {
                clen
            } else {
                0
            };
            let bad = (hvt && c == 1 && ((n == 0 && b == 45) || n >= 9)) || (hvn && c == 2 && ((n
                == 0 && b == 45) || n >= 9));
            if bad {
                return false;
            }
            comp = c;
            clen = n + 1;
            in_tok = true;
        }
        k = k + 1;
    }
    true
}

/// Whether the MTL text is safe to hand to the parser: no line on which
/// its parsing is unmodelled here (non-ASCII) or panics (a color statement
/// with fewer than three fields).
#[verifier::loop_isolation(false)]
pub fn mtl_safe(mtl: &[u8]) -> (r: bool)
    ensures
        r == mtl_parse_safe(mtl@),
{
    let ghost s = mtl@;
    let n: usize = mtl.len();
    let mut i: usize = 0;
    while i < n
        invariant
            i <= n,
            mtl_safe_from(s, 0) == mtl_safe_from(s, i as int),
        decreases n - i,
    {
        let j = line_end_at(mtl, i);
        let ghost l = s.subrange(i as int, j as int);
        let mut line_ok = ascii_range(mtl, i, j);
        if line_ok {
            let tr = first_tok_range(mtl, i, j);
            let (t0, t1) = tr;
            let kw: bool = t1 - t0 == 2 && mtl[t0] == 75 && (mtl[t0 + 1] == 97 || mtl[t0 + 1]
                == 100 || mtl[t0 + 1] == 115 || mtl[t0 + 1] == 101);
            proof {
                let ft = first_tok(l);
                assert(ft.len() == t1 - t0);
                if t1 - t0 == 2 {
                    assert(ft[0] == s[t0 as int]);
                    assert(ft[1] == s[t0 as int + 1]);
                }
                if kw {
                    if s[t0 as int + 1] == 97 {
                        assert(ft =~= seq![75u8, 97u8]);
                    } else if s[t0 as int + 1] == 100 {
                        assert(ft =~= seq![75u8, 100u8]);
                    } else if s[t0 as int + 1] == 115 {
                        assert(ft =~= seq![75u8, 115u8]);
                    } else {
                        assert(ft =~= seq![75u8, 101u8]);
                    }
                    assert(color_keyword(ft));
                } else {
                    assert(!color_keyword(ft));
                }
            }
            if kw {
                let c = count_tokens(mtl, i, j);
                line_ok = c >= 4;
            }
        }
        if !line_ok {
            assert(!mtl_line_safe(l));
            return false;
        }
        assert(mtl_line_safe(l));
        if j == n {
            return true;
        }
        i = j + 1;
    }
    true
}

/// Whether some line's first token is the two bytes `a`, `b`.
#[verifier::loop_isolation(false)]
fn has_first_tok2(text: &[u8], a: u8, b: u8) -> (r: bool)
    ensures
        r == has_first_tok_from(text@, 0, seq![a, b]),
{
    let ghost s = text@;
    let ghost t = seq![a, b];
    let n: usize = text.len();
    let mut i: usize = 0;
    while i < n
        invariant
            i <= n,
            has_first_tok_from(s, 0, t) == has_first_tok_from(s, i as int, t),
        decreases n - i,
    {
        let j = line_end_at(text, i);
        let ghost l = s.subrange(i as int, j as int);
        let tr = first_tok_range(text, i, j);
        let (t0, t1) = tr;
        let found: bool = t1 - t0 == 2 && text[t0] == a && text[t0 + 1] == b;
        proof {
            let ft = first_tok(l);
            assert(ft.len() == t1 - t0);
            if t1 - t0 == 2 {
                assert(ft[0] == s[t0 as int]);
                assert(ft[1] == s[t0 as int + 1]);
            }
            if found {
                assert(ft =~= t);
            } else {
                assert(ft != t);
            }
        }
        if found {
            return true;
        }
        if j == n {
            return false;
        }
        i = j + 1;
    }
    false
}

/// Whether the OBJ text is safe to hand to the parser: no line on which
/// its parsing is unmodelled here (non-ASCII) or can panic (a face
/// reference that drives the parser's bound arithmetic out of range).
#[verifier::loop_isolation(false)]
pub fn obj_safe(obj: &[u8]) -> (r: bool)
    ensures
        r == obj_parse_safe(obj@),
{
    let ghost s = obj@;
    let hvt = has_first_tok2(obj, 118, 116);
    let hvn = has_first_tok2(obj, 118, 110);
    let n: usize = obj.len();
    let mut i: usize = 0;
    while i < n
        invariant
            i <= n,
            hvt == obj_has_vt(s),
            hvn == obj_has_vn(s),
            obj_safe_from(s, 0, hvt, hvn) == obj_safe_from(s, i as int, hvt, hvn),
        decreases n - i,
    {
        let j = line_end_at(obj, i);
        let ghost l = s.subrange(i as int, j as int);
        let mut line_ok = ascii_range(obj, i, j);
        if line_ok {
            let tr = first_tok_range(obj, i, j);
            let (t0, t1) = tr;
            let fl: bool = t1 - t0 == 1 && (obj[t0] == 102 || obj[t0] == 108);
            proof {
                let ft = first_tok(l);
                assert(ft.len() == t1 - t0);
                if t1 - t0 == 1 {
                    assert(ft[0] == s[t0 as int]);
                }
                if fl {
                    if s[t0 as int] == 102 {
                        assert(ft =~= seq![102u8]);
                    } else {
                        assert(ft =~= seq![108u8]);
                    }
                } else {
                    assert(ft != seq![102u8] && ft != seq![108u8]);
                }
            }
            if fl {
                line_ok = face_scan_range(obj, i, j, hvt, hvn);
            }
        }
        if !line_ok {
            assert(!obj_line_safe(l, hvt, hvn));
            return false;
        }
        assert(obj_line_safe(l, hvt, hvn));
        if j == n {
            return true;
        }
        i = j + 1;
    }
    true
}

/// Every material-library file name the OBJ text references, in statement
/// order, each exactly as the parser requests it: the rest of the line
/// after the first plain space, trimmed of surrounding whitespace (a
/// statement with no plain space requests the empty name). Statements are
/// recognized by ASCII tokenization; `load` rejects text holding non-ASCII
/// lines.
#[verifier::loop_isolation(false)]
pub fn mtllib_names(obj_text: &[u8]) -> (r: Vec<Vec<u8>>)
    ensures
        r@.map_values(|v: Vec<u8>| v@) == spec_mtllib_names(obj_text@),
{
    let ghost s = obj_text@;
    let n: usize = obj_text.len();
    let mut out: Vec<Vec<u8>> = Vec::new();
    let mut i: usize = 0;
    proof {
        assert(out@.map_values(|v: Vec<u8>| v@) =~= Seq::<Seq<u8>>::empty());
    }
    while i < n
        invariant
            i <= n,
            out@.map_values(|v: Vec<u8>| v@) + mtllib_names_from(s, i as int)
                == spec_mtllib_names(s),
        decreases n - i,
    {
        let j = line_end_at(obj_text, i);
        let ghost l = s.subrange(i as int, j as int);
        let tr = first_tok_range(obj_text, i, j);
        let (t0, t1) = tr;
        let is_stmt: bool = t1 - t0 == 6 && obj_text[t0] == 109 && obj_text[t0 + 1] == 116
            && obj_text[t0 + 2] == 108 && obj_text[t0 + 3] == 108 && obj_text[t0 + 4] == 105
            && obj_text[t0 + 5] == 98;
        proof {
            let ft = first_tok(l);
            assert(ft.len() == t1 - t0);
            if t1 - t0 == 6 {
                assert(ft[0] == s[t0 as int]);
                assert(ft[1] == s[t0 as int + 1]);
                assert(ft[2] == s[t0 as int + 2]);
                assert(ft[3] == s[t0 as int + 3]);
                assert(ft[4] == s[t0 as int + 4]);
                assert(ft[5] == s[t0 as int + 5]);
            }
            if is_stmt {
                assert(ft =~= seq![109u8, 116u8, 108u8, 108u8, 105u8, 98u8]);
            } else {
                assert(ft != seq![109u8, 116u8, 108u8, 108u8, 105u8, 98u8]);
            }
        }
        let ghost before = out@.map_values(|v: Vec<u8>| v@);
        let ghost here: Seq<Seq<u8>> = match line_mtllib_name(l) {
            Some(nm) => seq![nm],
            None => Seq::<Seq<u8>>::empty(),
        };
        if is_stmt {
            let mut p: usize = i;
            while p < j && obj_text[p] != 32
                invariant
                    i <= p <= j,
                    nonspace_run(l, 0) == (p - i) + nonspace_run(l, p - i),
                decreases j - p,
            {
                proof {
                    assert(l[p - i] == s[p as int]);
                }
                p = p + 1;
            }
            assert(nonspace_run(l, p - i) == 0);
            let mut name: Vec<u8> = Vec::new();
            if p < j {
                proof {
                    assert(l[p - i] == s[p as int]);
                }
                let ghost c = s.subrange(p as int + 1, j as int);
                proof {
                    assert(after_first_space(l) =~= c);
                }
                let mut a: usize = p + 1;
                while a < j && is_space(obj_text[a])
                    invariant
                        p + 1 <= a <= j,
                        sp_run(c, 0) == (a - p - 1) + sp_run(c, a - p - 1),
                    decreases j - a,
                {
                    proof {
                        assert(c[a - p - 1] == s[a as int]);
                    }
                    a = a + 1;
                }
                assert(sp_run(c, a - p - 1) == 0);
                let ghost c2 = s.subrange(a as int, j as int);
                proof {
                    assert(c.skip(sp_run(c, 0) as int) =~= c2);
                }
                let mut e: usize = j;
                proof {
                    assert(c2.take(j - a) =~= c2);
                }
                while e > a && is_space(obj_text[e - 1])
                    invariant
                        a <= e <= j,
                        trim_right(c2) == trim_right(c2.take(e - a)),
                    decreases e,
                {
                    proof {
                        assert(c2.take(e - a).last() == s[e as int - 1]);
                        assert(c2.take(e - a).drop_last() =~= c2.take(e - a - 1));
                    }
                    e = e - 1;
                }
                proof {
                    if e > a {
                        assert(c2.take(e - a).last() == s[e as int - 1]);
                    }
                    assert(trim_right(c2.take(e - a)) == c2.take(e - a));
                    assert(c2.take(e - a) =~= s.subrange(a as int, e as int));
                }
                let mut k: usize = a;
                proof {
                    assert(name@ =~= s.subrange(a as int, a as int));
                }
                while k < e
                    invariant
                        a <= k <= e,
                        e <= n,
                        name@ == s.subrange(a as int, k as int),
                    decreases e - k,
                {
                    name.push(obj_text[k]);
                    proof {
                        assert(name@ =~= s.subrange(a as int, k as int + 1));
                    }
                    k = k + 1;
                }
                proof {
                    assert(name@ == trim_sp(after_first_space(l)));
                }
            } else {
                proof {
                    assert(after_first_space(l) =~= Seq::<u8>::empty());
                    assert(after_first_space(l).skip(sp_run(after_first_space(l), 0) as int)
                        =~= Seq::<u8>::empty());
                    assert(trim_sp(after_first_space(l)) =~= Seq::<u8>::empty());
                    assert(name@ =~= trim_sp(after_first_space(l)));
                }
            }
            proof {
                assert(line_mtllib_name(l) == Some(name@));
                assert(here =~= seq![name@]);
            }
            let ghost out_old = out@;
            out.push(name);
            proof {
                assert(out@.map_values(|v: Vec<u8>| v@) =~= before.push(name@));
                assert(before.push(name@) =~= before + here);
            }
        } else {
            proof {
                assert(line_mtllib_name(l) is None);
                assert(out@.map_values(|v: Vec<u8>| v@) =~= before + here);
            }
        }
        if j == n {
            proof {
                assert(mtllib_names_from(s, i as int) == here);
                assert(out@.map_values(|v: Vec<u8>| v@) =~= spec_mtllib_names(s));
            }
            return out;
        }
        proof {
            assert(mtllib_names_from(s, i as int) == here + mtllib_names_from(s, j as int + 1));
            assert((before + here) + mtllib_names_from(s, j as int + 1) =~= before + (here
                + mtllib_names_from(s, j as int + 1)));
        }
        i = j + 1;
    }
    proof {
        assert(out@.map_values(|v: Vec<u8>| v@) =~= spec_mtllib_names(s));
    }
    out
}

} // verus!
