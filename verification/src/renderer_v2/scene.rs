//! Deduplicated rigid-GLB GPU scene plan.
//!
//! The loader remains the scene-graph authority: the plan consumes its
//! deterministic mesh and instance lists without repeating traversal. Geometry
//! exists once per mesh primitive regardless of how many scene nodes instance
//! it; each instance is one 112-byte entry of the persistent instance buffer,
//! in the loader's traversal order.

use vstd::prelude::*;

verus! {

/// Bytes of one GPU scene instance: seven `vec4<f32>` columns (four model
/// matrix columns and three normal matrix columns).
pub const GPU_SCENE_INSTANCE_BYTES: usize = 112;

/// How the presented aircraft was built.
#[derive(Debug, Clone, Copy, PartialEq, Eq, Structural)]
pub enum PresentationKind {
    RigidGlb,
    ArticulatedGlb,
    Procedural,
}

/// Which scene path draws the aircraft.
#[derive(Debug, Clone, Copy, PartialEq, Eq, Structural)]
pub enum ScenePath {
    LegacyFlat,
    V2Instanced,
}

/// Only a rigid GLB under the V2 renderer uses the instanced path.
pub fn select_scene_path(is_v2: bool, kind: PresentationKind) -> (path: ScenePath)
    ensures
        (path == ScenePath::V2Instanced) == (is_v2 && kind == PresentationKind::RigidGlb),
{
    match (is_v2, kind) {
        (true, PresentationKind::RigidGlb) => ScenePath::V2Instanced,
        _ => ScenePath::LegacyFlat,
    }
}

/// One unique mesh of a loaded scene, by the number of its primitives.
#[derive(Debug, Clone, Copy, PartialEq, Eq, Structural)]
pub struct SceneMesh {
    pub primitive_count: usize,
}

/// One scene-node instance of a mesh, with its world transform `T`.
#[derive(Debug, Clone, Copy, PartialEq)]
pub struct SceneInstance<T> {
    pub node_index: usize,
    pub mesh_index: usize,
    pub world_transform: T,
}

/// What the plan reads of a loaded rigid scene.
#[derive(Debug, Clone, PartialEq)]
pub struct SceneAsset<T> {
    pub meshes: Vec<SceneMesh>,
    pub instances: Vec<SceneInstance<T>>,
}

/// Immutable diagnostics of one uploaded rigid scene.
#[derive(Debug, Clone, Copy, PartialEq, Eq, Structural)]
pub struct GpuSceneStats {
    pub unique_mesh_count: usize,
    pub primitive_count: usize,
    pub scene_instance_count: usize,
    pub instance_buffer_bytes: u64,
    pub draw_count: usize,
}

/// One deterministic scene-traversal record: `mesh_index` addresses a unique
/// upload definition, `instance_index` the persistent instance buffer.
#[derive(Debug, Clone, Copy, PartialEq)]
pub struct SceneInstanceRecord<T> {
    pub node_index: usize,
    pub mesh_index: usize,
    pub instance_index: u32,
    pub world_transform: T,
}

/// CPU-side upload plan, independent of the GPU.
#[derive(Debug, Clone, PartialEq)]
pub struct GpuScenePlan<T> {
    pub mesh_primitive_counts: Vec<usize>,
    pub instances: Vec<SceneInstanceRecord<T>>,
    pub stats: GpuSceneStats,
}

/// Primitives of the first `n` meshes.
pub open spec fn primitive_total(meshes: Seq<SceneMesh>, n: int) -> int
    decreases n,
{
    if n <= 0 {
        0
    } else {
        primitive_total(meshes, n - 1) + meshes[n - 1].primitive_count
    }
}

/// Draw calls of the first `n` instances: one per primitive of each
/// instance's mesh.
pub open spec fn draw_total<T>(meshes: Seq<SceneMesh>, instances: Seq<SceneInstance<T>>, n: int) -> int
    decreases n,
{
    if n <= 0 {
        0
    } else {
        draw_total(meshes, instances, n - 1) + meshes[instances[n - 1].mesh_index as int].primitive_count
    }
}

/// The record of the `i`-th instance.
pub open spec fn spec_record<T>(instance: SceneInstance<T>, i: int) -> SceneInstanceRecord<T> {
    SceneInstanceRecord {
        node_index: instance.node_index,
        mesh_index: instance.mesh_index,
        instance_index: i as u32,
        world_transform: instance.world_transform,
    }
}

/// The loaded scene can be planned: every instance names a loaded mesh and
/// the totals fit the counters.
pub open spec fn plannable<T>(asset: SceneAsset<T>) -> bool {
    &&& forall|i: int| 0 <= i < asset.instances@.len() ==> #[trigger] asset.instances@[i].mesh_index
        < asset.meshes@.len()
    &&& primitive_total(asset.meshes@, asset.meshes@.len() as int) <= usize::MAX
    &&& draw_total(asset.meshes@, asset.instances@, asset.instances@.len() as int) <= usize::MAX
    &&& asset.instances@.len() * GPU_SCENE_INSTANCE_BYTES <= usize::MAX
}

proof fn lemma_primitive_total_monotone(meshes: Seq<SceneMesh>, m: int, n: int)
    requires
        0 <= m <= n,
    ensures
        primitive_total(meshes, m) <= primitive_total(meshes, n),
    decreases n - m,
{
    if m < n {
        lemma_primitive_total_monotone(meshes, m, n - 1);
    }
}

proof fn lemma_draw_total_monotone<T>(meshes: Seq<SceneMesh>, instances: Seq<SceneInstance<T>>, m: int, n: int)
    requires
        0 <= m <= n,
    ensures
        draw_total(meshes, instances, m) <= draw_total(meshes, instances, n),
    decreases n - m,
{
    if m < n {
        lemma_draw_total_monotone(meshes, instances, m, n - 1);
    }
}

impl<T: Copy> GpuScenePlan<T> {
    /// Plan the upload of a loaded rigid scene: one definition per unique
    /// mesh, one record per instance in traversal order, and the totals.
    pub fn from_asset(asset: &SceneAsset<T>) -> (plan: Self)
        requires
            plannable(*asset),
        ensures
            plan.mesh_primitive_counts@.len() == asset.meshes@.len(),
            forall|m: int| 0 <= m < asset.meshes@.len() ==> #[trigger] plan.mesh_primitive_counts@[m]
                == asset.meshes@[m].primitive_count,
            plan.instances@.len() == asset.instances@.len(),
            forall|i: int| 0 <= i < asset.instances@.len() ==> #[trigger] plan.instances@[i] == spec_record(
                asset.instances@[i],
                i,
            ),
            plan.stats == (GpuSceneStats {
                unique_mesh_count: asset.meshes@.len() as usize,
                primitive_count: primitive_total(asset.meshes@, asset.meshes@.len() as int) as usize,
                scene_instance_count: asset.instances@.len() as usize,
                instance_buffer_bytes: (asset.instances@.len() * GPU_SCENE_INSTANCE_BYTES) as u64,
                draw_count: draw_total(asset.meshes@, asset.instances@, asset.instances@.len() as int) as usize,
            }),
    {
        let mut mesh_primitive_counts: Vec<usize> = Vec::new();
        let mut primitive_count: usize = 0;
        let mut m: usize = 0;
        while m < asset.meshes.len()
            invariant
                m <= asset.meshes@.len(),
                plannable(*asset),
                mesh_primitive_counts@.len() == m,
                forall|k: int| 0 <= k < m ==> #[trigger] mesh_primitive_counts@[k] == asset.meshes@[k].primitive_count,
                primitive_count == primitive_total(asset.meshes@, m as int),
            decreases asset.meshes@.len() - m,
        {
            proof {
                lemma_primitive_total_monotone(asset.meshes@, m as int + 1, asset.meshes@.len() as int);
            }
            let count = asset.meshes[m].primitive_count;
            mesh_primitive_counts.push(count);
            primitive_count = primitive_count + count;
            m += 1;
        }
        let mut instances: Vec<SceneInstanceRecord<T>> = Vec::new();
        let mut draw_count: usize = 0;
        let mut i: usize = 0;
        while i < asset.instances.len()
            invariant
                i <= asset.instances@.len(),
                plannable(*asset),
                mesh_primitive_counts@.len() == asset.meshes@.len(),
                forall|k: int| 0 <= k < asset.meshes@.len() ==> #[trigger] mesh_primitive_counts@[k]
                    == asset.meshes@[k].primitive_count,
                instances@.len() == i,
                forall|k: int| 0 <= k < i ==> #[trigger] instances@[k] == spec_record(asset.instances@[k], k),
                draw_count == draw_total(asset.meshes@, asset.instances@, i as int),
            decreases asset.instances@.len() - i,
        {
            proof {
                lemma_draw_total_monotone(asset.meshes@, asset.instances@, i as int + 1, asset.instances@.len() as int);
            }
            let instance = asset.instances[i];
            assert(instance.mesh_index < asset.meshes@.len());
            instances.push(
                SceneInstanceRecord {
                    node_index: instance.node_index,
                    mesh_index: instance.mesh_index,
                    instance_index: i as u32,
                    world_transform: instance.world_transform,
                },
            );
            draw_count = draw_count + mesh_primitive_counts[instance.mesh_index];
            i += 1;
        }
        let instance_count = instances.len();
        let stats = GpuSceneStats {
            unique_mesh_count: mesh_primitive_counts.len(),
            primitive_count,
            scene_instance_count: instance_count,
            instance_buffer_bytes: (instance_count * GPU_SCENE_INSTANCE_BYTES) as u64,
            draw_count,
        };
        GpuScenePlan { mesh_primitive_counts, instances, stats }
    }
}

/// The instance-buffer range drawn for one record: exactly its own entry.
pub fn instance_range<T>(instance: &SceneInstanceRecord<T>) -> (range: (u32, u32))
    requires
        instance.instance_index < u32::MAX,
    ensures
        range == (instance.instance_index, (instance.instance_index + 1) as u32),
{
    (instance.instance_index, instance.instance_index + 1)
}

} // verus!
