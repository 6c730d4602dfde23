//! Resource plan of the physical atmosphere and image-based-lighting
//! environment: the persistent textures it owns, their memory footprint, the
//! mandatory order of the initialization passes, and the physical/fallback
//! mode decision.
//!
//! Every texture is `Rgba16Float`, used as a render attachment while it is
//! generated and as a sampled texture afterwards. Cubemaps are 2D array
//! textures with six layers.

use vstd::prelude::*;

verus! {

/// Transmittance LUT extent.
pub const TRANSMITTANCE_WIDTH: u32 = 256;
pub const TRANSMITTANCE_HEIGHT: u32 = 64;
/// Multi-scattering LUT extent.
pub const MULTI_SCATTERING_WIDTH: u32 = 32;
pub const MULTI_SCATTERING_HEIGHT: u32 = 32;
/// Sky-view LUT extent.
pub const SKY_VIEW_WIDTH: u32 = 256;
pub const SKY_VIEW_HEIGHT: u32 = 128;
/// Environment cube face size and mip count (base level only).
pub const ENVIRONMENT_CUBE_SIZE: u32 = 128;
pub const ENVIRONMENT_CUBE_MIP_COUNT: u32 = 1;
/// Diffuse irradiance cube face size.
pub const IRRADIANCE_CUBE_SIZE: u32 = 32;
/// Prefiltered specular cube face size and its full mip chain.
pub const SPECULAR_CUBE_SIZE: u32 = 128;
pub const SPECULAR_MIP_COUNT: u32 = 8;
/// BRDF integration LUT extent.
pub const BRDF_LUT_WIDTH: u32 = 256;
pub const BRDF_LUT_HEIGHT: u32 = 256;
/// Faces of a cubemap.
pub const CUBE_FACE_COUNT: u32 = 6;
/// `Rgba16Float` is four half-float channels.
pub const RGBA16F_BYTES_PER_TEXEL: u64 = 8;

/// Texel format of a physical atmosphere/IBL resource.
#[derive(Debug, Clone, Copy, PartialEq, Eq, Structural)]
pub enum PhysicalTextureFormat {
    /// Four half-float channels.
    Rgba16Float,
}

/// The texture usages a physical resource may carry, one flag each.
#[derive(Debug, Clone, Copy, PartialEq, Eq, Structural)]
pub struct TextureUsageFlags {
    pub copy_src: bool,
    pub copy_dst: bool,
    pub texture_binding: bool,
    pub storage_binding: bool,
    pub render_attachment: bool,
}

/// The usage set of every physical resource: render target while it is
/// generated, sampled afterwards, never a copy destination or a storage
/// texture.
pub open spec fn physical_usage() -> TextureUsageFlags {
    TextureUsageFlags {
        copy_src: false,
        copy_dst: false,
        texture_binding: true,
        storage_binding: false,
        render_attachment: true,
    }
}

/// Usage set shared by every physical plan entry.
pub fn physical_texture_usage() -> (usage: TextureUsageFlags)
    ensures
        usage == physical_usage(),
{
    TextureUsageFlags {
        copy_src: false,
        copy_dst: false,
        texture_binding: true,
        storage_binding: false,
        render_attachment: true,
    }
}

/// One persistent physical texture of the environment plan. Every plan
/// entry shares the `Rgba16Float` format and the render-attachment plus
/// texture-binding usage set.
#[derive(Debug, Clone, Copy, PartialEq, Eq)]
pub struct PhysicalTexturePlan {
    pub label: &'static str,
    pub width: u32,
    pub height: u32,
    pub depth_or_array_layers: u32,
    pub mip_level_count: u32,
    pub format: PhysicalTextureFormat,
    pub usage: TextureUsageFlags,
    pub cube: bool,
}

/// The extent and layering of a plan entry, without its label.
pub open spec fn plan_shape(plan: PhysicalTexturePlan) -> (u32, u32, u32, u32, bool) {
    (plan.width, plan.height, plan.depth_or_array_layers, plan.mip_level_count, plan.cube)
}

/// The seven plan entries, in generation order, by shape.
pub open spec fn expected_plan_shapes() -> Seq<(u32, u32, u32, u32, bool)> {
    seq![
        (TRANSMITTANCE_WIDTH, TRANSMITTANCE_HEIGHT, 1u32, 1u32, false),
        (MULTI_SCATTERING_WIDTH, MULTI_SCATTERING_HEIGHT, 1u32, 1u32, false),
        (SKY_VIEW_WIDTH, SKY_VIEW_HEIGHT, 1u32, 1u32, false),
        (ENVIRONMENT_CUBE_SIZE, ENVIRONMENT_CUBE_SIZE, CUBE_FACE_COUNT, ENVIRONMENT_CUBE_MIP_COUNT, true),
        (IRRADIANCE_CUBE_SIZE, IRRADIANCE_CUBE_SIZE, CUBE_FACE_COUNT, 1u32, true),
        (SPECULAR_CUBE_SIZE, SPECULAR_CUBE_SIZE, CUBE_FACE_COUNT, SPECULAR_MIP_COUNT, true),
        (BRDF_LUT_WIDTH, BRDF_LUT_HEIGHT, 1u32, 1u32, false),
    ]
}

/// Debug labels of the seven plan entries, in generation order.
pub open spec fn expected_plan_labels() -> Seq<Seq<char>> {
    seq![
        "RV2-5 physical transmittance LUT"@,
        "RV2-5 physical multi-scattering LUT"@,
        "RV2-5 physical sky-view LUT"@,
        "RV2-5 physical environment cube"@,
        "RV2-5 physical diffuse irradiance cube"@,
        "RV2-5 physical prefiltered specular cube"@,
        "RV2-5 physical BRDF integration LUT"@,
    ]
}

/// Deterministic, persistent (never resize-dependent) texture plan.
pub fn physical_texture_plans() -> (plans: [PhysicalTexturePlan; 7])
    ensures
        forall|i: int| 0 <= i < 7 ==> #[trigger] plan_shape(plans@[i]) == expected_plan_shapes()[i],
        forall|i: int| 0 <= i < 7 ==> #[trigger] plans@[i].label@ == expected_plan_labels()[i],
        forall|i: int|
            0 <= i < 7 ==> (#[trigger] plans@[i]).format == PhysicalTextureFormat::Rgba16Float
                && plans@[i].usage == physical_usage(),
{
    let usage = physical_texture_usage();
    let plans = [
        PhysicalTexturePlan {
            label: "RV2-5 physical transmittance LUT",
            width: TRANSMITTANCE_WIDTH,
            height: TRANSMITTANCE_HEIGHT,
            depth_or_array_layers: 1,
            mip_level_count: 1,
            format: PhysicalTextureFormat::Rgba16Float,
            usage,
            cube: false,
        },
        PhysicalTexturePlan {
            label: "RV2-5 physical multi-scattering LUT",
            width: MULTI_SCATTERING_WIDTH,
            height: MULTI_SCATTERING_HEIGHT,
            depth_or_array_layers: 1,
            mip_level_count: 1,
            format: PhysicalTextureFormat::Rgba16Float,
            usage,
            cube: false,
        },
        PhysicalTexturePlan {
            label: "RV2-5 physical sky-view LUT",
            width: SKY_VIEW_WIDTH,
            height: SKY_VIEW_HEIGHT,
            depth_or_array_layers: 1,
            mip_level_count: 1,
            format: PhysicalTextureFormat::Rgba16Float,
            usage,
            cube: false,
        },
        PhysicalTexturePlan {
            label: "RV2-5 physical environment cube",
            width: ENVIRONMENT_CUBE_SIZE,
            height: ENVIRONMENT_CUBE_SIZE,
            depth_or_array_layers: CUBE_FACE_COUNT,
            mip_level_count: ENVIRONMENT_CUBE_MIP_COUNT,
            format: PhysicalTextureFormat::Rgba16Float,
            usage,
            cube: true,
        },
        PhysicalTexturePlan {
            label: "RV2-5 physical diffuse irradiance cube",
            width: IRRADIANCE_CUBE_SIZE,
            height: IRRADIANCE_CUBE_SIZE,
            depth_or_array_layers: CUBE_FACE_COUNT,
            mip_level_count: 1,
            format: PhysicalTextureFormat::Rgba16Float,
            usage,
            cube: true,
        },
        PhysicalTexturePlan {
            label: "RV2-5 physical prefiltered specular cube",
            width: SPECULAR_CUBE_SIZE,
            height: SPECULAR_CUBE_SIZE,
            depth_or_array_layers: CUBE_FACE_COUNT,
            mip_level_count: SPECULAR_MIP_COUNT,
            format: PhysicalTextureFormat::Rgba16Float,
            usage,
            cube: true,
        },
        PhysicalTexturePlan {
            label: "RV2-5 physical BRDF integration LUT",
            width: BRDF_LUT_WIDTH,
            height: BRDF_LUT_HEIGHT,
            depth_or_array_layers: 1,
            mip_level_count: 1,
            format: PhysicalTextureFormat::Rgba16Float,
            usage,
            cube: false,
        },
    ];
    proof {
        assert forall|i: int| 0 <= i < 7 implies #[trigger] plan_shape(plans@[i]) == expected_plan_shapes()[i]
            && plans@[i].label@ == expected_plan_labels()[i] && plans@[i].format == PhysicalTextureFormat::Rgba16Float
            && plans@[i].usage == physical_usage() by {
            if i == 0 {
            } else if i == 1 {
            } else if i == 2 {
            } else if i == 3 {
            } else if i == 4 {
            } else if i == 5 {
            } else {
            }
        }
    }
    plans
}

/// Extent of one axis at a mip level: halved per level, never below one.
pub open spec fn mip_extent(size: u32, mip: nat) -> int {
    let shifted = size as int / vstd::arithmetic::power2::pow2(mip) as int;
    if shifted < 1 {
        1
    } else {
        shifted
    }
}

/// Texels of the first `mips` levels of a `width` x `height` x `layers` texture.
pub open spec fn texels_upto(width: u32, height: u32, layers: u32, mips: nat) -> int
    decreases mips,
{
    if mips == 0 {
        0
    } else {
        texels_upto(width, height, layers, (mips - 1) as nat) + mip_extent(width, (mips - 1) as nat)
            * mip_extent(height, (mips - 1) as nat) * layers
    }
}

/// Bytes of every level of one plan entry.
pub open spec fn plan_bytes(shape: (u32, u32, u32, u32, bool)) -> int {
    texels_upto(shape.0, shape.1, shape.2, shape.3 as nat) * RGBA16F_BYTES_PER_TEXEL
}

/// Bytes of the first `count` plan entries.
pub open spec fn plans_bytes(shapes: Seq<(u32, u32, u32, u32, bool)>, count: int) -> int
    decreases count,
{
    if count <= 0 {
        0
    } else {
        plans_bytes(shapes, count - 1) + plan_bytes(shapes[count - 1])
    }
}

/// `size >> mip` is the halving of `size`, `mip` times.
proof fn lemma_shift_is_division(size: u32, mip: u32)
    requires
        mip < 32,
    ensures
        (size >> mip) as int == size as int / vstd::arithmetic::power2::pow2(mip as nat) as int,
{
    vstd::bits::lemma_u32_shr_is_div(size, mip);
    vstd::arithmetic::power2::lemma_pow2(mip as nat);
}

/// Texel count of every level of one texture of the plan.
fn texture_texels(width: u32, height: u32, layers: u32, mip_level_count: u32) -> (texels: u64)
    requires
        mip_level_count <= 8,
        width <= 4096,
        height <= 4096,
        layers <= 6,
    ensures
        texels == texels_upto(width, height, layers, mip_level_count as nat),
{
    let mut texels: u64 = 0;
    let mut mip: u32 = 0;
    while mip < mip_level_count
        invariant
            mip <= mip_level_count <= 8,
            width <= 4096,
            height <= 4096,
            layers <= 6,
            texels == texels_upto(width, height, layers, mip as nat),
            texels <= mip as int * 4096 * 4096 * 6,
        decreases mip_level_count - mip,
    {
        proof {
            lemma_shift_is_division(width, mip);
            lemma_shift_is_division(height, mip);
        }
        let shifted_width = width >> mip;
        let shifted_height = height >> mip;
        let level_width: u64 = if shifted_width < 1 { 1 } else { shifted_width as u64 };
        let level_height: u64 = if shifted_height < 1 { 1 } else { shifted_height as u64 };
        proof {
            assert(level_width <= 4096) by {
                vstd::arithmetic::power2::lemma_pow2_pos(mip as nat);
                vstd::arithmetic::div_mod::lemma_div_is_ordered_by_denominator(
                    width as int,
                    1,
                    vstd::arithmetic::power2::pow2(mip as nat) as int,
                );
            }
            assert(level_height <= 4096) by {
                vstd::arithmetic::power2::lemma_pow2_pos(mip as nat);
                vstd::arithmetic::div_mod::lemma_div_is_ordered_by_denominator(
                    height as int,
                    1,
                    vstd::arithmetic::power2::pow2(mip as nat) as int,
                );
            }
            assert(level_width * level_height <= 4096 * 4096) by (nonlinear_arith)
                requires
                    level_width <= 4096,
                    level_height <= 4096,
            ;
            assert(level_width * level_height * layers <= 4096 * 4096 * 6) by (nonlinear_arith)
                requires
                    level_width * level_height <= 4096 * 4096,
                    layers <= 6,
            ;
        }
        texels = texels + level_width * level_height * layers as u64;
        mip += 1;
    }
    texels
}

/// Total texel footprint of the physical environment resources, in bytes:
/// the environment cube's base level and all eight prefiltered specular mips.
pub fn physical_environment_bytes() -> (bytes: u64)
    ensures
        bytes == plans_bytes(expected_plan_shapes(), 7),
{
    let plans = physical_texture_plans();
    let mut total: u64 = 0;
    let mut index: usize = 0;
    while index < 7
        invariant
            index <= 7,
            forall|i: int| 0 <= i < 7 ==> #[trigger] plan_shape(plans@[i]) == expected_plan_shapes()[i],
            total == plans_bytes(expected_plan_shapes(), index as int),
            total <= index as int * 8 * 8 * 4096 * 4096 * 6,
        decreases 7 - index,
    {
        let plan = plans[index];
        proof {
            assert(plan_shape(plans@[index as int]) == expected_plan_shapes()[index as int]);
        }
        let texels = texture_texels(plan.width, plan.height, plan.depth_or_array_layers, plan.mip_level_count);
        proof {
            lemma_texels_bound(plan.width, plan.height, plan.depth_or_array_layers, plan.mip_level_count as nat);
        }
        total = total + texels * RGBA16F_BYTES_PER_TEXEL;
        index += 1;
    }
    total
}

proof fn lemma_texels_bound(width: u32, height: u32, layers: u32, mips: nat)
    requires
        width <= 4096,
        height <= 4096,
        layers <= 6,
        mips <= 8,
    ensures
        0 <= texels_upto(width, height, layers, mips) <= mips * 4096 * 4096 * 6,
    decreases mips,
{
    if mips > 0 {
        lemma_texels_bound(width, height, layers, (mips - 1) as nat);
        let m = (mips - 1) as nat;
        vstd::arithmetic::power2::lemma_pow2_pos(m);
        let w = mip_extent(width, m);
        let h = mip_extent(height, m);
        assert(1 <= w <= 4096) by {
            vstd::arithmetic::div_mod::lemma_div_is_ordered_by_denominator(
                width as int,
                1,
                vstd::arithmetic::power2::pow2(m) as int,
            );
        }
        assert(1 <= h <= 4096) by {
            vstd::arithmetic::div_mod::lemma_div_is_ordered_by_denominator(
                height as int,
                1,
                vstd::arithmetic::power2::pow2(m) as int,
            );
        }
        assert(0 <= w * h * layers <= 4096 * 4096 * 6) by (nonlinear_arith)
            requires
                1 <= w <= 4096,
                1 <= h <= 4096,
                layers <= 6,
        ;
    }
}

/// Ordered GPU initialization passes recorded into the single command encoder.
#[derive(Debug, Clone, Copy, PartialEq, Eq, Structural)]
pub enum InitializationPass {
    TransmittanceLut,
    MultiScatteringLut,
    SkyViewLut,
    EnvironmentCube,
    DiffuseIrradianceCube,
    PrefilteredSpecularCube,
    BrdfIntegrationLut,
}

/// Mandatory generation order; each entry depends only on earlier entries.
pub const INITIALIZATION_PASSES: [InitializationPass; 7] = [
    InitializationPass::TransmittanceLut,
    InitializationPass::MultiScatteringLut,
    InitializationPass::SkyViewLut,
    InitializationPass::EnvironmentCube,
    InitializationPass::DiffuseIrradianceCube,
    InitializationPass::PrefilteredSpecularCube,
    InitializationPass::BrdfIntegrationLut,
];

/// Debug label of the render passes that fill a resource.
pub open spec fn initialization_pass_label(pass: InitializationPass) -> Seq<char> {
    match pass {
        InitializationPass::TransmittanceLut => "RV2-5 transmittance LUT pass"@,
        InitializationPass::MultiScatteringLut => "RV2-5 multi-scattering LUT pass"@,
        InitializationPass::SkyViewLut => "RV2-5 sky-view LUT pass"@,
        InitializationPass::EnvironmentCube => "RV2-5 environment cube face pass"@,
        InitializationPass::DiffuseIrradianceCube => "RV2-5 diffuse irradiance cube face pass"@,
        InitializationPass::PrefilteredSpecularCube => "RV2-5 prefiltered specular cube face pass"@,
        InitializationPass::BrdfIntegrationLut => "RV2-5 BRDF integration LUT pass"@,
    }
}

impl InitializationPass {
    /// Debug label of the render passes that fill this resource.
    pub fn label(self) -> (label: &'static str)
        ensures
            label@ == initialization_pass_label(self),
    {
        match self {
            InitializationPass::TransmittanceLut => "RV2-5 transmittance LUT pass",
            InitializationPass::MultiScatteringLut => "RV2-5 multi-scattering LUT pass",
            InitializationPass::SkyViewLut => "RV2-5 sky-view LUT pass",
            InitializationPass::EnvironmentCube => "RV2-5 environment cube face pass",
            InitializationPass::DiffuseIrradianceCube => "RV2-5 diffuse irradiance cube face pass",
            InitializationPass::PrefilteredSpecularCube => "RV2-5 prefiltered specular cube face pass",
            InitializationPass::BrdfIntegrationLut => "RV2-5 BRDF integration LUT pass",
        }
    }
}

/// One render pass of the initialization encoder: the resource it fills,
/// the mip and cube face it renders into, and the index of that face view
/// among the resource's render views (`mip * 6 + face`; zero for a LUT).
#[derive(Debug, Clone, Copy, PartialEq, Eq, Structural)]
pub struct InitializationStep {
    pub pass: InitializationPass,
    pub mip: u32,
    pub face: u32,
    pub view_index: u32,
}

/// The step that renders `pass` into face `face` of mip `mip`.
pub open spec fn step_of(pass: InitializationPass, mip: int, face: int) -> InitializationStep {
    InitializationStep {
        pass,
        mip: mip as u32,
        face: face as u32,
        view_index: (mip * CUBE_FACE_COUNT + face) as u32,
    }
}

/// Render passes of the initialization encoder.
pub open spec fn initialization_step_count() -> int {
    3 + 2 * CUBE_FACE_COUNT + SPECULAR_MIP_COUNT * CUBE_FACE_COUNT + 1
}

/// Step `i` of the initialization encoder: the three LUTs, the six
/// environment-cube faces, the six irradiance faces, every face of every
/// prefiltered-specular mip (mip-major), then the BRDF LUT.
pub open spec fn initialization_step(i: int) -> InitializationStep {
    if i == 0 {
        step_of(InitializationPass::TransmittanceLut, 0, 0)
    } else if i == 1 {
        step_of(InitializationPass::MultiScatteringLut, 0, 0)
    } else if i == 2 {
        step_of(InitializationPass::SkyViewLut, 0, 0)
    } else if i < 3 + CUBE_FACE_COUNT {
        step_of(InitializationPass::EnvironmentCube, 0, i - 3)
    } else if i < 3 + 2 * CUBE_FACE_COUNT {
        step_of(InitializationPass::DiffuseIrradianceCube, 0, i - 3 - CUBE_FACE_COUNT)
    } else if i < initialization_step_count() - 1 {
        step_of(
            InitializationPass::PrefilteredSpecularCube,
            (i - 3 - 2 * CUBE_FACE_COUNT) / (CUBE_FACE_COUNT as int),
            (i - 3 - 2 * CUBE_FACE_COUNT) % (CUBE_FACE_COUNT as int),
        )
    } else {
        step_of(InitializationPass::BrdfIntegrationLut, 0, 0)
    }
}

/// Cube faces that a resource's render passes cover: six for a cube, one
/// for a LUT.
pub open spec fn pass_faces(pass: InitializationPass) -> int {
    match pass {
        InitializationPass::EnvironmentCube
        | InitializationPass::DiffuseIrradianceCube
        | InitializationPass::PrefilteredSpecularCube => CUBE_FACE_COUNT as int,
        _ => 1,
    }
}

/// Mip levels that a resource's render passes fill.
pub open spec fn pass_mips(pass: InitializationPass) -> int {
    match pass {
        InitializationPass::PrefilteredSpecularCube => SPECULAR_MIP_COUNT as int,
        _ => 1,
    }
}

/// Where step `i` of the prefiltered-specular run sits: mip `(i - 15) / 6`,
/// face `(i - 15) % 6`.
proof fn lemma_specular_position(i: int)
    requires
        15 <= i < 63,
    ensures
        0 <= (i - 15) / 6 < 8,
        0 <= (i - 15) % 6 < 6,
        ((i - 15) / 6) * 6 + (i - 15) % 6 == i - 15,
{
    let k = i - 15;
    assert(k / 6 < 8 && k % 6 < 6 && (k / 6) * 6 + k % 6 == k && k / 6 >= 0 && k % 6 >= 0) by (nonlinear_arith)
        requires
            0 <= k < 48,
    ;
}

/// Every initialization step renders into the view of its own mip and face,
/// `mip * 6 + face`, within the faces and mips of the resource it fills.
pub proof fn law_initialization_step_renders_its_own_face_view(i: int)
    requires
        0 <= i < initialization_step_count(),
    ensures
        ({
            let step = initialization_step(i);
            &&& step.view_index == step.mip * CUBE_FACE_COUNT + step.face
            &&& step.face < pass_faces(step.pass)
            &&& step.mip < pass_mips(step.pass)
        }),
{
    if 15 <= i < 63 {
        lemma_specular_position(i);
    }
}

/// Two steps that fill the same resource never render into the same view.
pub proof fn law_initialization_steps_of_a_resource_use_distinct_views(i: int, j: int)
    requires
        0 <= i < initialization_step_count(),
        0 <= j < initialization_step_count(),
        i != j,
        initialization_step(i).pass == initialization_step(j).pass,
    ensures
        initialization_step(i).view_index != initialization_step(j).view_index,
{
    if 15 <= i < 63 && 15 <= j < 63 {
        lemma_specular_position(i);
        lemma_specular_position(j);
    }
}

/// Every face of every mip of each resource is rendered by some step.
pub proof fn law_initialization_steps_cover_every_face_view(pass: InitializationPass, mip: int, face: int)
    requires
        0 <= mip < pass_mips(pass),
        0 <= face < pass_faces(pass),
    ensures
        exists|i: int|
            0 <= i < initialization_step_count() && #[trigger] initialization_step(i) == (InitializationStep {
                pass,
                mip: mip as u32,
                face: face as u32,
                view_index: (mip * CUBE_FACE_COUNT + face) as u32,
            }),
{
    let i = match pass {
        InitializationPass::TransmittanceLut => 0,
        InitializationPass::MultiScatteringLut => 1,
        InitializationPass::SkyViewLut => 2,
        InitializationPass::EnvironmentCube => 3 + face,
        InitializationPass::DiffuseIrradianceCube => 9 + face,
        InitializationPass::PrefilteredSpecularCube => 15 + mip * 6 + face,
        InitializationPass::BrdfIntegrationLut => 63,
    };
    if pass == InitializationPass::PrefilteredSpecularCube {
        assert(15 <= i < 63) by (nonlinear_arith)
            requires
                i == 15 + mip * 6 + face,
                0 <= mip < 8,
                0 <= face < 6,
        ;
        lemma_specular_position(i);
        assert((i - 15) / 6 == mip && (i - 15) % 6 == face) by (nonlinear_arith)
            requires
                i - 15 == mip * 6 + face,
                ((i - 15) / 6) * 6 + (i - 15) % 6 == i - 15,
                0 <= (i - 15) % 6 < 6,
                0 <= face < 6,
        ;
    }
    assert(initialization_step(i) == (InitializationStep {
        pass,
        mip: mip as u32,
        face: face as u32,
        view_index: (mip * CUBE_FACE_COUNT + face) as u32,
    }));
}

/// Position of a resource in the mandatory generation order.
pub open spec fn generation_rank(pass: InitializationPass) -> int {
    match pass {
        InitializationPass::TransmittanceLut => 0,
        InitializationPass::MultiScatteringLut => 1,
        InitializationPass::SkyViewLut => 2,
        InitializationPass::EnvironmentCube => 3,
        InitializationPass::DiffuseIrradianceCube => 4,
        InitializationPass::PrefilteredSpecularCube => 5,
        InitializationPass::BrdfIntegrationLut => 6,
    }
}

/// Steps are recorded resource by resource in the mandatory generation
/// order, and within a resource in increasing view order (mip-major, then
/// face).
pub proof fn law_initialization_steps_follow_the_generation_order(i: int, j: int)
    requires
        0 <= i < j < initialization_step_count(),
    ensures
        generation_rank(initialization_step(i).pass) <= generation_rank(initialization_step(j).pass),
        initialization_step(i).pass == initialization_step(j).pass ==> initialization_step(i).view_index
            < initialization_step(j).view_index,
{
    if 15 <= i < 63 {
        lemma_specular_position(i);
    }
    if 15 <= j < 63 {
        lemma_specular_position(j);
    }
}

/// Every render pass of the single initialization encoder, in recording order.
pub fn initialization_steps() -> (steps: Vec<InitializationStep>)
    ensures
        steps@.len() == initialization_step_count(),
        forall|i: int| 0 <= i < steps@.len() ==> #[trigger] steps@[i] == initialization_step(i),
        forall|i: int|
            0 <= i < steps@.len() ==> (#[trigger] steps@[i]).view_index == steps@[i].mip * CUBE_FACE_COUNT
                + steps@[i].face,
{
    let mut steps: Vec<InitializationStep> = Vec::new();
    steps.push(InitializationStep { pass: InitializationPass::TransmittanceLut, mip: 0, face: 0, view_index: 0 });
    steps.push(InitializationStep { pass: InitializationPass::MultiScatteringLut, mip: 0, face: 0, view_index: 0 });
    steps.push(InitializationStep { pass: InitializationPass::SkyViewLut, mip: 0, face: 0, view_index: 0 });
    let mut face: u32 = 0;
    while face < CUBE_FACE_COUNT
        invariant
            face <= CUBE_FACE_COUNT,
            steps@.len() == 3 + face,
            forall|i: int| 0 <= i < steps@.len() ==> #[trigger] steps@[i] == initialization_step(i),
        decreases CUBE_FACE_COUNT - face,
    {
        steps.push(InitializationStep { pass: InitializationPass::EnvironmentCube, mip: 0, face, view_index: face });
        face += 1;
    }
    let mut face: u32 = 0;
    while face < CUBE_FACE_COUNT
        invariant
            face <= CUBE_FACE_COUNT,
            steps@.len() == 3 + CUBE_FACE_COUNT + face,
            forall|i: int| 0 <= i < steps@.len() ==> #[trigger] steps@[i] == initialization_step(i),
        decreases CUBE_FACE_COUNT - face,
    {
        steps.push(
            InitializationStep { pass: InitializationPass::DiffuseIrradianceCube, mip: 0, face, view_index: face },
        );
        face += 1;
    }
    let mut mip: u32 = 0;
    while mip < SPECULAR_MIP_COUNT
        invariant
            mip <= SPECULAR_MIP_COUNT,
            steps@.len() == 3 + 2 * CUBE_FACE_COUNT + mip * CUBE_FACE_COUNT,
            forall|i: int| 0 <= i < steps@.len() ==> #[trigger] steps@[i] == initialization_step(i),
        decreases SPECULAR_MIP_COUNT - mip,
    {
        let mut face: u32 = 0;
        while face < CUBE_FACE_COUNT
            invariant
                mip < SPECULAR_MIP_COUNT,
                face <= CUBE_FACE_COUNT,
                steps@.len() == 3 + 2 * CUBE_FACE_COUNT + mip * CUBE_FACE_COUNT + face,
                forall|i: int| 0 <= i < steps@.len() ==> #[trigger] steps@[i] == initialization_step(i),
            decreases CUBE_FACE_COUNT - face,
        {
            let ghost index = steps@.len() - 3 - 2 * CUBE_FACE_COUNT;
            proof {
                assert(index == mip * 6 + face);
                assert(index / 6 == mip as int && index % 6 == face as int) by (nonlinear_arith)
                    requires
                        index == mip * 6 + face,
                        0 <= face < 6,
                        0 <= mip,
                ;
            }
            steps.push(
                InitializationStep {
                    pass: InitializationPass::PrefilteredSpecularCube,
                    mip,
                    face,
                    view_index: mip * CUBE_FACE_COUNT + face,
                },
            );
            face += 1;
        }
        mip += 1;
    }
    steps.push(InitializationStep { pass: InitializationPass::BrdfIntegrationLut, mip: 0, face: 0, view_index: 0 });
    proof {
        assert forall|i: int| 0 <= i < steps@.len() implies (#[trigger] steps@[i]).view_index == steps@[i].mip
            * CUBE_FACE_COUNT + steps@[i].face by {
            law_initialization_step_renders_its_own_face_view(i);
        }
    }
    steps
}

/// Explicit physical/fallback selection for the V2 environment.
#[derive(Debug, Clone, Copy, PartialEq, Eq, Structural)]
pub enum V2EnvironmentMode {
    Physical,
    AnalyticalFallback,
}

impl V2EnvironmentMode {
    /// Decide the mode from the V2 policy flag and the device-legal capability
    /// probe: physical only when both allow it.
    pub fn select(v2_feature_policy: bool, device_legal_support: bool) -> (mode: Self)
        ensures
            (mode == V2EnvironmentMode::Physical) == (v2_feature_policy && device_legal_support),
    {
        if v2_feature_policy && device_legal_support {
            V2EnvironmentMode::Physical
        } else {
            V2EnvironmentMode::AnalyticalFallback
        }
    }
}

} // verus!
