//! Plain-data facts of one explicitly requested runtime visual audit, and the
//! decisions that map the renderer's runtime state onto them.
//!
//! Values that the runtime cannot provide are reported as absent together
//! with a reason, never as zero.

use vstd::prelude::*;

use crate::renderer_v2::atmosphere::V2EnvironmentMode;
use crate::shadow::SHADOW_CASCADE_COUNT;
use crate::vegetation::{VegetationDebugMode, VegetationFrameStats, debug_mode_label};

verus! {

/// Version of the audit schema.
pub const SCHEMA_VERSION: &'static str = "1.0.0";

/// Which presentation frame, at which framebuffer size, by which renderer.
#[derive(Debug, Clone, PartialEq, Eq)]
pub struct RuntimeVisualAuditIdentity {
    pub presentation_frame_index: u64,
    pub framebuffer_width: u32,
    pub framebuffer_height: u32,
    pub renderer_version: &'static str,
}

/// The adapter the frame was rendered on, as reported by the device.
#[derive(Debug, Clone, PartialEq, Eq)]
pub struct RuntimeVisualAuditDevice {
    pub adapter_name: String,
    pub backend: String,
    pub driver: String,
    pub driver_info: String,
}

/// Environment path actually in use.
#[derive(Debug, Clone, PartialEq, Eq)]
pub struct RuntimeVisualAuditEnvironment {
    pub environment_mode: &'static str,
    pub physical_atmosphere_active: bool,
    pub physical_ibl_active: bool,
    pub aerial_perspective_active: bool,
}

/// Vegetation presentation facts; `stats` is absent when no vegetation is loaded.
#[derive(Debug, Clone, PartialEq, Eq)]
pub struct RuntimeVisualAuditVegetation {
    pub vegetation_present: bool,
    pub debug_mode: &'static str,
    pub stats: Option<RuntimeVisualAuditVegetationStats>,
}

/// Frame counters of the vegetation pass as the audit reports them.
#[derive(Debug, Clone, Copy, PartialEq, Eq)]
pub struct RuntimeVisualAuditVegetationStats {
    pub total: u32,
    pub visible: u32,
    pub culled_frustum: u32,
    pub culled_distance: u32,
    pub lod_counts: [u32; 3],
    pub scene_draw_calls: u32,
    /// Shadow draw calls over every cascade.
    pub shadow_draw_calls: u32,
    pub uploaded_instance_bytes: u64,
}

/// Audit label of an environment mode.
pub open spec fn environment_mode_label(mode: V2EnvironmentMode) -> Seq<char> {
    match mode {
        V2EnvironmentMode::Physical => "physical"@,
        V2EnvironmentMode::AnalyticalFallback => "analytical_fallback"@,
    }
}

/// Map the environment mode actually in use: the physical atmosphere and the
/// physical IBL are active exactly in the physical mode.
pub fn environment_from_runtime(mode: V2EnvironmentMode, aerial_perspective_active: bool) -> (environment:
    RuntimeVisualAuditEnvironment)
    ensures
        environment.environment_mode@ == environment_mode_label(mode),
        environment.physical_atmosphere_active == (mode == V2EnvironmentMode::Physical),
        environment.physical_ibl_active == (mode == V2EnvironmentMode::Physical),
        environment.aerial_perspective_active == aerial_perspective_active,
{
    let physical = match mode {
        V2EnvironmentMode::Physical => true,
        V2EnvironmentMode::AnalyticalFallback => false,
    };
    RuntimeVisualAuditEnvironment {
        environment_mode: if physical {
            "physical"
        } else {
            "analytical_fallback"
        },
        physical_atmosphere_active: physical,
        physical_ibl_active: physical,
        aerial_perspective_active,
    }
}

/// The audit's copy of the frame counters: shadow draw calls are counted once
/// per cascade.
pub open spec fn audited_stats(stats: VegetationFrameStats, uploaded_instance_bytes: u64) -> RuntimeVisualAuditVegetationStats {
    RuntimeVisualAuditVegetationStats {
        total: stats.total,
        visible: stats.visible,
        culled_frustum: stats.culled_frustum,
        culled_distance: stats.culled_distance,
        lod_counts: stats.lod_counts,
        scene_draw_calls: stats.scene_draw_calls,
        shadow_draw_calls: (stats.shadow_draw_calls * SHADOW_CASCADE_COUNT) as u32,
        uploaded_instance_bytes,
    }
}

/// Map the vegetation state. Vegetation is present exactly when frame stats
/// exist; the upload size exists whenever they do.
pub fn vegetation_from_runtime(
    debug_mode: VegetationDebugMode,
    stats: Option<&VegetationFrameStats>,
    uploaded_instance_bytes: Option<u64>,
) -> (vegetation: RuntimeVisualAuditVegetation)
    requires
        stats.is_some() ==> uploaded_instance_bytes.is_some(),
        stats.is_some() ==> stats.unwrap().shadow_draw_calls * SHADOW_CASCADE_COUNT <= u32::MAX,
    ensures
        vegetation.vegetation_present == stats.is_some(),
        vegetation.debug_mode@ == debug_mode_label(debug_mode),
        match stats {
            None => vegetation.stats.is_none(),
            Some(s) => vegetation.stats == Some(audited_stats(*s, uploaded_instance_bytes.unwrap())),
        },
{
    let audited = match stats {
        None => None,
        Some(s) => {
            let uploaded = match uploaded_instance_bytes {
                Some(bytes) => bytes,
                None => 0,
            };
            Some(
                RuntimeVisualAuditVegetationStats {
                    total: s.total,
                    visible: s.visible,
                    culled_frustum: s.culled_frustum,
                    culled_distance: s.culled_distance,
                    lod_counts: s.lod_counts,
                    scene_draw_calls: s.scene_draw_calls,
                    shadow_draw_calls: s.shadow_draw_calls * 3,
                    uploaded_instance_bytes: uploaded,
                },
            )
        },
    };
    RuntimeVisualAuditVegetation {
        vegetation_present: stats.is_some(),
        debug_mode: debug_mode.label(),
        stats: audited,
    }
}

/// How the GPU pass timings of a frame relate to that frame.
#[derive(Debug, Clone, Copy, PartialEq, Eq)]
pub struct GpuTimingAssociation {
    pub status: &'static str,
    /// Presentation frame the GPU sample was recorded in.
    pub source_presentation_frame_index: Option<u64>,
    /// How many frames before the audited frame the sample was recorded.
    pub frame_age: Option<u64>,
    pub unavailable_reason: Option<&'static str>,
    /// Whether the per-pass GPU durations may be reported.
    pub expose_gpu_durations: bool,
}

/// What the audit reports of the GPU timings of frame
/// `presentation_frame_index`: unsupported devices report nothing; a sample
/// recorded in this or an earlier frame is reported with its age; otherwise
/// the result is not ready yet.
pub open spec fn is_timing_association(
    timing: GpuTimingAssociation,
    presentation_frame_index: u64,
    gpu_timing_supported: bool,
    gpu_presentation_frame_index: Option<u64>,
) -> bool {
    &&& !gpu_timing_supported ==> {
        &&& timing.status@ == "timestamp_query_unsupported"@
        &&& timing.source_presentation_frame_index.is_none()
        &&& timing.frame_age.is_none()
        &&& timing.unavailable_reason == Some("the selected device does not support timestamp queries")
        &&& !timing.expose_gpu_durations
    }
    &&& gpu_timing_supported && (gpu_presentation_frame_index matches Some(source) && source
        <= presentation_frame_index) ==> {
        let source = gpu_presentation_frame_index.unwrap();
        &&& timing.status@ == (if source == presentation_frame_index {
            "current_frame_sample"@
        } else {
            "previous_frame_sample"@
        })
        &&& timing.source_presentation_frame_index == Some(source)
        &&& timing.frame_age == Some((presentation_frame_index - source) as u64)
        &&& timing.unavailable_reason.is_none()
        &&& timing.expose_gpu_durations
    }
    &&& gpu_timing_supported && !(gpu_presentation_frame_index matches Some(source) && source
        <= presentation_frame_index) ==> {
        &&& timing.status@ == "asynchronous_result_not_ready"@
        &&& timing.source_presentation_frame_index.is_none()
        &&& timing.frame_age.is_none()
        &&& timing.unavailable_reason == Some(
            "no completed timestamp sample is available for this or an earlier frame",
        )
        &&& !timing.expose_gpu_durations
    }
}

/// Associate the latest GPU timestamp sample with the audited frame. A sample
/// is usable only if the device supports timestamps and it was recorded in
/// this or an earlier frame; its age is the distance between the two frames.
pub fn gpu_timing_association(
    presentation_frame_index: u64,
    gpu_timing_supported: bool,
    gpu_presentation_frame_index: Option<u64>,
) -> (timing: GpuTimingAssociation)
    ensures
        is_timing_association(timing, presentation_frame_index, gpu_timing_supported, gpu_presentation_frame_index),
{
    if !gpu_timing_supported {
        return GpuTimingAssociation {
            status: "timestamp_query_unsupported",
            source_presentation_frame_index: None,
            frame_age: None,
            unavailable_reason: Some("the selected device does not support timestamp queries"),
            expose_gpu_durations: false,
        };
    }
    match gpu_presentation_frame_index {
        Some(source) if source <= presentation_frame_index => {
            let age = presentation_frame_index - source;
            GpuTimingAssociation {
                status: if age == 0 {
                    "current_frame_sample"
                } else {
                    "previous_frame_sample"
                },
                source_presentation_frame_index: Some(source),
                frame_age: Some(age),
                unavailable_reason: None,
                expose_gpu_durations: true,
            }
        },
        _ => GpuTimingAssociation {
            status: "asynchronous_result_not_ready",
            source_presentation_frame_index: None,
            frame_age: None,
            unavailable_reason: Some(
                "no completed timestamp sample is available for this or an earlier frame",
            ),
            expose_gpu_durations: false,
        },
    }
}

/// GPU timing association of the audited frame, or `None` before the first
/// presented frame, when the audit has no profiling group.
pub fn audited_gpu_timing(
    presentation_frame_index: Option<u64>,
    gpu_timing_supported: bool,
    gpu_presentation_frame_index: Option<u64>,
) -> (timing: Option<GpuTimingAssociation>)
    ensures
        timing is None <==> presentation_frame_index is None,
        timing matches Some(t) ==> is_timing_association(
            t,
            presentation_frame_index->0,
            gpu_timing_supported,
            gpu_presentation_frame_index,
        ),
{
    match presentation_frame_index {
        Some(frame) => Some(gpu_timing_association(frame, gpu_timing_supported, gpu_presentation_frame_index)),
        None => None,
    }
}

/// A duration in nanoseconds, saturated to `u64::MAX`.
pub fn duration_ns(nanos: u128) -> (ns: u64)
    ensures
        ns == if nanos <= u64::MAX {
            nanos as int
        } else {
            u64::MAX as int
        },
{
    if nanos <= u64::MAX as u128 {
        nanos as u64
    } else {
        u64::MAX
    }
}

} // verus!
