//! What depends on the operating system and the processor: placement of workers, SIMD path.

use vstd::prelude::*;
use crate::text::{chars_of, has_text, text_is};
use crate::topology::CpuTopology;
#[allow(unused_imports)]
use crate::text::contains_text;

verus! {

/// The operating systems that are told apart.
#[derive(Debug, Clone, Copy, PartialEq, Eq, Structural)]
pub enum Platform {
    Linux,
    Macos,
    Other,
}

/// What was detected of the instruction set.
#[derive(Debug, Clone, Copy, PartialEq, Eq, Structural)]
pub enum CpuFeatures {
    X86 { avx2: bool, fma: bool, sse2: bool },
    Aarch64,
    Other,
}

/// The vector instructions that the SIMD workload uses.
#[derive(Debug, Clone, Copy, PartialEq, Eq, Structural)]
pub enum SimdPath {
    Avx2Fma,
    Sse2,
    Neon,
    Scalar,
}

/// The best path that the features allow.
pub open spec fn best_path(features: CpuFeatures) -> SimdPath {
    match features {
        CpuFeatures::X86 { avx2, fma, sse2 } => if avx2 && fma {
            SimdPath::Avx2Fma
        } else if sse2 {
            SimdPath::Sse2
        } else {
            SimdPath::Scalar
        },
        CpuFeatures::Aarch64 => SimdPath::Neon,
        CpuFeatures::Other => SimdPath::Scalar,
    }
}

pub open spec fn path_name(path: SimdPath) -> Seq<char> {
    match path {
        SimdPath::Avx2Fma => "avx2-fma"@,
        SimdPath::Sse2 => "sse2"@,
        SimdPath::Neon => "neon"@,
        SimdPath::Scalar => "scalar"@,
    }
}

/// The best path that the features allow.
pub fn select_simd_path(features: CpuFeatures) -> (r: SimdPath)
    ensures
        r == best_path(features),
{
    match features {
        CpuFeatures::X86 { avx2, fma, sse2 } => if avx2 && fma {
            SimdPath::Avx2Fma
        } else if sse2 {
            SimdPath::Sse2
        } else {
            SimdPath::Scalar
        },
        CpuFeatures::Aarch64 => SimdPath::Neon,
        CpuFeatures::Other => SimdPath::Scalar,
    }
}

/// The name of the best path that the features allow.
pub fn simd_path(features: CpuFeatures) -> (r: &'static str)
    ensures
        r@ == path_name(best_path(features)),
{
    match select_simd_path(features) {
        SimdPath::Avx2Fma => "avx2-fma",
        SimdPath::Sse2 => "sse2",
        SimdPath::Neon => "neon",
        SimdPath::Scalar => "scalar",
    }
}

pub open spec fn placement_of(platform: Platform) -> Seq<char> {
    match platform {
        Platform::Linux => "pinned"@,
        Platform::Macos => "qos-advisory"@,
        Platform::Other => "scheduler"@,
    }
}

/// How workers are placed on the platform.
pub fn placement_name(platform: Platform) -> (r: String)
    ensures
        r@ == placement_of(platform),
{
    match platform {
        Platform::Linux => "pinned".to_string(),
        Platform::Macos => "qos-advisory".to_string(),
        Platform::Other => "scheduler".to_string(),
    }
}

/// What the machine lets a benchmark do.
#[derive(Debug, Clone)]
pub struct CpuCapabilities {
    pub placement: String,
    pub topology_detail: bool,
    pub simd_path: String,
}

/// What the machine lets a benchmark do.
pub fn cpu_capabilities(topology: &CpuTopology, platform: Platform, features: CpuFeatures) -> (r:
    CpuCapabilities)
    ensures
        r.placement@ == placement_of(platform),
        r.topology_detail == (contains_text(topology.source@, "sysfs"@) || contains_text(
            topology.source@,
            "sysctl"@,
        )),
        r.simd_path@ == path_name(best_path(features)),
{
    let source = chars_of(topology.source.as_str());
    let sysfs = chars_of("sysfs");
    let sysctl = chars_of("sysctl");
    proof {
        reveal_strlit("sysfs");
        reveal_strlit("sysctl");
    }
    CpuCapabilities {
        placement: placement_name(platform),
        topology_detail: has_text(source.as_slice(), sysfs.as_slice()) || has_text(
            source.as_slice(),
            sysctl.as_slice(),
        ),
        simd_path: simd_path(features).to_string(),
    }
}

/// What a worker does about its placement before it starts.
#[derive(Debug, Clone, Copy, PartialEq, Eq, Structural)]
pub enum PlacementAction {
    /// Bind the thread to this CPU.
    Pin(usize),
    /// Ask for the background quality of service.
    Background,
    /// Ask for the user-initiated quality of service.
    UserInitiated,
    /// Leave the thread to the scheduler.
    Nothing,
}

/// What a worker for `cpu` does about its placement.
pub fn worker_placement(
    platform: Platform,
    cpu: usize,
    class: &Option<String>,
    placement: &str,
) -> (r: PlacementAction)
    ensures
        r == match platform {
            Platform::Linux if placement@ == "pinned"@ => PlacementAction::Pin(cpu),
            Platform::Macos if placement@ == "qos-advisory"@ => match *class {
                Some(c) if c@ == "efficiency"@ => PlacementAction::Background,
                _ => PlacementAction::UserInitiated,
            },
            _ => PlacementAction::Nothing,
        },
{
    let name = chars_of(placement);
    match platform {
        Platform::Linux => if text_is(name.as_slice(), "pinned") {
            PlacementAction::Pin(cpu)
        } else {
            PlacementAction::Nothing
        },
        Platform::Macos => if text_is(name.as_slice(), "qos-advisory") {
            if let Some(c) = class {
                let c = chars_of(c.as_str());
                if text_is(c.as_slice(), "efficiency") {
                    return PlacementAction::Background;
                }
            }
            PlacementAction::UserInitiated
        } else {
            PlacementAction::Nothing
        },
        Platform::Other => PlacementAction::Nothing,
    }
}

/// The SIMD path is the widest that the processor has: AVX2 with FMA where both are there, SSE2 where
/// it is there and not both of them, NEON on aarch64, and otherwise none.
pub proof fn simd_path_is_the_widest(features: CpuFeatures)
    ensures
        best_path(features) == SimdPath::Avx2Fma <==> (features matches CpuFeatures::X86 {
            avx2,
            fma,
            ..
        } && avx2 && fma),
        best_path(features) == SimdPath::Sse2 <==> (features matches CpuFeatures::X86 {
            avx2,
            fma,
            sse2,
        } && sse2 && !(avx2 && fma)),
        best_path(features) == SimdPath::Neon <==> features == CpuFeatures::Aarch64,
{
}

/// The paths and the placements have the names that are reported.
pub proof fn paths_and_placements_have_their_names()
    ensures
        path_name(SimdPath::Avx2Fma) == "avx2-fma"@,
        path_name(SimdPath::Sse2) == "sse2"@,
        path_name(SimdPath::Neon) == "neon"@,
        path_name(SimdPath::Scalar) == "scalar"@,
        placement_of(Platform::Linux) == "pinned"@,
        placement_of(Platform::Macos) == "qos-advisory"@,
        placement_of(Platform::Other) == "scheduler"@,
{
}

} // verus!
