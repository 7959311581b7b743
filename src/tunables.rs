//! Tunable profiles of past releases.
use vstd::prelude::*;
use crate::types::{BucketAlg, CephVersion, CrushMap, CrushMapView};

verus! {

/// Mask of the algorithms allowed by the older profiles: uniform, list and straw.
pub const LEGACY_ALGORITHMS: u32 = 22;

/// Mask of the algorithms allowed from the hammer profile on: straw2 as well.
pub const HAMMER_ALGORITHMS: u32 = 54;

pub open spec fn argonaut_profile(m: CrushMapView) -> CrushMapView {
    CrushMapView {
        choose_local_tries: Some(2),
        choose_local_fallback_tries: Some(5),
        choose_total_tries: Some(19),
        chooseleaf_descend_once: Some(0),
        chooseleaf_vary_r: Some(0),
        chooseleaf_stable: Some(0),
        allowed_bucket_algorithms: Some(LEGACY_ALGORITHMS),
        ..m
    }
}

pub open spec fn bobtail_profile(m: CrushMapView) -> CrushMapView {
    CrushMapView {
        choose_local_tries: Some(0),
        choose_local_fallback_tries: Some(0),
        choose_total_tries: Some(50),
        chooseleaf_descend_once: Some(1),
        ..argonaut_profile(m)
    }
}

pub open spec fn firefly_profile(m: CrushMapView) -> CrushMapView {
    CrushMapView { chooseleaf_vary_r: Some(1), ..bobtail_profile(m) }
}

pub open spec fn hammer_profile(m: CrushMapView) -> CrushMapView {
    CrushMapView { allowed_bucket_algorithms: Some(HAMMER_ALGORITHMS), ..firefly_profile(m) }
}

pub open spec fn jewel_profile(m: CrushMapView) -> CrushMapView {
    CrushMapView { chooseleaf_stable: Some(1), ..hammer_profile(m) }
}

/// The tunables of a release applied to `m`; every other field is kept.
pub open spec fn with_profile(m: CrushMapView, version: CephVersion) -> CrushMapView {
    match version {
        CephVersion::Argonaut => argonaut_profile(m),
        CephVersion::Bobtail => bobtail_profile(m),
        CephVersion::Firefly => firefly_profile(m),
        CephVersion::Hammer => hammer_profile(m),
        CephVersion::Jewel => jewel_profile(m),
    }
}

/// The bits of the given algorithms in an `allowed_bucket_algorithms` mask.
fn algorithm_mask(with_straw2: bool) -> (r: u32)
    ensures
        r == if with_straw2 {
            HAMMER_ALGORITHMS
        } else {
            LEGACY_ALGORITHMS
        },
{
    let uniform = BucketAlg::Uniform.to_code();
    let list = BucketAlg::List.to_code();
    let straw = BucketAlg::Straw.to_code();
    let straw2 = BucketAlg::Straw2.to_code();
    assert((1u32 << 1u32) | (1u32 << 2u32) | (1u32 << 4u32) == 22) by (bit_vector);
    assert((1u32 << 1u32) | (1u32 << 2u32) | (1u32 << 4u32) | (1u32 << 5u32) == 54) by (bit_vector);
    let legacy: u32 = (1u32 << uniform) | (1u32 << list) | (1u32 << straw);
    if with_straw2 {
        legacy | (1u32 << straw2)
    } else {
        legacy
    }
}

/// Sets the tunables to the argonaut profile.
pub fn set_tunables_argonaut(crushmap: &mut CrushMap) -> (r: &mut CrushMap)
    ensures
        (*r)@ == with_profile(old(crushmap)@, CephVersion::Argonaut),
        *final(crushmap) == *final(r),
{
    let algorithm = algorithm_mask(false);
    crushmap.choose_local_tries = Some(2);
    crushmap.choose_local_fallback_tries = Some(5);
    crushmap.choose_total_tries = Some(19);
    crushmap.chooseleaf_descend_once = Some(0);
    crushmap.chooseleaf_vary_r = Some(0);
    crushmap.chooseleaf_stable = Some(0);
    crushmap.allowed_bucket_algorithms = Some(algorithm);
    crushmap
}

/// Sets the tunables to the bobtail profile.
pub fn set_tunables_bobtail(crushmap: &mut CrushMap) -> (r: &mut CrushMap)
    ensures
        (*r)@ == with_profile(old(crushmap)@, CephVersion::Bobtail),
        *final(crushmap) == *final(r),
{
    set_tunables_argonaut(crushmap);
    crushmap.choose_local_tries = Some(0);
    crushmap.choose_local_fallback_tries = Some(0);
    crushmap.choose_total_tries = Some(50);
    crushmap.chooseleaf_descend_once = Some(1);
    crushmap
}

/// Sets the tunables to the firefly profile.
pub fn set_tunables_firefly(crushmap: &mut CrushMap) -> (r: &mut CrushMap)
    ensures
        (*r)@ == with_profile(old(crushmap)@, CephVersion::Firefly),
        *final(crushmap) == *final(r),
{
    set_tunables_bobtail(crushmap);
    crushmap.chooseleaf_vary_r = Some(1);
    crushmap
}

/// Sets the tunables to the hammer profile.
pub fn set_tunables_hammer(crushmap: &mut CrushMap) -> (r: &mut CrushMap)
    ensures
        (*r)@ == with_profile(old(crushmap)@, CephVersion::Hammer),
        *final(crushmap) == *final(r),
{
    let algorithm = algorithm_mask(true);
    set_tunables_firefly(crushmap);
    crushmap.allowed_bucket_algorithms = Some(algorithm);
    crushmap
}

/// Sets the tunables to the jewel profile.
pub fn set_tunables_jewel(crushmap: &mut CrushMap) -> (r: &mut CrushMap)
    ensures
        (*r)@ == with_profile(old(crushmap)@, CephVersion::Jewel),
        *final(crushmap) == *final(r),
{
    set_tunables_hammer(crushmap);
    crushmap.chooseleaf_stable = Some(1);
    crushmap
}

impl CrushMap {
    /// The map with the tunables of `version`.
    pub fn with_tunables(self, version: CephVersion) -> (r: Self)
        ensures
            r@ == with_profile(self@, version),
    {
        let mut map = self;
        match version {
            CephVersion::Argonaut => set_tunables_argonaut(&mut map),
            CephVersion::Bobtail => set_tunables_bobtail(&mut map),
            CephVersion::Firefly => set_tunables_firefly(&mut map),
            CephVersion::Hammer => set_tunables_hammer(&mut map),
            CephVersion::Jewel => set_tunables_jewel(&mut map),
        };
        map
    }
}

} // verus!
