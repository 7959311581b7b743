use crushtool::{
    set_tunables_argonaut, set_tunables_bobtail, set_tunables_firefly, set_tunables_hammer,
    set_tunables_jewel, update_buckets, Bucket, BucketAlg, BucketTypes, CephVersion, CrushBucketList,
    CrushHash, CrushMap, DecodeError, EncodingError, UnknownBucket, UNKNOWN_BUCKET_ID,
};

fn tunables(m: &CrushMap) -> (
    Option<u32>,
    Option<u32>,
    Option<u32>,
    Option<u32>,
    Option<u8>,
    Option<u8>,
    Option<u32>,
    Option<u8>,
) {
    (
        m.choose_local_tries,
        m.choose_local_fallback_tries,
        m.choose_total_tries,
        m.chooseleaf_descend_once,
        m.chooseleaf_vary_r,
        m.straw_calc_version,
        m.allowed_bucket_algorithms,
        m.chooseleaf_stable,
    )
}

#[test]
fn default_map_has_usual_types() {
    let m = CrushMap::default();
    assert_eq!(m.magic, 0x10000);
    assert_eq!(m.type_map.len(), 11);
    assert_eq!(m.type_map[0], (0, "osd".to_string()));
    assert_eq!(m.type_map[10], (10, "root".to_string()));
    assert!(m.buckets.is_empty() && m.rules.is_empty());
    assert_eq!(
        tunables(&m),
        (Some(2), Some(15), Some(19), Some(0), Some(0), Some(0), Some(0), Some(22))
    );
}

#[test]
fn argonaut_profile() {
    let mut m = CrushMap::default();
    set_tunables_argonaut(&mut m);
    assert_eq!(tunables(&m), (Some(2), Some(5), Some(19), Some(0), Some(0), Some(0), Some(22), Some(0)));
}

#[test]
fn bobtail_profile() {
    let mut m = CrushMap::default();
    set_tunables_bobtail(&mut m);
    assert_eq!(tunables(&m), (Some(0), Some(0), Some(50), Some(1), Some(0), Some(0), Some(22), Some(0)));
}

#[test]
fn firefly_profile() {
    let mut m = CrushMap::default();
    set_tunables_firefly(&mut m);
    assert_eq!(tunables(&m), (Some(0), Some(0), Some(50), Some(1), Some(1), Some(0), Some(22), Some(0)));
}

#[test]
fn hammer_profile() {
    let mut m = CrushMap::default();
    set_tunables_hammer(&mut m).straw_calc_version = Some(1);
    assert_eq!(tunables(&m), (Some(0), Some(0), Some(50), Some(1), Some(1), Some(1), Some(54), Some(0)));
}

#[test]
fn jewel_profile() {
    let mut m = CrushMap::default();
    set_tunables_jewel(&mut m);
    assert_eq!(tunables(&m), (Some(0), Some(0), Some(50), Some(1), Some(1), Some(0), Some(54), Some(1)));
}

#[test]
fn with_tunables_applies_profile() {
    let m = CrushMap::default().with_tunables(CephVersion::Firefly);
    assert_eq!(tunables(&m), (Some(0), Some(0), Some(50), Some(1), Some(1), Some(0), Some(22), Some(0)));
    assert_eq!(m.type_map.len(), 11);
}

fn list_bucket() -> BucketTypes {
    BucketTypes::List(CrushBucketList {
        bucket: Bucket {
            id: -3,
            bucket_type: 2,
            alg: BucketAlg::List,
            hash: CrushHash::RJenkins1,
            weight: 0x20000,
            size: 2,
            items: vec![(1, None), (0, Some("old".to_string()))],
            perm_n: 0,
            perm: 2,
        },
        item_weights: vec![(1, 2), (3, 4)],
    })
}

#[test]
fn bucket_accessors() {
    let b = list_bucket();
    assert_eq!(b.id(), -3);
    assert_eq!(b.bucket().unwrap().weight, 0x20000);
    let u = BucketTypes::Unknown(UnknownBucket {
        alg_tag: 0,
        id: -9,
        bucket_type: 0,
        alg_bits: 0,
        hash_bits: 0,
        weight: 0,
        size: 0,
        items: vec![],
    });
    assert_eq!(u.id(), UNKNOWN_BUCKET_ID);
    assert!(u.bucket().is_none());
}

#[test]
fn update_buckets_resolves_every_item() {
    let mut buckets = vec![list_bucket()];
    let names = vec![(1, "osd.1".to_string()), (1, "other".to_string())];
    let out = update_buckets(&mut buckets, &names);
    assert_eq!(
        out[0].bucket().unwrap().items,
        vec![(1, Some("osd.1".to_string())), (0, None)]
    );
}

#[test]
fn bucket_name_mapping_keeps_order() {
    let mut b = match list_bucket() {
        BucketTypes::List(l) => l.bucket,
        _ => unreachable!(),
    };
    b.update_name_mapping(&vec![(0, "zero".to_string()), (1, "one".to_string())]);
    assert_eq!(b.items, vec![(1, Some("one".to_string())), (0, Some("zero".to_string()))]);
}

#[test]
fn error_messages() {
    assert_eq!(EncodingError::InvalidValue.to_string(), "Invalid Value");
    assert_eq!(EncodingError::InvalidType.to_string(), "Invalid Type");
    assert_eq!(EncodingError::new("disk full".to_string()).to_string(), "disk full");
    assert_eq!(EncodingError::new("x".to_string()), EncodingError::IoError("x".to_string()));
    assert_eq!(DecodeError::TruncatedInput.to_string(), "Truncated input");
    assert_eq!(DecodeError::UnknownTag.to_string(), "Unknown tag");
    assert_eq!(DecodeError::InvalidText.to_string(), "Invalid text");
}

#[test]
fn codes_round_trip() {
    for c in 0u32..16 {
        if let Some(a) = BucketAlg::from_code(c) {
            assert_eq!(a.to_code(), c);
        }
    }
    assert_eq!(BucketAlg::from_code(0), None);
    assert_eq!(BucketAlg::Straw2.to_code(), 5);
}
