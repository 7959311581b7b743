use crushtool::{
    decode_crushmap, encode_crushmap, encode_string_map, Bucket, BucketAlg, BucketTypes,
    CrushBucketStraw2, CrushHash, CrushMap, CrushRuleStep, DecodeError, OpCode, Rule, RuleType,
    CRUSH_MAGIC,
};

fn put32(b: &mut Vec<u8>, v: u32) {
    b.extend_from_slice(&v.to_le_bytes());
}

fn puti32(b: &mut Vec<u8>, v: i32) {
    b.extend_from_slice(&v.to_le_bytes());
}

fn put16(b: &mut Vec<u8>, v: u16) {
    b.extend_from_slice(&v.to_le_bytes());
}

fn put_table(b: &mut Vec<u8>, entries: &[(i32, &str)]) {
    put32(b, entries.len() as u32);
    for (id, name) in entries {
        puti32(b, *id);
        put32(b, name.len() as u32);
        b.extend_from_slice(name.as_bytes());
    }
}

fn preamble(b: &mut Vec<u8>, buckets: i32, rules: u32) {
    put32(b, CRUSH_MAGIC);
    puti32(b, buckets);
    put32(b, rules);
    puti32(b, 3);
}

fn bucket_header(b: &mut Vec<u8>, alg: u32, id: i32, items: &[i32]) {
    put32(b, alg);
    puti32(b, id);
    put16(b, 1);
    b.push(alg as u8);
    b.push(0);
    put32(b, 0x30000);
    put32(b, items.len() as u32);
    for item in items {
        puti32(b, *item);
    }
}

fn full_tunables(b: &mut Vec<u8>) {
    put32(b, 2);
    put32(b, 5);
    put32(b, 19);
    put32(b, 1);
    b.push(1);
    b.push(1);
    put32(b, 54);
    b.push(1);
}

/// A map in the exact form that encoding writes: one straw bucket, one rule,
/// three symbol tables and all eight tunables.
fn canonical_map() -> Vec<u8> {
    let mut b = Vec::new();
    preamble(&mut b, 1, 1);
    bucket_header(&mut b, 4, -1, &[-2, -3, -4]);
    for w in [(0x10000u32, 0x20000u32), (0x10000, 0x30000), (0x10000, 0x40000)] {
        put32(&mut b, w.0);
        put32(&mut b, w.1);
    }
    put32(&mut b, 1);
    put32(&mut b, 2);
    b.extend_from_slice(&[0, 1, 1, 10]);
    put32(&mut b, 1);
    puti32(&mut b, -1);
    puti32(&mut b, 0);
    put32(&mut b, 4);
    puti32(&mut b, 0);
    puti32(&mut b, 0);
    put_table(&mut b, &[(0, "osd"), (1, "host")]);
    put_table(&mut b, &[(-1, "default"), (-4, "osd.2"), (-2, "osd.0"), (-3, "osd.1")]);
    put_table(&mut b, &[(0, "replicated_rule")]);
    full_tunables(&mut b);
    b
}

#[test]
fn empty_map_decodes_and_expands_tunables() {
    let mut b = Vec::new();
    preamble(&mut b, 0, 0);
    put_table(&mut b, &[]);
    put_table(&mut b, &[]);
    put_table(&mut b, &[]);
    assert_eq!(b.len(), 28);
    let map = decode_crushmap(&b).unwrap();
    assert!(map.buckets.is_empty());
    assert!(map.rules.is_empty());
    assert!(map.type_map.is_empty() && map.name_map.is_empty() && map.rule_name_map.is_empty());
    assert_eq!(map.choose_local_tries, None);
    assert_eq!(map.chooseleaf_stable, None);
    let out = encode_crushmap(map).unwrap();
    assert_eq!(out.len(), 28 + 23);
    assert_eq!(&out[..28], &b[..]);
    assert!(out[28..].iter().all(|x| *x == 0));
}

#[test]
fn straw_bucket_keeps_item_order() {
    let map = decode_crushmap(&canonical_map()).unwrap();
    match &map.buckets[0] {
        BucketTypes::Straw(s) => {
            let ids: Vec<i32> = s.bucket.items.iter().map(|i| i.0).collect();
            assert_eq!(ids, vec![-2, -3, -4]);
            let names: Vec<Option<String>> = s.bucket.items.iter().map(|i| i.1.clone()).collect();
            assert_eq!(
                names,
                vec![Some("osd.0".to_string()), Some("osd.1".to_string()), Some("osd.2".to_string())]
            );
            assert_eq!(
                s.item_weights,
                vec![(0x10000, 0x20000), (0x10000, 0x30000), (0x10000, 0x40000)]
            );
            assert_eq!(s.bucket.size, 3);
            assert_eq!(s.bucket.perm_n, 0);
            assert_eq!(s.bucket.perm, 3);
        }
        other => panic!("expected a straw bucket, got {:?}", other),
    }
}

#[test]
fn absent_rule_slot_takes_four_bytes() {
    let mut b = Vec::new();
    preamble(&mut b, 0, 2);
    put32(&mut b, 0);
    put32(&mut b, 7);
    put32(&mut b, 1);
    b.extend_from_slice(&[3, 3, 1, 20]);
    put32(&mut b, 4);
    puti32(&mut b, 0);
    puti32(&mut b, 0);
    put_table(&mut b, &[]);
    put_table(&mut b, &[]);
    put_table(&mut b, &[]);
    let map = decode_crushmap(&b).unwrap();
    assert_eq!(map.rules.len(), 2);
    assert!(map.rules[0].is_none());
    let rule = map.rules[1].as_ref().unwrap();
    assert_eq!(rule.mask.ruleset, 3);
    assert_eq!(rule.mask.rule_type, RuleType::Erasure);
    assert_eq!(rule.mask.min_size, 1);
    assert_eq!(rule.mask.max_size, 20);
    assert_eq!(rule.steps.len(), 1);
    assert_eq!(rule.steps[0].op, OpCode::Emit);
}

#[test]
fn zero_length_field_reads_wide_length() {
    let mut b = Vec::new();
    preamble(&mut b, 0, 0);
    put32(&mut b, 1);
    puti32(&mut b, 0);
    put32(&mut b, 0);
    put32(&mut b, 3);
    b.extend_from_slice(b"osd");
    put_table(&mut b, &[]);
    put_table(&mut b, &[]);
    let map = decode_crushmap(&b).unwrap();
    assert_eq!(map.type_map, vec![(0, "osd".to_string())]);
    let out = encode_crushmap(map).unwrap();
    let mut short = Vec::new();
    preamble(&mut short, 0, 0);
    put_table(&mut short, &[(0, "osd")]);
    put_table(&mut short, &[]);
    put_table(&mut short, &[]);
    assert_eq!(&out[..short.len()], &short[..]);
}

#[test]
fn truncated_tunables_encode_as_zero() {
    let mut b = Vec::new();
    preamble(&mut b, 0, 0);
    put_table(&mut b, &[]);
    put_table(&mut b, &[]);
    put_table(&mut b, &[]);
    put32(&mut b, 2);
    put32(&mut b, 5);
    put32(&mut b, 19);
    put32(&mut b, 1);
    let map = decode_crushmap(&b).unwrap();
    assert_eq!(map.choose_local_tries, Some(2));
    assert_eq!(map.choose_local_fallback_tries, Some(5));
    assert_eq!(map.choose_total_tries, Some(19));
    assert_eq!(map.chooseleaf_descend_once, Some(1));
    assert_eq!(map.chooseleaf_vary_r, None);
    assert_eq!(map.straw_calc_version, None);
    assert_eq!(map.allowed_bucket_algorithms, None);
    assert_eq!(map.chooseleaf_stable, None);
    let out = encode_crushmap(map).unwrap();
    assert_eq!(out.len(), b.len() + 7);
    assert_eq!(&out[..b.len()], &b[..]);
    assert_eq!(&out[b.len()..], &[0u8; 7]);
}

#[test]
fn canonical_map_round_trips_exactly() {
    let b = canonical_map();
    let map = decode_crushmap(&b).unwrap();
    assert_eq!(encode_crushmap(map).unwrap(), b);
}

#[test]
fn unknown_bucket_is_consumed_and_collapses_on_encode() {
    let mut b = Vec::new();
    preamble(&mut b, 2, 0);
    bucket_header(&mut b, 9, -5, &[-6, -7]);
    bucket_header(&mut b, 1, -1, &[0]);
    put32(&mut b, 0x10000);
    put_table(&mut b, &[]);
    put_table(&mut b, &[(0, "osd.0")]);
    put_table(&mut b, &[]);
    full_tunables(&mut b);
    let map = decode_crushmap(&b).unwrap();
    match &map.buckets[0] {
        BucketTypes::Unknown(u) => {
            assert_eq!(u.alg_tag, 9);
            assert_eq!(u.id, -5);
            assert_eq!(u.items, vec![-6, -7]);
        }
        other => panic!("expected an unknown bucket, got {:?}", other),
    }
    match &map.buckets[1] {
        BucketTypes::Uniform(u) => {
            assert_eq!(u.item_weight, 0x10000);
            assert_eq!(u.bucket.items, vec![(0, Some("osd.0".to_string()))]);
        }
        other => panic!("expected a uniform bucket, got {:?}", other),
    }
    let out = encode_crushmap(map).unwrap();
    let unknown_len = 20 + 8;
    assert_eq!(out.len(), b.len() - unknown_len + 4);
    assert_eq!(&out[16..20], &[0, 0, 0, 0]);
    assert_eq!(&out[20..], &b[16 + unknown_len..]);
}

#[test]
fn decoded_slot_counts_match_preamble() {
    let mut b = Vec::new();
    preamble(&mut b, 1, 3);
    bucket_header(&mut b, 5, -1, &[0, 1]);
    put32(&mut b, 7);
    put32(&mut b, 8);
    put32(&mut b, 0);
    put32(&mut b, 0);
    put32(&mut b, 0);
    put_table(&mut b, &[]);
    put_table(&mut b, &[]);
    put_table(&mut b, &[]);
    let map = decode_crushmap(&b).unwrap();
    assert_eq!(map.buckets.len() as i32, map.max_buckets);
    assert_eq!(map.rules.len() as u32, map.max_rules);
    match &map.buckets[0] {
        BucketTypes::Straw2(s) => assert_eq!(s.item_weights, vec![7, 8]),
        other => panic!("expected a straw2 bucket, got {:?}", other),
    }
}

#[test]
fn resolution_takes_first_matching_name() {
    let mut b = Vec::new();
    preamble(&mut b, 1, 1);
    bucket_header(&mut b, 3, -1, &[-2, 5]);
    b.push(2);
    put32(&mut b, 11);
    put32(&mut b, 12);
    put32(&mut b, 1);
    put32(&mut b, 1);
    b.extend_from_slice(&[0, 1, 1, 3]);
    put32(&mut b, 2);
    puti32(&mut b, 1);
    puti32(&mut b, 9);
    put_table(&mut b, &[(1, "host"), (1, "rack")]);
    put_table(&mut b, &[(-2, "first"), (-2, "second")]);
    put_table(&mut b, &[]);
    let map = decode_crushmap(&b).unwrap();
    match &map.buckets[0] {
        BucketTypes::Tree(t) => {
            assert_eq!(t.num_nodes, 2);
            assert_eq!(t.node_weights, vec![11, 12]);
            assert_eq!(t.bucket.items, vec![(-2, Some("first".to_string())), (5, None)]);
        }
        other => panic!("expected a tree bucket, got {:?}", other),
    }
    let step = &map.rules[0].as_ref().unwrap().steps[0];
    assert_eq!(step.op, OpCode::ChooseFirstN);
    assert_eq!(step.arg1, (1, Some("host".to_string())));
    assert_eq!(step.arg2, (9, None));
}

#[test]
fn round_trip_reaches_fixed_point() {
    let b = canonical_map();
    let first = encode_crushmap(decode_crushmap(&b).unwrap()).unwrap();
    let again = decode_crushmap(&first).unwrap();
    assert_eq!(again, decode_crushmap(&b).unwrap());
    assert_eq!(encode_crushmap(again).unwrap(), first);
}

#[test]
fn truncated_input_is_reported() {
    let b = canonical_map();
    assert_eq!(decode_crushmap(&b[..10]), Err(DecodeError::TruncatedInput));
    assert_eq!(decode_crushmap(&b[..40]), Err(DecodeError::TruncatedInput));
    let mut negative = Vec::new();
    preamble(&mut negative, -1, 0);
    assert_eq!(decode_crushmap(&negative), Err(DecodeError::TruncatedInput));
}

#[test]
fn unknown_operation_is_reported() {
    let mut b = Vec::new();
    preamble(&mut b, 0, 1);
    put32(&mut b, 1);
    put32(&mut b, 1);
    b.extend_from_slice(&[0, 1, 1, 3]);
    put32(&mut b, 5);
    puti32(&mut b, 0);
    puti32(&mut b, 0);
    assert_eq!(decode_crushmap(&b), Err(DecodeError::UnknownTag));
}

#[test]
fn unknown_hash_and_rule_type_are_reported() {
    let mut b = Vec::new();
    preamble(&mut b, 1, 0);
    put32(&mut b, 1);
    puti32(&mut b, -1);
    put16(&mut b, 1);
    b.push(1);
    b.push(7);
    put32(&mut b, 0);
    put32(&mut b, 0);
    put32(&mut b, 0);
    assert_eq!(decode_crushmap(&b), Err(DecodeError::UnknownTag));

    let mut r = Vec::new();
    preamble(&mut r, 0, 1);
    put32(&mut r, 1);
    put32(&mut r, 0);
    r.extend_from_slice(&[0, 9, 1, 3]);
    assert_eq!(decode_crushmap(&r), Err(DecodeError::UnknownTag));
}

#[test]
fn invalid_text_is_reported() {
    let mut b = Vec::new();
    preamble(&mut b, 0, 0);
    put32(&mut b, 1);
    puti32(&mut b, 0);
    put32(&mut b, 2);
    b.extend_from_slice(&[0xc3, 0x28]);
    put_table(&mut b, &[]);
    put_table(&mut b, &[]);
    assert_eq!(decode_crushmap(&b), Err(DecodeError::InvalidText));
}

#[test]
fn non_ascii_names_are_decoded() {
    let mut b = Vec::new();
    preamble(&mut b, 0, 0);
    put_table(&mut b, &[(4, "größe")]);
    put_table(&mut b, &[]);
    put_table(&mut b, &[]);
    let map = decode_crushmap(&b).unwrap();
    assert_eq!(map.type_map, vec![(4, "größe".to_string())]);
}

#[test]
fn encoding_writes_current_magic() {
    let mut map = decode_crushmap(&canonical_map()).unwrap();
    map.magic = 7;
    let out = encode_crushmap(map).unwrap();
    assert_eq!(&out[..4], &CRUSH_MAGIC.to_le_bytes());
}

#[test]
fn rule_encoding_writes_presence_one_and_step_count() {
    let mut b = Vec::new();
    preamble(&mut b, 0, 1);
    put32(&mut b, 5);
    put32(&mut b, 0);
    b.extend_from_slice(&[1, 1, 2, 4]);
    put_table(&mut b, &[]);
    put_table(&mut b, &[]);
    put_table(&mut b, &[]);
    let map = decode_crushmap(&b).unwrap();
    let out = encode_crushmap(map).unwrap();
    assert_eq!(&out[16..20], &1u32.to_le_bytes());
    assert_eq!(&out[20..], &{
        let mut rest = b[20..].to_vec();
        rest.extend_from_slice(&[0u8; 23]);
        rest
    }[..]);
}

#[test]
fn string_map_encoding_is_exact() {
    let bytes = encode_string_map(vec![(-1, "ab".to_string()), (2, "".to_string())]).unwrap();
    assert_eq!(
        bytes,
        vec![2, 0, 0, 0, 0xff, 0xff, 0xff, 0xff, 2, 0, 0, 0, b'a', b'b', 2, 0, 0, 0, 0, 0, 0, 0]
    );
}

#[test]
fn rule_step_names_come_from_type_table() {
    let mut rule = Rule {
        mask: crushtool::CrushRuleMask {
            ruleset: 0,
            rule_type: RuleType::Replicated,
            min_size: 1,
            max_size: 10,
        },
        steps: vec![CrushRuleStep {
            op: OpCode::ChooseLeafFirstN,
            arg1: (0, Some("stale".to_string())),
            arg2: (1, None),
        }],
    };
    let table = vec![(1, "host".to_string())];
    rule.steps[0].update_arg_mapping(&table);
    assert_eq!(rule.steps[0].arg1, (0, Some("stale".to_string())));
    assert_eq!(rule.steps[0].arg2, (1, Some("host".to_string())));
    let mut rules = vec![None, Some(rule)];
    let out = crushtool::update_rule_steps(&mut rules, &vec![(0, "osd".to_string())]);
    assert!(out[0].is_none());
    assert_eq!(out[1].as_ref().unwrap().steps[0].arg1, (0, Some("osd".to_string())));
}

#[test]
fn non_canonical_input_can_still_round_trip() {
    let mut b = Vec::new();
    preamble(&mut b, 0, 0);
    put_table(&mut b, &[]);
    put_table(&mut b, &[]);
    put32(&mut b, 1);
    puti32(&mut b, 0);
    put32(&mut b, 0);
    put32(&mut b, 0);
    b.extend_from_slice(&[0u8; 19]);
    let map = decode_crushmap(&b).unwrap();
    assert_eq!(map.rule_name_map, vec![(0, String::new())]);
    assert_eq!(map.allowed_bucket_algorithms, None);
    assert_eq!(map.chooseleaf_stable, Some(0));
    assert_eq!(encode_crushmap(map).unwrap(), b);
}

#[test]
fn encode_then_decode_restores_map() {
    let mut map = CrushMap::default();
    map.magic = 5;
    map.max_buckets = 1;
    map.buckets = vec![BucketTypes::Straw2(CrushBucketStraw2 {
        bucket: Bucket {
            id: -1,
            bucket_type: 1,
            alg: BucketAlg::Straw2,
            hash: CrushHash::RJenkins1,
            weight: 0x20000,
            size: 2,
            items: vec![(0, Some("stale".to_string())), (1, None)],
            perm_n: 9,
            perm: 9,
        },
        item_weights: vec![0x10000, 0x10000],
    })];
    map.name_map = vec![(1, "osd.1".to_string()), (0, "osd.0".to_string())];
    map.chooseleaf_stable = None;
    let back = decode_crushmap(&encode_crushmap(map).unwrap()).unwrap();
    assert_eq!(back.magic, CRUSH_MAGIC);
    assert_eq!(back.type_map.len(), 11);
    assert_eq!(back.chooseleaf_stable, Some(0));
    assert_eq!(back.choose_local_fallback_tries, Some(15));
    match &back.buckets[0] {
        BucketTypes::Straw2(s) => {
            assert_eq!(
                s.bucket.items,
                vec![(0, Some("osd.0".to_string())), (1, Some("osd.1".to_string()))]
            );
            assert_eq!(s.bucket.perm_n, 0);
            assert_eq!(s.bucket.perm, 2);
            assert_eq!(s.item_weights, vec![0x10000, 0x10000]);
        }
        other => panic!("expected a straw2 bucket, got {:?}", other),
    }
}

#[test]
fn reencoding_lossy_input_is_stable() {
    let mut b = Vec::new();
    preamble(&mut b, 0, 1);
    put32(&mut b, 9);
    put32(&mut b, 0);
    b.extend_from_slice(&[0, 1, 1, 3]);
    put32(&mut b, 1);
    puti32(&mut b, 0);
    put32(&mut b, 0);
    put32(&mut b, 4);
    b.extend_from_slice(b"host");
    put_table(&mut b, &[]);
    put_table(&mut b, &[]);
    put32(&mut b, 3);
    let first = encode_crushmap(decode_crushmap(&b).unwrap()).unwrap();
    assert_ne!(first, b);
    let again = decode_crushmap(&first).unwrap();
    let second = encode_crushmap(decode_crushmap(&first).unwrap()).unwrap();
    assert_eq!(second, first);
    assert_eq!(decode_crushmap(&second).unwrap(), again);
}
