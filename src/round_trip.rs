//! Decoding then encoding: the input comes back byte for byte when it is in
//! the form that encoding writes.
use vstd::prelude::*;
use vstd::seq_lib::lemma_concat_associative;
use vstd::utf8::{decode_utf8, decode_utf8_encode_utf8};
use crate::decode::{
    lemma_parse_buckets_len,
    parse_bucket, parse_buckets, parse_entries, parse_header, parse_map,
    parse_mask, parse_rule, parse_rules, parse_step, parse_steps, parse_table,
    parse_tunables, read_items, read_weight_pairs, read_weights, spec_decode,
};
use crate::encode::{
    encodable, enc_bucket, enc_buckets, enc_entries, enc_header, enc_items, enc_map, enc_mask,
    enc_pairs, enc_rule, enc_rules, enc_step, enc_steps, enc_table, enc_tunables, enc_u32s,
    rules_fit, table_fits,
};
use crate::resolve::{
    resolve_bucket, resolve_buckets, resolve_items, resolve_map, resolve_rules, resolve_slot,
    resolve_step,
};
use crate::types::{
    BucketAlg, BucketTypesView, CrushMapView, NamedIdView, RuleStepView, RuleView,
    CRUSH_MAGIC,
};
use crate::wire::{
    enc_string, lemma_i32_bits, lemma_write_u16, lemma_write_u32, le_i32, le_u32, parse_string,
    read_i32,
    read_u32, string_fits,
};

verus! {

// ---------------------------------------------------------------------
// The form that encoding writes
// ---------------------------------------------------------------------

/// When the bucket slot at `p` has a known algorithm tag, the tag equals
/// the algorithm byte of its header.
pub open spec fn canon_bucket(b: Seq<u8>, p: int) -> bool {
    BucketAlg::spec_from_code(read_u32(b, p)) is Some ==> read_u32(b, p) == b[p + 10] as u32
}

/// The bytes that encoding writes for the bucket slot at `p`: the slot as
/// it stands, or a single zero tag where its algorithm is unknown.
pub open spec fn kept_bucket(b: Seq<u8>, p: int) -> Seq<u8> {
    if BucketAlg::spec_from_code(read_u32(b, p)) is None {
        le_u32(0)
    } else {
        b.subrange(p, parse_bucket(b, p)->Ok_0.1)
    }
}

/// The `n` bucket slots from `p` as encoding writes them: the input with
/// each slot of unknown algorithm (tag, header and item ids) replaced by a
/// single zero tag.
pub open spec fn kept_buckets(b: Seq<u8>, p: int, n: nat) -> Seq<u8>
    decreases n,
{
    if n == 0 {
        Seq::empty()
    } else {
        kept_buckets(b, p, (n - 1) as nat) + kept_bucket(
            b,
            parse_buckets(b, p, (n - 1) as nat)->Ok_0.1,
        )
    }
}

pub open spec fn canon_buckets(b: Seq<u8>, p: int, n: nat) -> bool
    decreases n,
{
    if n == 0 {
        true
    } else {
        canon_buckets(b, p, (n - 1) as nat) && canon_bucket(
            b,
            parse_buckets(b, p, (n - 1) as nat)->Ok_0.1,
        )
    }
}

/// The presence flag of the rule slot at `p` is 0 or 1.
pub open spec fn canon_rule(b: Seq<u8>, p: int) -> bool {
    read_u32(b, p) <= 1
}

pub open spec fn canon_rules(b: Seq<u8>, p: int, n: nat) -> bool
    decreases n,
{
    if n == 0 {
        true
    } else {
        canon_rules(b, p, (n - 1) as nat) && canon_rule(
            b,
            parse_rules(b, p, (n - 1) as nat)->Ok_0.1,
        )
    }
}

/// The string of the entry at `p` gives its length in one non-zero `u32`.
pub open spec fn canon_entry(b: Seq<u8>, p: int) -> bool {
    read_u32(b, p + 4) != 0
}

pub open spec fn canon_entries(b: Seq<u8>, p: int, n: nat) -> bool
    decreases n,
{
    if n == 0 {
        true
    } else {
        canon_entries(b, p, (n - 1) as nat) && canon_entry(
            b,
            parse_entries(b, p, (n - 1) as nat)->Ok_0.1,
        )
    }
}

pub open spec fn canon_table(b: Seq<u8>, p: int) -> bool {
    canon_entries(b, p + 4, read_u32(b, p) as nat)
}

pub open spec fn buckets_end(b: Seq<u8>) -> int {
    parse_buckets(b, 16, read_i32(b, 4) as nat)->Ok_0.1
}

pub open spec fn rules_end(b: Seq<u8>) -> int {
    parse_rules(b, buckets_end(b), read_u32(b, 8) as nat)->Ok_0.1
}

pub open spec fn types_end(b: Seq<u8>) -> int {
    parse_table(b, rules_end(b))->Ok_0.1
}

pub open spec fn names_end(b: Seq<u8>) -> int {
    parse_table(b, types_end(b))->Ok_0.1
}

pub open spec fn tables_end(b: Seq<u8>) -> int {
    parse_table(b, names_end(b))->Ok_0.1
}

/// `b` decodes, and up to its tunables it is in the form that encoding
/// writes, but for bucket slots of unknown algorithm: the current magic,
/// every bucket slot of a known algorithm whose tag repeats its header's
/// algorithm byte, every rule presence flag 0 or 1, and every string length
/// in the short form.
pub open spec fn canonical_body(b: Seq<u8>) -> bool {
    &&& parse_map(b) is Ok
    &&& read_u32(b, 0) == CRUSH_MAGIC
    &&& canon_buckets(b, 16, read_i32(b, 4) as nat)
    &&& canon_rules(b, buckets_end(b), read_u32(b, 8) as nat)
    &&& canon_table(b, rules_end(b))
    &&& canon_table(b, types_end(b))
    &&& canon_table(b, names_end(b))
}

/// No bucket slot of the map has an unknown algorithm.
pub open spec fn no_unknown_buckets(m: CrushMapView) -> bool {
    forall|i: int| 0 <= i < m.buckets.len() ==> !(#[trigger] m.buckets[i] is Unknown)
}

/// Some tunable of the map is absent.
pub open spec fn some_tunable_absent(m: CrushMapView) -> bool {
    ||| m.choose_local_tries is None
    ||| m.choose_local_fallback_tries is None
    ||| m.choose_total_tries is None
    ||| m.chooseleaf_descend_once is None
    ||| m.chooseleaf_vary_r is None
    ||| m.straw_calc_version is None
    ||| m.allowed_bucket_algorithms is None
    ||| m.chooseleaf_stable is None
}

/// `b` decodes and is in the form that encoding writes: its body is, no
/// bucket slot has an unknown algorithm, and all eight tunables follow the
/// symbol tables with nothing after them.
pub open spec fn canonical(b: Seq<u8>) -> bool {
    &&& canonical_body(b)
    &&& no_unknown_buckets(parse_map(b)->Ok_0)
    &&& tables_end(b) + 23 == b.len()
}

// ---------------------------------------------------------------------
// Pieces of the input
// ---------------------------------------------------------------------

proof fn lemma_join(b: Seq<u8>, i: int, j: int, k: int)
    requires
        0 <= i <= j <= k <= b.len(),
    ensures
        b.subrange(i, j) + b.subrange(j, k) == b.subrange(i, k),
{
    assert(b.subrange(i, j) + b.subrange(j, k) =~= b.subrange(i, k));
}

proof fn lemma_byte(b: Seq<u8>, i: int)
    requires
        0 <= i < b.len(),
    ensures
        seq![b[i]] == b.subrange(i, i + 1),
{
    assert(seq![b[i]] =~= b.subrange(i, i + 1));
}

proof fn lemma_empty(b: Seq<u8>, i: int)
    requires
        0 <= i <= b.len(),
    ensures
        b.subrange(i, i) == Seq::<u8>::empty(),
{
    assert(b.subrange(i, i) =~= Seq::<u8>::empty());
}

proof fn lemma_i32_at(b: Seq<u8>, p: int)
    requires
        0 <= p,
        p + 4 <= b.len(),
    ensures
        le_i32(read_i32(b, p)) == b.subrange(p, p + 4),
{
    lemma_i32_bits(0, read_u32(b, p));
    lemma_write_u32(b, p);
}

proof fn lemma_items_bytes(b: Seq<u8>, s: int, n: nat)
    requires
        0 <= s,
        s + 4 * n <= b.len(),
    ensures
        enc_items(read_items(b, s, n)) == b.subrange(s, s + 4 * n),
    decreases n,
{
    if n == 0 {
        lemma_empty(b, s);
    } else {
        lemma_items_bytes(b, s, (n - 1) as nat);
        assert(read_items(b, s, n).drop_last() =~= read_items(b, s, (n - 1) as nat));
        lemma_i32_at(b, s + 4 * (n - 1));
        lemma_join(b, s, s + 4 * (n - 1), s + 4 * n);
    }
}

proof fn lemma_weights_bytes(b: Seq<u8>, s: int, n: nat)
    requires
        0 <= s,
        s + 4 * n <= b.len(),
    ensures
        enc_u32s(read_weights(b, s, n)) == b.subrange(s, s + 4 * n),
    decreases n,
{
    if n == 0 {
        lemma_empty(b, s);
    } else {
        lemma_weights_bytes(b, s, (n - 1) as nat);
        assert(read_weights(b, s, n).drop_last() =~= read_weights(b, s, (n - 1) as nat));
        lemma_write_u32(b, s + 4 * (n - 1));
        lemma_join(b, s, s + 4 * (n - 1), s + 4 * n);
    }
}

proof fn lemma_pairs_bytes(b: Seq<u8>, s: int, n: nat)
    requires
        0 <= s,
        s + 8 * n <= b.len(),
    ensures
        enc_pairs(read_weight_pairs(b, s, n)) == b.subrange(s, s + 8 * n),
    decreases n,
{
    if n == 0 {
        lemma_empty(b, s);
    } else {
        let m = s + 8 * (n - 1);
        lemma_pairs_bytes(b, s, (n - 1) as nat);
        assert(read_weight_pairs(b, s, n).drop_last() =~= read_weight_pairs(
            b,
            s,
            (n - 1) as nat,
        ));
        lemma_write_u32(b, m);
        lemma_write_u32(b, m + 4);
        lemma_join(b, s, m, m + 4);
        lemma_join(b, s, m + 4, m + 8);
    }
}

proof fn lemma_header_bytes(b: Seq<u8>, p: int)
    requires
        0 <= p,
        parse_header(b, p) is Ok,
        read_u32(b, p) == b[p + 10] as u32,
    ensures
        p + 20 <= parse_header(b, p)->Ok_0.1 <= b.len(),
        enc_header(parse_header(b, p)->Ok_0.0) == b.subrange(p, parse_header(b, p)->Ok_0.1),
{
    let h = parse_header(b, p)->Ok_0.0;
    let q = parse_header(b, p)->Ok_0.1;
    lemma_write_u32(b, p);
    lemma_i32_at(b, p + 4);
    lemma_write_u16(b, p + 8);
    lemma_byte(b, p + 10);
    lemma_byte(b, p + 11);
    lemma_write_u32(b, p + 12);
    lemma_write_u32(b, p + 16);
    lemma_items_bytes(b, p + 20, h.size as nat);
    assert(h.alg.code() == read_u32(b, p));
    assert(h.hash.code() == b[p + 11]);
    assert(enc_header(h) == b.subrange(p, p + 4) + b.subrange(p + 4, p + 8) + b.subrange(p + 8, p + 10)
        + b.subrange(p + 10, p + 11) + b.subrange(p + 11, p + 12) + b.subrange(p + 12, p + 16)
        + b.subrange(p + 16, p + 20) + b.subrange(p + 20, q));
    lemma_join(b, p, p + 4, p + 8);
    lemma_join(b, p, p + 8, p + 10);
    lemma_join(b, p, p + 10, p + 11);
    lemma_join(b, p, p + 11, p + 12);
    lemma_join(b, p, p + 12, p + 16);
    lemma_join(b, p, p + 16, p + 20);
    lemma_join(b, p, p + 20, q);
}

proof fn lemma_bucket_bytes(b: Seq<u8>, p: int)
    requires
        0 <= p,
        parse_bucket(b, p) is Ok,
        canon_bucket(b, p),
    ensures
        p + 20 <= parse_bucket(b, p)->Ok_0.1 <= b.len(),
        enc_bucket(parse_bucket(b, p)->Ok_0.0) == kept_bucket(b, p),
        (parse_bucket(b, p)->Ok_0.0 is Unknown) <==> BucketAlg::spec_from_code(read_u32(b, p)) is None,
{
    if BucketAlg::spec_from_code(read_u32(b, p)) is Some {
        let alg = BucketAlg::spec_from_code(read_u32(b, p))->Some_0;
        lemma_header_bytes(b, p);
        let h = parse_header(b, p)->Ok_0.0;
        let q0 = parse_header(b, p)->Ok_0.1;
        let n = h.size as nat;
        let q = parse_bucket(b, p)->Ok_0.1;
        match alg {
            BucketAlg::Uniform => {
                lemma_write_u32(b, q0);
            },
            BucketAlg::List => {
                lemma_pairs_bytes(b, q0, n);
            },
            BucketAlg::Tree => {
                lemma_byte(b, q0);
                lemma_weights_bytes(b, q0 + 1, b[q0] as nat);
                lemma_join(b, q0, q0 + 1, q);
            },
            BucketAlg::Straw => {
                lemma_pairs_bytes(b, q0, n);
            },
            BucketAlg::Straw2 => {
                lemma_weights_bytes(b, q0, n);
            },
        }
        lemma_join(b, p, q0, q);
    }
}

proof fn lemma_buckets_bytes(b: Seq<u8>, p: int, n: nat)
    requires
        0 <= p <= b.len(),
        parse_buckets(b, p, n) is Ok,
        canon_buckets(b, p, n),
    ensures
        p <= parse_buckets(b, p, n)->Ok_0.1 <= b.len(),
        enc_buckets(parse_buckets(b, p, n)->Ok_0.0) == kept_buckets(b, p, n),
        kept_buckets(b, p, n).len() <= parse_buckets(b, p, n)->Ok_0.1 - p,
    decreases n,
{
    if n == 0 {
        lemma_empty(b, p);
    } else {
        lemma_buckets_bytes(b, p, (n - 1) as nat);
        let prev = parse_buckets(b, p, (n - 1) as nat)->Ok_0;
        lemma_bucket_bytes(b, prev.1);
        let s = parse_buckets(b, p, n)->Ok_0.0;
        assert(s.drop_last() =~= prev.0);
    }
}

/// Where no slot has an unknown algorithm, the slots are written as they stand.
proof fn lemma_kept_buckets_all_known(b: Seq<u8>, p: int, n: nat)
    requires
        0 <= p <= b.len(),
        parse_buckets(b, p, n) is Ok,
        canon_buckets(b, p, n),
        forall|i: int| 0 <= i < n ==> !(#[trigger] parse_buckets(b, p, n)->Ok_0.0[i] is Unknown),
    ensures
        kept_buckets(b, p, n) == b.subrange(p, parse_buckets(b, p, n)->Ok_0.1),
    decreases n,
{
    if n == 0 {
        lemma_empty(b, p);
    } else {
        let prev = parse_buckets(b, p, (n - 1) as nat)->Ok_0;
        let x = parse_bucket(b, prev.1)->Ok_0.0;
        let s = parse_buckets(b, p, n)->Ok_0.0;
        lemma_parse_buckets_len(b, p, (n - 1) as nat);
        assert(s == prev.0.push(x));
        assert forall|i: int| 0 <= i < n - 1 implies !(#[trigger] prev.0[i] is Unknown) by {
            assert(s[i] == prev.0[i]);
        }
        assert(s[n - 1] == x);
        lemma_buckets_bytes(b, p, (n - 1) as nat);
        lemma_kept_buckets_all_known(b, p, (n - 1) as nat);
        lemma_bucket_bytes(b, prev.1);
        lemma_join(b, p, prev.1, parse_buckets(b, p, n)->Ok_0.1);
    }
}

/// A slot of unknown algorithm makes the written slots shorter than the input's.
proof fn lemma_kept_buckets_shorter(b: Seq<u8>, p: int, n: nat, i: int)
    requires
        0 <= p <= b.len(),
        parse_buckets(b, p, n) is Ok,
        canon_buckets(b, p, n),
        0 <= i < n,
        parse_buckets(b, p, n)->Ok_0.0[i] is Unknown,
    ensures
        kept_buckets(b, p, n).len() < parse_buckets(b, p, n)->Ok_0.1 - p,
    decreases n,
{
    let prev = parse_buckets(b, p, (n - 1) as nat)->Ok_0;
    let x = parse_bucket(b, prev.1)->Ok_0.0;
    let s = parse_buckets(b, p, n)->Ok_0.0;
    lemma_parse_buckets_len(b, p, (n - 1) as nat);
    assert(s == prev.0.push(x));
    lemma_buckets_bytes(b, p, (n - 1) as nat);
    lemma_bucket_bytes(b, prev.1);
    if i < n - 1 {
        assert(s[i] == prev.0[i]);
        lemma_kept_buckets_shorter(b, p, (n - 1) as nat, i);
    } else {
        assert(s[i] == x);
    }
}

proof fn lemma_step_bytes(b: Seq<u8>, p: int)
    requires
        0 <= p,
        parse_step(b, p) is Ok,
    ensures
        p + 12 <= b.len(),
        enc_step(parse_step(b, p)->Ok_0) == b.subrange(p, p + 12),
{
    lemma_write_u32(b, p);
    lemma_i32_at(b, p + 4);
    lemma_i32_at(b, p + 8);
    lemma_join(b, p, p + 4, p + 8);
    lemma_join(b, p, p + 8, p + 12);
}

proof fn lemma_steps_bytes(b: Seq<u8>, p: int, n: nat)
    requires
        0 <= p <= b.len(),
        parse_steps(b, p, n) is Ok,
    ensures
        parse_steps(b, p, n)->Ok_0.len() == n,
        p + 12 * n <= b.len(),
        enc_steps(parse_steps(b, p, n)->Ok_0) == b.subrange(p, p + 12 * n),
    decreases n,
{
    if n == 0 {
        lemma_empty(b, p);
    } else {
        lemma_steps_bytes(b, p, (n - 1) as nat);
        lemma_step_bytes(b, p + 12 * (n - 1));
        assert(parse_steps(b, p, n)->Ok_0.drop_last() =~= parse_steps(b, p, (n - 1) as nat)->Ok_0);
        lemma_join(b, p, p + 12 * (n - 1), p + 12 * n);
    }
}

proof fn lemma_mask_bytes(b: Seq<u8>, p: int)
    requires
        0 <= p,
        parse_mask(b, p) is Ok,
    ensures
        p + 4 <= b.len(),
        enc_mask(parse_mask(b, p)->Ok_0) == b.subrange(p, p + 4),
{
    assert(enc_mask(parse_mask(b, p)->Ok_0) =~= b.subrange(p, p + 4));
}

proof fn lemma_rule_bytes(b: Seq<u8>, p: int)
    requires
        0 <= p,
        parse_rule(b, p) is Ok,
        canon_rule(b, p),
    ensures
        p < parse_rule(b, p)->Ok_0.1 <= b.len(),
        enc_rule(parse_rule(b, p)->Ok_0.0) == b.subrange(p, parse_rule(b, p)->Ok_0.1),
{
    lemma_write_u32(b, p);
    if read_u32(b, p) != 0 {
        let n = read_u32(b, p + 4);
        lemma_write_u32(b, p + 4);
        lemma_mask_bytes(b, p + 8);
        lemma_steps_bytes(b, p + 12, n as nat);
        let q = p + 12 + 12 * n;
        lemma_join(b, p, p + 4, p + 8);
        lemma_join(b, p, p + 8, p + 12);
        lemma_join(b, p, p + 12, q);
    }
}

proof fn lemma_rules_bytes(b: Seq<u8>, p: int, n: nat)
    requires
        0 <= p <= b.len(),
        parse_rules(b, p, n) is Ok,
        canon_rules(b, p, n),
    ensures
        p <= parse_rules(b, p, n)->Ok_0.1 <= b.len(),
        enc_rules(parse_rules(b, p, n)->Ok_0.0) == b.subrange(p, parse_rules(b, p, n)->Ok_0.1),
    decreases n,
{
    if n == 0 {
        lemma_empty(b, p);
    } else {
        lemma_rules_bytes(b, p, (n - 1) as nat);
        let prev = parse_rules(b, p, (n - 1) as nat)->Ok_0;
        lemma_rule_bytes(b, prev.1);
        let s = parse_rules(b, p, n)->Ok_0.0;
        assert(s.drop_last() =~= prev.0);
        lemma_join(b, p, prev.1, parse_rules(b, p, n)->Ok_0.1);
    }
}

proof fn lemma_string_bytes(b: Seq<u8>, p: int)
    requires
        0 <= p,
        parse_string(b, p) is Ok,
        read_u32(b, p) != 0,
    ensures
        p + 4 <= parse_string(b, p)->Ok_0.1 <= b.len(),
        enc_string(parse_string(b, p)->Ok_0.0) == b.subrange(p, parse_string(b, p)->Ok_0.1),
{
    let q = parse_string(b, p)->Ok_0.1;
    let bytes = b.subrange(p + 4, q);
    decode_utf8_encode_utf8(bytes);
    lemma_write_u32(b, p);
    lemma_join(b, p, p + 4, q);
}

proof fn lemma_entries_bytes(b: Seq<u8>, p: int, n: nat)
    requires
        0 <= p <= b.len(),
        parse_entries(b, p, n) is Ok,
        canon_entries(b, p, n),
    ensures
        parse_entries(b, p, n)->Ok_0.0.len() == n,
        p <= parse_entries(b, p, n)->Ok_0.1 <= b.len(),
        enc_entries(parse_entries(b, p, n)->Ok_0.0) == b.subrange(p, parse_entries(b, p, n)->Ok_0.1),
    decreases n,
{
    if n == 0 {
        lemma_empty(b, p);
    } else {
        lemma_entries_bytes(b, p, (n - 1) as nat);
        let prev = parse_entries(b, p, (n - 1) as nat)->Ok_0;
        let at = prev.1;
        lemma_i32_at(b, at);
        lemma_string_bytes(b, at + 4);
        let q = parse_entries(b, p, n)->Ok_0.1;
        let s = parse_entries(b, p, n)->Ok_0.0;
        assert(s.drop_last() =~= prev.0);
        lemma_join(b, at, at + 4, q);
        lemma_join(b, p, at, q);
    }
}

proof fn lemma_table_bytes(b: Seq<u8>, p: int)
    requires
        0 <= p <= b.len(),
        parse_table(b, p) is Ok,
        canon_table(b, p),
    ensures
        p <= parse_table(b, p)->Ok_0.1 <= b.len(),
        enc_table(parse_table(b, p)->Ok_0.0) == b.subrange(p, parse_table(b, p)->Ok_0.1),
{
    lemma_write_u32(b, p);
    lemma_entries_bytes(b, p + 4, read_u32(b, p) as nat);
    lemma_join(b, p, p + 4, parse_table(b, p)->Ok_0.1);
}

proof fn lemma_tunables_bytes(b: Seq<u8>, p: int, m: CrushMapView)
    requires
        0 <= p,
        p + 23 == b.len(),
    ensures
        enc_tunables(parse_tunables(b, p, m).0) == b.subrange(p, p + 23),
{
    lemma_write_u32(b, p);
    lemma_write_u32(b, p + 4);
    lemma_write_u32(b, p + 8);
    lemma_write_u32(b, p + 12);
    lemma_byte(b, p + 16);
    lemma_byte(b, p + 17);
    lemma_write_u32(b, p + 18);
    lemma_byte(b, p + 22);
    lemma_join(b, p, p + 4, p + 8);
    lemma_join(b, p, p + 8, p + 12);
    lemma_join(b, p, p + 12, p + 16);
    lemma_join(b, p, p + 16, p + 17);
    lemma_join(b, p, p + 17, p + 18);
    lemma_join(b, p, p + 18, p + 22);
    lemma_join(b, p, p + 22, p + 23);
}

// ---------------------------------------------------------------------
// Names are not written
// ---------------------------------------------------------------------

proof fn lemma_enc_items_resolved(items: Seq<NamedIdView>, t: Seq<(i32, Seq<char>)>)
    ensures
        enc_items(resolve_items(items, t)) == enc_items(items),
    decreases items.len(),
{
    if items.len() > 0 {
        assert(resolve_items(items, t).drop_last() =~= resolve_items(items.drop_last(), t));
        lemma_enc_items_resolved(items.drop_last(), t);
    }
}

proof fn lemma_enc_bucket_resolved(x: BucketTypesView, t: Seq<(i32, Seq<char>)>)
    ensures
        enc_bucket(resolve_bucket(x, t)) == enc_bucket(x),
{
    match x {
        BucketTypesView::Uniform(h, _) => lemma_enc_items_resolved(h.items, t),
        BucketTypesView::List(h, _) => lemma_enc_items_resolved(h.items, t),
        BucketTypesView::Tree(h, _, _) => lemma_enc_items_resolved(h.items, t),
        BucketTypesView::Straw(h, _) => lemma_enc_items_resolved(h.items, t),
        BucketTypesView::Straw2(h, _) => lemma_enc_items_resolved(h.items, t),
        BucketTypesView::Unknown(_) => {},
    }
}

proof fn lemma_enc_buckets_resolved(bs: Seq<BucketTypesView>, t: Seq<(i32, Seq<char>)>)
    ensures
        enc_buckets(resolve_buckets(bs, t)) == enc_buckets(bs),
    decreases bs.len(),
{
    if bs.len() > 0 {
        assert(resolve_buckets(bs, t).drop_last() =~= resolve_buckets(bs.drop_last(), t));
        lemma_enc_buckets_resolved(bs.drop_last(), t);
        lemma_enc_bucket_resolved(bs.last(), t);
    }
}

proof fn lemma_enc_steps_resolved(ss: Seq<RuleStepView>, t: Seq<(i32, Seq<char>)>)
    ensures
        enc_steps(Seq::new(ss.len(), |k: int| resolve_step(ss[k], t))) == enc_steps(ss),
    decreases ss.len(),
{
    if ss.len() > 0 {
        let rs = Seq::new(ss.len(), |k: int| resolve_step(ss[k], t));
        let prev = ss.drop_last();
        assert(rs.drop_last() =~= Seq::new(prev.len(), |k: int| resolve_step(prev[k], t)));
        lemma_enc_steps_resolved(prev, t);
    }
}

proof fn lemma_enc_rules_resolved(rs: Seq<Option<RuleView>>, t: Seq<(i32, Seq<char>)>)
    ensures
        enc_rules(resolve_rules(rs, t)) == enc_rules(rs),
    decreases rs.len(),
{
    if rs.len() > 0 {
        assert(resolve_rules(rs, t).drop_last() =~= resolve_rules(rs.drop_last(), t));
        lemma_enc_rules_resolved(rs.drop_last(), t);
        if let Some(r) = rs.last() {
            lemma_enc_steps_resolved(r.steps, t);
        }
    }
}

/// Resolving names does not change the bytes of a map: names are written
/// only inside the symbol tables, which resolution leaves alone.
pub proof fn lemma_encoding_ignores_names(m: CrushMapView)
    ensures
        enc_map(resolve_map(m)) == enc_map(m),
{
    lemma_enc_buckets_resolved(m.buckets, m.name_map);
    lemma_enc_rules_resolved(m.rules, m.type_map);
}

// ---------------------------------------------------------------------
// Every decoded map can be encoded
// ---------------------------------------------------------------------

proof fn lemma_entries_fit(b: Seq<u8>, p: int, n: nat)
    requires
        0 <= p,
        parse_entries(b, p, n) is Ok,
    ensures
        p <= parse_entries(b, p, n)->Ok_0.1,
        parse_entries(b, p, n)->Ok_0.0.len() == n,
        forall|k: int|
            0 <= k < n ==> string_fits(#[trigger] parse_entries(b, p, n)->Ok_0.0[k].1),
    decreases n,
{
    if n > 0 {
        lemma_entries_fit(b, p, (n - 1) as nat);
        let prev = parse_entries(b, p, (n - 1) as nat)->Ok_0;
        let s = parse_entries(b, p, n)->Ok_0.0;
        let q = parse_string(b, prev.1 + 4)->Ok_0.1;
        assert(s[n - 1].1 == parse_string(b, prev.1 + 4)->Ok_0.0);
        let bytes = if read_u32(b, prev.1 + 4) == 0 {
            b.subrange(prev.1 + 12, q)
        } else {
            b.subrange(prev.1 + 8, q)
        };
        decode_utf8_encode_utf8(bytes);
        assert(parse_string(b, prev.1 + 4)->Ok_0.0 == decode_utf8(bytes));
        assert(bytes.len() <= u32::MAX);
        assert(string_fits(s[n - 1].1));
        assert forall|k: int| 0 <= k < n implies string_fits(#[trigger] s[k].1) by {
            if k < n - 1 {
                assert(s[k] == prev.0[k]);
            }
        }
    }
}

proof fn lemma_steps_len(b: Seq<u8>, p: int, n: nat)
    requires
        parse_steps(b, p, n) is Ok,
    ensures
        parse_steps(b, p, n)->Ok_0.len() == n,
    decreases n,
{
    if n > 0 {
        lemma_steps_len(b, p, (n - 1) as nat);
    }
}

proof fn lemma_rules_fit(b: Seq<u8>, p: int, n: nat)
    requires
        parse_rules(b, p, n) is Ok,
    ensures
        rules_fit(parse_rules(b, p, n)->Ok_0.0),
    decreases n,
{
    if n > 0 {
        lemma_rules_fit(b, p, (n - 1) as nat);
        let prev = parse_rules(b, p, (n - 1) as nat)->Ok_0;
        let s = parse_rules(b, p, n)->Ok_0.0;
        let q = prev.1;
        if read_u32(b, q) != 0 {
            lemma_steps_len(b, q + 12, read_u32(b, q + 4) as nat);
        }
        assert forall|k: int| 0 <= k < s.len() implies (#[trigger] s[k] matches Some(r)
            ==> r.steps.len() <= u32::MAX) by {
            if k < s.len() - 1 {
                assert(s[k] == prev.0[k]);
            }
        }
    }
}

proof fn lemma_buckets_advance(b: Seq<u8>, p: int, n: nat)
    requires
        parse_buckets(b, p, n) is Ok,
    ensures
        p <= parse_buckets(b, p, n)->Ok_0.1,
    decreases n,
{
    if n > 0 {
        lemma_buckets_advance(b, p, (n - 1) as nat);
    }
}

proof fn lemma_rules_advance(b: Seq<u8>, p: int, n: nat)
    requires
        parse_rules(b, p, n) is Ok,
    ensures
        p <= parse_rules(b, p, n)->Ok_0.1,
    decreases n,
{
    if n > 0 {
        lemma_rules_advance(b, p, (n - 1) as nat);
    }
}

proof fn lemma_table_fits(b: Seq<u8>, p: int)
    requires
        0 <= p,
        parse_table(b, p) is Ok,
    ensures
        p <= parse_table(b, p)->Ok_0.1,
        table_fits(parse_table(b, p)->Ok_0.0),
{
    lemma_entries_fit(b, p + 4, read_u32(b, p) as nat);
}

/// Every map that decoding gives can be encoded: each of its counts and
/// string lengths was read from a 32-bit field.
pub proof fn lemma_decoded_encodable(b: Seq<u8>)
    requires
        spec_decode(b) is Ok,
    ensures
        encodable(spec_decode(b)->Ok_0),
{
    lemma_parse_map_parts(b);
    let raw = parse_map(b)->Ok_0;
    let m = spec_decode(b)->Ok_0;
    lemma_rules_fit(b, buckets_end(b), read_u32(b, 8) as nat);
    lemma_buckets_advance(b, 16, read_i32(b, 4) as nat);
    lemma_rules_advance(b, buckets_end(b), read_u32(b, 8) as nat);
    lemma_table_fits(b, rules_end(b));
    lemma_table_fits(b, types_end(b));
    lemma_table_fits(b, names_end(b));
    assert(m == resolve_map(raw));
    assert forall|k: int| 0 <= k < m.rules.len() implies (#[trigger] m.rules[k] matches Some(r)
        ==> r.steps.len() <= u32::MAX) by {
        assert(m.rules[k] == resolve_slot(raw.rules[k], raw.type_map));
    }
}

// ---------------------------------------------------------------------
// The round trip
// ---------------------------------------------------------------------

/// What the parts of a decoded map are, and where each was read.
proof fn lemma_parse_map_parts(b: Seq<u8>)
    requires
        parse_map(b) is Ok,
    ensures
        16 <= b.len(),
        0 <= read_i32(b, 4),
        parse_buckets(b, 16, read_i32(b, 4) as nat) is Ok,
        parse_rules(b, buckets_end(b), read_u32(b, 8) as nat) is Ok,
        parse_table(b, rules_end(b)) is Ok,
        parse_table(b, types_end(b)) is Ok,
        parse_table(b, names_end(b)) is Ok,
        ({
            let m = parse_map(b)->Ok_0;
            &&& m.max_buckets == read_i32(b, 4)
            &&& m.max_rules == read_u32(b, 8)
            &&& m.max_devices == read_i32(b, 12)
            &&& m.buckets == parse_buckets(b, 16, read_i32(b, 4) as nat)->Ok_0.0
            &&& m.rules == parse_rules(b, buckets_end(b), read_u32(b, 8) as nat)->Ok_0.0
            &&& m.type_map == parse_table(b, rules_end(b))->Ok_0.0
            &&& m.name_map == parse_table(b, types_end(b))->Ok_0.0
            &&& m.rule_name_map == parse_table(b, names_end(b))->Ok_0.0
            &&& m == parse_tunables(b, tables_end(b), m).0
        }),
{
}

/// Where at least 23 bytes follow `p`, all eight tunables are read.
proof fn lemma_tunables_present(b: Seq<u8>, p: int, m: CrushMapView)
    requires
        0 <= p,
        p + 23 <= b.len(),
    ensures
        !some_tunable_absent(parse_tunables(b, p, m).0),
{
}

/// The encoding of a decoded map whose body is in the form encoding writes:
/// the preamble, the bucket slots with unknown ones collapsed, the rest of
/// the body as it stands, then all eight tunables.
#[verifier::rlimit(60)]
proof fn lemma_parsed_body_bytes(b: Seq<u8>)
    requires
        canonical_body(b),
    ensures
        16 <= buckets_end(b) <= tables_end(b) <= b.len(),
        0 <= read_i32(b, 4),
        parse_buckets(b, 16, read_i32(b, 4) as nat) is Ok,
        parse_map(b)->Ok_0.buckets == parse_buckets(b, 16, read_i32(b, 4) as nat)->Ok_0.0,
        tables_end(b) + 23 == b.len() ==> enc_tunables(parse_map(b)->Ok_0) == b.subrange(
            tables_end(b),
            b.len() as int,
        ),
        tables_end(b) + 23 <= b.len() ==> !some_tunable_absent(parse_map(b)->Ok_0),
        enc_map(parse_map(b)->Ok_0) == b.subrange(0, 16) + kept_buckets(
            b,
            16,
            read_i32(b, 4) as nat,
        ) + b.subrange(buckets_end(b), tables_end(b)) + enc_tunables(parse_map(b)->Ok_0),
{
    lemma_parse_map_parts(b);
    let m = parse_map(b)->Ok_0;
    let max_buckets = read_i32(b, 4);
    let at_rules = buckets_end(b);
    let at_types = rules_end(b);
    let at_names = types_end(b);
    let at_rule_names = names_end(b);
    let at_tunables = tables_end(b);
    lemma_write_u32(b, 0);
    lemma_i32_at(b, 4);
    lemma_write_u32(b, 8);
    lemma_i32_at(b, 12);
    lemma_buckets_bytes(b, 16, max_buckets as nat);
    lemma_rules_bytes(b, at_rules, read_u32(b, 8) as nat);
    lemma_table_bytes(b, at_types);
    lemma_table_bytes(b, at_names);
    lemma_table_bytes(b, at_rule_names);
    let head = le_u32(CRUSH_MAGIC) + le_i32(m.max_buckets) + le_u32(m.max_rules) + le_i32(
        m.max_devices,
    );
    assert(head == b.subrange(0, 4) + b.subrange(4, 8) + b.subrange(8, 12) + b.subrange(12, 16));
    lemma_join(b, 0, 4, 8);
    lemma_join(b, 0, 8, 12);
    lemma_join(b, 0, 12, 16);
    let mid = enc_rules(m.rules) + enc_table(m.type_map) + enc_table(m.name_map) + enc_table(
        m.rule_name_map,
    );
    assert(mid == b.subrange(at_rules, at_types) + b.subrange(at_types, at_names) + b.subrange(
        at_names,
        at_rule_names,
    ) + b.subrange(at_rule_names, at_tunables));
    lemma_join(b, at_rules, at_types, at_names);
    lemma_join(b, at_rules, at_names, at_rule_names);
    lemma_join(b, at_rules, at_rule_names, at_tunables);
    assert(enc_map(m) =~= head + enc_buckets(m.buckets) + mid + enc_tunables(m));
    if at_tunables + 23 <= b.len() {
        lemma_tunables_present(b, at_tunables, m);
    }
    if at_tunables + 23 == b.len() {
        lemma_tunables_bytes(b, at_tunables, m);
    }
}

#[verifier::rlimit(100)]
proof fn lemma_parsed_map_bytes(b: Seq<u8>)
    requires
        canonical(b),
    ensures
        enc_map(parse_map(b)->Ok_0) == b,
{
    lemma_parsed_body_bytes(b);
    let n = read_i32(b, 4) as nat;
    assert forall|i: int| 0 <= i < read_i32(b, 4) as nat implies !(#[trigger] parse_buckets(
        b,
        16,
        read_i32(b, 4) as nat,
    )->Ok_0.0[i] is Unknown) by {
        lemma_parse_buckets_len(b, 16, read_i32(b, 4) as nat);
        assert(parse_map(b)->Ok_0.buckets[i] == parse_buckets(b, 16, read_i32(b, 4) as nat)->Ok_0.0[i]);
        assert(!(parse_map(b)->Ok_0.buckets[i] is Unknown));
    }
    lemma_kept_buckets_all_known(b, 16, n);
    lemma_join(b, 0, 16, buckets_end(b));
    lemma_join(b, 0, buckets_end(b), tables_end(b));
    lemma_join(b, 0, tables_end(b), b.len() as int);
    assert(b.subrange(0, b.len() as int) =~= b);
}

/// Decoding an input whose body is in the form encoding writes and which
/// has no bucket slot of unknown algorithm, then encoding the map, gives
/// back the input up to the tunables, followed by all eight tunables (zero
/// where absent). When a tunable was absent the output is longer than the
/// input.
#[verifier::rlimit(100)]
pub proof fn lemma_decode_encode_expands_tunables(b: Seq<u8>)
    requires
        canonical_body(b),
        no_unknown_buckets(parse_map(b)->Ok_0),
    ensures
        spec_decode(b) is Ok,
        enc_map(spec_decode(b)->Ok_0) == b.subrange(0, tables_end(b)) + enc_tunables(
            spec_decode(b)->Ok_0,
        ),
        some_tunable_absent(spec_decode(b)->Ok_0) ==> enc_map(spec_decode(b)->Ok_0).len()
            > b.len(),
{
    lemma_parsed_body_bytes(b);
    let m = parse_map(b)->Ok_0;
    lemma_encoding_ignores_names(m);
    assert forall|i: int| 0 <= i < read_i32(b, 4) as nat implies !(#[trigger] parse_buckets(
        b,
        16,
        read_i32(b, 4) as nat,
    )->Ok_0.0[i] is Unknown) by {
        lemma_parse_buckets_len(b, 16, read_i32(b, 4) as nat);
        assert(parse_map(b)->Ok_0.buckets[i] == parse_buckets(b, 16, read_i32(b, 4) as nat)->Ok_0.0[i]);
        assert(!(parse_map(b)->Ok_0.buckets[i] is Unknown));
    }
    lemma_kept_buckets_all_known(b, 16, read_i32(b, 4) as nat);
    lemma_join(b, 0, 16, buckets_end(b));
    lemma_join(b, 0, buckets_end(b), tables_end(b));
}

/// Decoding an input whose body is in the form encoding writes and which
/// ends with all eight tunables, then encoding the map, gives back the
/// input with each bucket slot of unknown algorithm (tag, header and item
/// ids) replaced by a single zero tag. When there is such a slot the output
/// is shorter than the input.
#[verifier::rlimit(100)]
pub proof fn lemma_decode_encode_collapses_unknown(b: Seq<u8>)
    requires
        canonical_body(b),
        tables_end(b) + 23 == b.len(),
    ensures
        spec_decode(b) is Ok,
        enc_map(spec_decode(b)->Ok_0) == b.subrange(0, 16) + kept_buckets(
            b,
            16,
            read_i32(b, 4) as nat,
        ) + b.subrange(buckets_end(b), b.len() as int),
        !no_unknown_buckets(spec_decode(b)->Ok_0) ==> enc_map(spec_decode(b)->Ok_0).len()
            < b.len(),
{
    lemma_parsed_body_bytes(b);
    let raw = parse_map(b)->Ok_0;
    let m = spec_decode(b)->Ok_0;
    let n = read_i32(b, 4) as nat;
    lemma_encoding_ignores_names(raw);
    lemma_join(b, buckets_end(b), tables_end(b), b.len() as int);
    lemma_concat_associative(
        b.subrange(0, 16) + kept_buckets(b, 16, n),
        b.subrange(buckets_end(b), tables_end(b)),
        b.subrange(tables_end(b), b.len() as int),
    );
    if !no_unknown_buckets(m) {
        let i = choose|i: int| 0 <= i < m.buckets.len() && #[trigger] m.buckets[i] is Unknown;
        lemma_parse_buckets_len(b, 16, n);
        assert(m.buckets[i] == resolve_bucket(raw.buckets[i], raw.name_map));
        lemma_kept_buckets_shorter(b, 16, n, i);
    }
}

/// Decoding an input that is in the form encoding writes, then encoding
/// the map, gives back the input byte for byte.
pub proof fn lemma_decode_encode_round_trip(b: Seq<u8>)
    requires
        canonical(b),
    ensures
        spec_decode(b) is Ok,
        encodable(spec_decode(b)->Ok_0),
        enc_map(spec_decode(b)->Ok_0) == b,
{
    lemma_decoded_encodable(b);
    lemma_parsed_map_bytes(b);
    lemma_encoding_ignores_names(parse_map(b)->Ok_0);
}

/// For an input that decoding and encoding reproduce exactly, decoding the
/// encoding gives the same map again, and encoding that map the same bytes:
/// the round trip is a fixed point.
pub proof fn lemma_round_trip_fixed_point(b: Seq<u8>)
    requires
        spec_decode(b) is Ok,
        enc_map(spec_decode(b)->Ok_0) == b,
    ensures
        spec_decode(enc_map(spec_decode(b)->Ok_0)) == spec_decode(b),
        enc_map(spec_decode(enc_map(spec_decode(b)->Ok_0))->Ok_0) == enc_map(spec_decode(b)->Ok_0),
{
}

/// Inputs in the form encoding writes reach that fixed point.
pub proof fn lemma_canonical_fixed_point(b: Seq<u8>)
    requires
        canonical(b),
    ensures
        spec_decode(enc_map(spec_decode(b)->Ok_0)) == spec_decode(b),
        enc_map(spec_decode(enc_map(spec_decode(b)->Ok_0))->Ok_0) == enc_map(spec_decode(b)->Ok_0),
{
    lemma_decode_encode_round_trip(b);
    lemma_round_trip_fixed_point(b);
}

} // verus!
