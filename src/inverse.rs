//! Encoding then decoding: the map comes back, up to what the binary form
//! does not carry.
use vstd::prelude::*;
use vstd::utf8::{encode_utf8, encode_utf8_decode_utf8, encode_utf8_valid_utf8};
use crate::decode::{
    parse_bucket, parse_buckets, parse_entries, parse_header, parse_map, parse_mask, parse_rule,
    parse_rules, parse_steps, parse_table, read_items, read_weight_pairs,
    read_weights, spec_decode,
};
use crate::encode::{
    encodable, enc_bucket, enc_buckets, enc_entries, enc_header, enc_items, enc_map, enc_mask,
    enc_pairs, enc_rule, enc_rules, enc_step, enc_steps, enc_table, enc_tunables, enc_u32s,
    or_zero_u32, or_zero_u8,
};
use crate::resolve::resolve_map;
use crate::round_trip::lemma_encoding_ignores_names;
use crate::types::{
    BucketAlg, BucketTypesView, BucketView, CrushMapView, CrushRuleMask, NamedIdView,
    RuleStepView, RuleView, CRUSH_MAGIC,
};
use crate::wire::{
    enc_string, lemma_i32_bits, lemma_read_u16, lemma_read_u32, le_i32, le_u16, le_u32,
    parse_string, read_i32, read_u32,
};

verus! {

// ---------------------------------------------------------------------
// Maps whose encoding decodes back
// ---------------------------------------------------------------------

/// A bucket slot that decoding reads back from its encoding: its kind is
/// its header's algorithm, and its lengths agree with its counts. A slot of
/// unknown algorithm is written as a bare zero tag, which reads back as
/// something else.
pub open spec fn bucket_reversible(x: BucketTypesView) -> bool {
    match x {
        BucketTypesView::Uniform(h, _) => h.alg == BucketAlg::Uniform && h.items.len() == h.size,
        BucketTypesView::List(h, ws) => h.alg == BucketAlg::List && h.items.len() == h.size
            && ws.len() == h.size,
        BucketTypesView::Tree(h, n, ws) => h.alg == BucketAlg::Tree && h.items.len() == h.size
            && ws.len() == n,
        BucketTypesView::Straw(h, ws) => h.alg == BucketAlg::Straw && h.items.len() == h.size
            && ws.len() == h.size,
        BucketTypesView::Straw2(h, ws) => h.alg == BucketAlg::Straw2 && h.items.len() == h.size
            && ws.len() == h.size,
        BucketTypesView::Unknown(_) => false,
    }
}

/// No name of the table is empty: an empty name is written with a zero
/// length, which reads back as the wide form of the length.
pub open spec fn names_nonempty(t: Seq<(i32, Seq<char>)>) -> bool {
    forall|k: int| 0 <= k < t.len() ==> (#[trigger] t[k]).1.len() > 0
}

/// A map whose encoding decodes back to it, up to what the binary form does
/// not carry.
pub open spec fn reversible(m: CrushMapView) -> bool {
    &&& encodable(m)
    &&& m.buckets.len() == m.max_buckets
    &&& m.rules.len() == m.max_rules
    &&& forall|i: int| 0 <= i < m.buckets.len() ==> bucket_reversible(#[trigger] m.buckets[i])
    &&& names_nonempty(m.type_map)
    &&& names_nonempty(m.name_map)
    &&& names_nonempty(m.rule_name_map)
}

// ---------------------------------------------------------------------
// What the binary form carries
// ---------------------------------------------------------------------

pub open spec fn bare_items(items: Seq<NamedIdView>) -> Seq<NamedIdView> {
    Seq::new(items.len(), |k: int| (items[k].0, None::<Seq<char>>))
}

pub open spec fn bare_header(h: BucketView) -> BucketView {
    BucketView { items: bare_items(h.items), perm_n: 0, perm: h.size, ..h }
}

pub open spec fn bare_bucket(x: BucketTypesView) -> BucketTypesView {
    match x {
        BucketTypesView::Uniform(h, w) => BucketTypesView::Uniform(bare_header(h), w),
        BucketTypesView::List(h, ws) => BucketTypesView::List(bare_header(h), ws),
        BucketTypesView::Tree(h, n, ws) => BucketTypesView::Tree(bare_header(h), n, ws),
        BucketTypesView::Straw(h, ws) => BucketTypesView::Straw(bare_header(h), ws),
        BucketTypesView::Straw2(h, ws) => BucketTypesView::Straw2(bare_header(h), ws),
        BucketTypesView::Unknown(u) => BucketTypesView::Unknown(u),
    }
}

pub open spec fn bare_step(s: RuleStepView) -> RuleStepView {
    RuleStepView { op: s.op, arg1: (s.arg1.0, None), arg2: (s.arg2.0, None) }
}

pub open spec fn bare_steps(ss: Seq<RuleStepView>) -> Seq<RuleStepView> {
    Seq::new(ss.len(), |k: int| bare_step(ss[k]))
}

pub open spec fn bare_rule(r: Option<RuleView>) -> Option<RuleView> {
    match r {
        Some(r) => Some(RuleView { mask: r.mask, steps: bare_steps(r.steps) }),
        None => None,
    }
}

/// The map as its encoding carries it: the current magic, no names outside
/// the symbol tables, reset permutation caches, and every tunable present,
/// zero where it was absent.
pub open spec fn bare_map(m: CrushMapView) -> CrushMapView {
    CrushMapView {
        magic: CRUSH_MAGIC,
        buckets: Seq::new(m.buckets.len(), |i: int| bare_bucket(m.buckets[i])),
        rules: Seq::new(m.rules.len(), |i: int| bare_rule(m.rules[i])),
        choose_local_tries: Some(or_zero_u32(m.choose_local_tries)),
        choose_local_fallback_tries: Some(or_zero_u32(m.choose_local_fallback_tries)),
        choose_total_tries: Some(or_zero_u32(m.choose_total_tries)),
        chooseleaf_descend_once: Some(or_zero_u32(m.chooseleaf_descend_once)),
        chooseleaf_vary_r: Some(or_zero_u8(m.chooseleaf_vary_r)),
        straw_calc_version: Some(or_zero_u8(m.straw_calc_version)),
        allowed_bucket_algorithms: Some(or_zero_u32(m.allowed_bucket_algorithms)),
        chooseleaf_stable: Some(or_zero_u8(m.chooseleaf_stable)),
        ..m
    }
}

// ---------------------------------------------------------------------
// Lengths and slices
// ---------------------------------------------------------------------

/// Where `b` holds `x + y` from `p`, it holds `x` from `p` and `y` after it.
proof fn lemma_split(b: Seq<u8>, p: int, x: Seq<u8>, y: Seq<u8>)
    requires
        0 <= p,
        p + x.len() + y.len() <= b.len(),
        b.subrange(p, p + x.len() + y.len()) == x + y,
    ensures
        b.subrange(p, p + x.len()) == x,
        b.subrange(p + x.len(), p + x.len() + y.len()) == y,
{
    assert(b.subrange(p, p + x.len()) =~= x) by {
        assert forall|k: int| 0 <= k < x.len() implies b.subrange(p, p + x.len())[k] == x[k] by {
            assert(b.subrange(p, p + x.len() + y.len())[k] == (x + y)[k]);
        }
    }
    assert(b.subrange(p + x.len(), p + x.len() + y.len()) =~= y) by {
        assert forall|k: int| 0 <= k < y.len() implies b.subrange(
            p + x.len(),
            p + x.len() + y.len(),
        )[k] == y[k] by {
            assert(b.subrange(p, p + x.len() + y.len())[x.len() + k] == (x + y)[x.len() + k]);
            assert(b.subrange(p, p + x.len() + y.len())[x.len() + k] == b[p + x.len() + k]);
            assert(b.subrange(p + x.len(), p + x.len() + y.len())[k] == b[p + x.len() + k]);
        }
    }
}

proof fn lemma_byte_at(b: Seq<u8>, p: int, c: u8)
    requires
        0 <= p,
        p + 1 <= b.len(),
        b.subrange(p, p + 1) == seq![c],
    ensures
        b[p] == c,
{
    assert(b.subrange(p, p + 1)[0] == b[p]);
}

proof fn lemma_read_i32(b: Seq<u8>, p: int, x: i32)
    requires
        0 <= p,
        p + 4 <= b.len(),
        b.subrange(p, p + 4) == le_i32(x),
    ensures
        read_i32(b, p) == x,
{
    lemma_read_u32(b, p, x as u32);
    lemma_i32_bits(x, 0);
}

proof fn lemma_enc_items_len(items: Seq<NamedIdView>)
    ensures
        enc_items(items).len() == 4 * items.len(),
    decreases items.len(),
{
    if items.len() > 0 {
        lemma_enc_items_len(items.drop_last());
    }
}

proof fn lemma_enc_u32s_len(ws: Seq<u32>)
    ensures
        enc_u32s(ws).len() == 4 * ws.len(),
    decreases ws.len(),
{
    if ws.len() > 0 {
        lemma_enc_u32s_len(ws.drop_last());
    }
}

proof fn lemma_enc_pairs_len(ws: Seq<(u32, u32)>)
    ensures
        enc_pairs(ws).len() == 8 * ws.len(),
    decreases ws.len(),
{
    if ws.len() > 0 {
        lemma_enc_pairs_len(ws.drop_last());
    }
}

proof fn lemma_enc_steps_len(ss: Seq<RuleStepView>)
    ensures
        enc_steps(ss).len() == 12 * ss.len(),
    decreases ss.len(),
{
    if ss.len() > 0 {
        lemma_enc_steps_len(ss.drop_last());
    }
}

// ---------------------------------------------------------------------
// Reading back each part
// ---------------------------------------------------------------------

proof fn lemma_items_read(b: Seq<u8>, s: int, items: Seq<NamedIdView>)
    requires
        0 <= s,
        s + 4 * items.len() <= b.len(),
        b.subrange(s, s + 4 * items.len()) == enc_items(items),
    ensures
        read_items(b, s, items.len()) == bare_items(items),
    decreases items.len(),
{
    lemma_enc_items_len(items);
    if items.len() > 0 {
        let n = items.len() - 1;
        let prev = items.drop_last();
        lemma_enc_items_len(prev);
        lemma_split(b, s, enc_items(prev), le_i32(items.last().0));
        lemma_items_read(b, s, prev);
        lemma_read_i32(b, s + 4 * n, items.last().0);
        assert(read_items(b, s, items.len()) =~= bare_items(items)) by {
            assert forall|k: int| 0 <= k < n implies read_items(b, s, items.len())[k] == bare_items(
                items,
            )[k] by {
                assert(read_items(b, s, prev.len())[k] == bare_items(prev)[k]);
            }
        }
    }
}

proof fn lemma_weights_read(b: Seq<u8>, s: int, ws: Seq<u32>)
    requires
        0 <= s,
        s + 4 * ws.len() <= b.len(),
        b.subrange(s, s + 4 * ws.len()) == enc_u32s(ws),
    ensures
        read_weights(b, s, ws.len()) == ws,
    decreases ws.len(),
{
    lemma_enc_u32s_len(ws);
    if ws.len() > 0 {
        let n = ws.len() - 1;
        let prev = ws.drop_last();
        lemma_enc_u32s_len(prev);
        lemma_split(b, s, enc_u32s(prev), le_u32(ws.last()));
        lemma_weights_read(b, s, prev);
        lemma_read_u32(b, s + 4 * n, ws.last());
        assert(read_weights(b, s, ws.len()) =~= ws) by {
            assert forall|k: int| 0 <= k < n implies read_weights(b, s, ws.len())[k] == ws[k] by {
                assert(read_weights(b, s, prev.len())[k] == prev[k]);
            }
        }
    }
}

proof fn lemma_pairs_read(b: Seq<u8>, s: int, ws: Seq<(u32, u32)>)
    requires
        0 <= s,
        s + 8 * ws.len() <= b.len(),
        b.subrange(s, s + 8 * ws.len()) == enc_pairs(ws),
    ensures
        read_weight_pairs(b, s, ws.len()) == ws,
    decreases ws.len(),
{
    lemma_enc_pairs_len(ws);
    if ws.len() > 0 {
        let n = ws.len() - 1;
        let prev = ws.drop_last();
        lemma_enc_pairs_len(prev);
        lemma_split(b, s, enc_pairs(prev) + le_u32(ws.last().0), le_u32(ws.last().1));
        lemma_split(b, s, enc_pairs(prev), le_u32(ws.last().0));
        lemma_pairs_read(b, s, prev);
        lemma_read_u32(b, s + 8 * n, ws.last().0);
        lemma_read_u32(b, s + 8 * n + 4, ws.last().1);
        assert(read_weight_pairs(b, s, ws.len()) =~= ws) by {
            assert forall|k: int| 0 <= k < n implies read_weight_pairs(b, s, ws.len())[k] == ws[k] by {
                assert(read_weight_pairs(b, s, prev.len())[k] == prev[k]);
            }
        }
    }
}

proof fn lemma_header_read(b: Seq<u8>, p: int, h: BucketView)
    requires
        0 <= p,
        h.items.len() == h.size,
        p + enc_header(h).len() <= b.len(),
        b.subrange(p, p + enc_header(h).len()) == enc_header(h),
    ensures
        enc_header(h).len() == 20 + 4 * h.size,
        read_u32(b, p) == h.alg.code(),
        parse_header(b, p) == Ok::<(BucketView, int), crate::types::DecodeError>(
            (bare_header(h), p + 20 + 4 * h.size),
        ),
{
    let a1 = le_u32(h.alg.code());
    let a2 = le_i32(h.id);
    let a3 = le_u16(h.bucket_type);
    let a4 = seq![h.alg.code() as u8];
    let a5 = seq![h.hash.code()];
    let a6 = le_u32(h.weight);
    let a7 = le_u32(h.size);
    let a8 = enc_items(h.items);
    lemma_enc_items_len(h.items);
    lemma_split(b, p, a1 + a2 + a3 + a4 + a5 + a6 + a7, a8);
    lemma_split(b, p, a1 + a2 + a3 + a4 + a5 + a6, a7);
    lemma_split(b, p, a1 + a2 + a3 + a4 + a5, a6);
    lemma_split(b, p, a1 + a2 + a3 + a4, a5);
    lemma_split(b, p, a1 + a2 + a3, a4);
    lemma_split(b, p, a1 + a2, a3);
    lemma_split(b, p, a1, a2);
    lemma_read_u32(b, p, h.alg.code());
    lemma_read_i32(b, p + 4, h.id);
    lemma_read_u16(b, p + 8, h.bucket_type);
    lemma_byte_at(b, p + 10, h.alg.code() as u8);
    lemma_byte_at(b, p + 11, h.hash.code());
    lemma_read_u32(b, p + 12, h.weight);
    lemma_read_u32(b, p + 16, h.size);
    lemma_items_read(b, p + 20, h.items);
    assert(BucketAlg::spec_from_code(b[p + 10] as u32) == Some(h.alg));
}

proof fn lemma_bucket_read(b: Seq<u8>, p: int, x: BucketTypesView)
    requires
        0 <= p,
        bucket_reversible(x),
        p + enc_bucket(x).len() <= b.len(),
        b.subrange(p, p + enc_bucket(x).len()) == enc_bucket(x),
    ensures
        parse_bucket(b, p) == Ok::<(BucketTypesView, int), crate::types::DecodeError>(
            (bare_bucket(x), p + enc_bucket(x).len()),
        ),
{
    match x {
        BucketTypesView::Uniform(h, w) => {
            lemma_header_read_in(b, p, h, le_u32(w));
            lemma_read_u32(b, p + 20 + 4 * h.size, w);
        },
        BucketTypesView::List(h, ws) => {
            lemma_enc_pairs_len(ws);
            lemma_header_read_in(b, p, h, enc_pairs(ws));
            lemma_pairs_read(b, p + 20 + 4 * h.size, ws);
        },
        BucketTypesView::Tree(h, n, ws) => {
            lemma_enc_u32s_len(ws);
            assert(enc_bucket(x) =~= enc_header(h) + (seq![n] + enc_u32s(ws)));
            lemma_header_read_in(b, p, h, seq![n] + enc_u32s(ws));
            let q = p + 20 + 4 * h.size;
            lemma_split(b, q, seq![n], enc_u32s(ws));
            lemma_byte_at(b, q, n);
            lemma_weights_read(b, q + 1, ws);
        },
        BucketTypesView::Straw(h, ws) => {
            lemma_enc_pairs_len(ws);
            lemma_header_read_in(b, p, h, enc_pairs(ws));
            lemma_pairs_read(b, p + 20 + 4 * h.size, ws);
        },
        BucketTypesView::Straw2(h, ws) => {
            lemma_enc_u32s_len(ws);
            lemma_header_read_in(b, p, h, enc_u32s(ws));
            lemma_weights_read(b, p + 20 + 4 * h.size, ws);
        },
        BucketTypesView::Unknown(_) => {},
    }
}

/// The header of a bucket whose encoding is followed by `rest`.
proof fn lemma_header_read_in(b: Seq<u8>, p: int, h: BucketView, rest: Seq<u8>)
    requires
        0 <= p,
        h.items.len() == h.size,
        p + (enc_header(h) + rest).len() <= b.len(),
        b.subrange(p, p + (enc_header(h) + rest).len()) == enc_header(h) + rest,
    ensures
        enc_header(h).len() == 20 + 4 * h.size,
        read_u32(b, p) == h.alg.code(),
        BucketAlg::spec_from_code(h.alg.code()) == Some(h.alg),
        parse_header(b, p) == Ok::<(BucketView, int), crate::types::DecodeError>(
            (bare_header(h), p + 20 + 4 * h.size),
        ),
        b.subrange(p + 20 + 4 * h.size, p + 20 + 4 * h.size + rest.len()) == rest,
{
    lemma_split(b, p, enc_header(h), rest);
    lemma_header_read(b, p, h);
}

proof fn lemma_buckets_read(b: Seq<u8>, p: int, bs: Seq<BucketTypesView>)
    requires
        0 <= p,
        forall|i: int| 0 <= i < bs.len() ==> bucket_reversible(#[trigger] bs[i]),
        p + enc_buckets(bs).len() <= b.len(),
        b.subrange(p, p + enc_buckets(bs).len()) == enc_buckets(bs),
    ensures
        parse_buckets(b, p, bs.len()) == Ok::<(Seq<BucketTypesView>, int), crate::types::DecodeError>(
            (Seq::new(bs.len(), |i: int| bare_bucket(bs[i])), p + enc_buckets(bs).len()),
        ),
    decreases bs.len(),
{
    if bs.len() == 0 {
        assert(Seq::new(0, |i: int| bare_bucket(bs[i])) =~= Seq::<BucketTypesView>::empty());
    } else {
        let prev = bs.drop_last();
        lemma_split(b, p, enc_buckets(prev), enc_bucket(bs.last()));
        assert forall|i: int| 0 <= i < prev.len() implies bucket_reversible(#[trigger] prev[i]) by {
            assert(prev[i] == bs[i]);
        }
        lemma_buckets_read(b, p, prev);
        lemma_bucket_read(b, p + enc_buckets(prev).len(), bs.last());
        assert(Seq::new(prev.len(), |i: int| bare_bucket(prev[i])).push(bare_bucket(bs.last()))
            =~= Seq::new(bs.len(), |i: int| bare_bucket(bs[i])));
    }
}

proof fn lemma_steps_read(b: Seq<u8>, p: int, ss: Seq<RuleStepView>)
    requires
        0 <= p,
        p + 12 * ss.len() <= b.len(),
        b.subrange(p, p + 12 * ss.len()) == enc_steps(ss),
    ensures
        parse_steps(b, p, ss.len()) == Ok::<Seq<RuleStepView>, crate::types::DecodeError>(
            bare_steps(ss),
        ),
    decreases ss.len(),
{
    lemma_enc_steps_len(ss);
    if ss.len() == 0 {
        assert(bare_steps(ss) =~= Seq::<RuleStepView>::empty());
    } else {
        let prev = ss.drop_last();
        let st = ss.last();
        let q = p + 12 * prev.len();
        lemma_enc_steps_len(prev);
        lemma_split(b, p, enc_steps(prev), enc_step(st));
        lemma_steps_read(b, p, prev);
        lemma_split(b, q, le_u32(st.op.code()) + le_i32(st.arg1.0), le_i32(st.arg2.0));
        lemma_split(b, q, le_u32(st.op.code()), le_i32(st.arg1.0));
        lemma_read_u32(b, q, st.op.code());
        lemma_read_i32(b, q + 4, st.arg1.0);
        lemma_read_i32(b, q + 8, st.arg2.0);
        assert(crate::types::OpCode::spec_from_code(st.op.code()) == Some(st.op));
        assert(bare_steps(prev).push(bare_step(st)) =~= bare_steps(ss));
    }
}

proof fn lemma_mask_read(b: Seq<u8>, p: int, m: CrushRuleMask)
    requires
        0 <= p,
        p + 4 <= b.len(),
        b.subrange(p, p + 4) == enc_mask(m),
    ensures
        parse_mask(b, p) == Ok::<CrushRuleMask, crate::types::DecodeError>(m),
{
    assert(b[p] == b.subrange(p, p + 4)[0]);
    assert(b[p + 1] == b.subrange(p, p + 4)[1]);
    assert(b[p + 2] == b.subrange(p, p + 4)[2]);
    assert(b[p + 3] == b.subrange(p, p + 4)[3]);
}

proof fn lemma_rule_read(b: Seq<u8>, p: int, r: Option<RuleView>)
    requires
        0 <= p,
        r matches Some(r) ==> r.steps.len() <= u32::MAX,
        p + enc_rule(r).len() <= b.len(),
        b.subrange(p, p + enc_rule(r).len()) == enc_rule(r),
    ensures
        parse_rule(b, p) == Ok::<(Option<RuleView>, int), crate::types::DecodeError>(
            (bare_rule(r), p + enc_rule(r).len()),
        ),
{
    match r {
        None => {
            lemma_read_u32(b, p, 0);
        },
        Some(rv) => {
            let n = rv.steps.len();
            lemma_enc_steps_len(rv.steps);
            let a1 = le_u32(1);
            let a2 = le_u32(n as u32);
            let a3 = enc_mask(rv.mask);
            let a4 = enc_steps(rv.steps);
            lemma_split(b, p, a1 + a2 + a3, a4);
            lemma_split(b, p, a1 + a2, a3);
            lemma_split(b, p, a1, a2);
            lemma_read_u32(b, p, 1);
            lemma_read_u32(b, p + 4, n as u32);
            lemma_mask_read(b, p + 8, rv.mask);
            lemma_steps_read(b, p + 12, rv.steps);
        },
    }
}

proof fn lemma_rules_read(b: Seq<u8>, p: int, rs: Seq<Option<RuleView>>)
    requires
        0 <= p,
        forall|k: int|
            0 <= k < rs.len() ==> (#[trigger] rs[k] matches Some(r) ==> r.steps.len() <= u32::MAX),
        p + enc_rules(rs).len() <= b.len(),
        b.subrange(p, p + enc_rules(rs).len()) == enc_rules(rs),
    ensures
        parse_rules(b, p, rs.len()) == Ok::<(Seq<Option<RuleView>>, int), crate::types::DecodeError>(
            (Seq::new(rs.len(), |i: int| bare_rule(rs[i])), p + enc_rules(rs).len()),
        ),
    decreases rs.len(),
{
    if rs.len() == 0 {
        assert(Seq::new(0, |i: int| bare_rule(rs[i])) =~= Seq::<Option<RuleView>>::empty());
    } else {
        let prev = rs.drop_last();
        lemma_split(b, p, enc_rules(prev), enc_rule(rs.last()));
        assert forall|k: int| 0 <= k < prev.len() implies (#[trigger] prev[k] matches Some(r)
            ==> r.steps.len() <= u32::MAX) by {
            assert(prev[k] == rs[k]);
        }
        lemma_rules_read(b, p, prev);
        lemma_rule_read(b, p + enc_rules(prev).len(), rs.last());
        assert(Seq::new(prev.len(), |i: int| bare_rule(prev[i])).push(bare_rule(rs.last()))
            =~= Seq::new(rs.len(), |i: int| bare_rule(rs[i])));
    }
}

proof fn lemma_string_read(b: Seq<u8>, p: int, s: Seq<char>)
    requires
        0 <= p,
        s.len() > 0,
        encode_utf8(s).len() <= u32::MAX,
        p + enc_string(s).len() <= b.len(),
        b.subrange(p, p + enc_string(s).len()) == enc_string(s),
    ensures
        parse_string(b, p) == Ok::<(Seq<char>, int), crate::types::DecodeError>(
            (s, p + enc_string(s).len()),
        ),
{
    let bytes = encode_utf8(s);
    assert(bytes.len() > 0);
    lemma_split(b, p, le_u32(bytes.len() as u32), bytes);
    lemma_read_u32(b, p, bytes.len() as u32);
    encode_utf8_valid_utf8(s);
    encode_utf8_decode_utf8(s);
}

proof fn lemma_entries_read(b: Seq<u8>, p: int, t: Seq<(i32, Seq<char>)>)
    requires
        0 <= p,
        names_nonempty(t),
        forall|k: int| 0 <= k < t.len() ==> encode_utf8(#[trigger] t[k].1).len() <= u32::MAX,
        p + enc_entries(t).len() <= b.len(),
        b.subrange(p, p + enc_entries(t).len()) == enc_entries(t),
    ensures
        parse_entries(b, p, t.len()) == Ok::<(Seq<(i32, Seq<char>)>, int), crate::types::DecodeError>(
            (t, p + enc_entries(t).len()),
        ),
    decreases t.len(),
{
    if t.len() == 0 {
        assert(t =~= Seq::<(i32, Seq<char>)>::empty());
    } else {
        let prev = t.drop_last();
        let e = t.last();
        assert(e == t[t.len() - 1]);
        lemma_split(b, p, enc_entries(prev) + le_i32(e.0), enc_string(e.1));
        lemma_split(b, p, enc_entries(prev), le_i32(e.0));
        assert forall|k: int| 0 <= k < prev.len() implies (#[trigger] prev[k]).1.len() > 0 by {
            assert(prev[k] == t[k]);
        }
        assert forall|k: int| 0 <= k < prev.len() implies encode_utf8(#[trigger] prev[k].1).len()
            <= u32::MAX by {
            assert(prev[k] == t[k]);
        }
        lemma_entries_read(b, p, prev);
        let q = p + enc_entries(prev).len();
        lemma_read_i32(b, q, e.0);
        lemma_string_read(b, q + 4, e.1);
        assert(prev.push(e) =~= t);
    }
}

proof fn lemma_table_read(b: Seq<u8>, p: int, t: Seq<(i32, Seq<char>)>)
    requires
        0 <= p,
        t.len() <= u32::MAX,
        names_nonempty(t),
        forall|k: int| 0 <= k < t.len() ==> encode_utf8(#[trigger] t[k].1).len() <= u32::MAX,
        p + enc_table(t).len() <= b.len(),
        b.subrange(p, p + enc_table(t).len()) == enc_table(t),
    ensures
        parse_table(b, p) == Ok::<(Seq<(i32, Seq<char>)>, int), crate::types::DecodeError>(
            (t, p + enc_table(t).len()),
        ),
{
    lemma_split(b, p, le_u32(t.len() as u32), enc_entries(t));
    lemma_read_u32(b, p, t.len() as u32);
    lemma_entries_read(b, p + 4, t);
}

/// `base` with every tunable of `m` present, zero where it was absent.
pub open spec fn filled_tunables(m: CrushMapView, base: CrushMapView) -> CrushMapView {
    CrushMapView {
        choose_local_tries: Some(or_zero_u32(m.choose_local_tries)),
        choose_local_fallback_tries: Some(or_zero_u32(m.choose_local_fallback_tries)),
        choose_total_tries: Some(or_zero_u32(m.choose_total_tries)),
        chooseleaf_descend_once: Some(or_zero_u32(m.chooseleaf_descend_once)),
        chooseleaf_vary_r: Some(or_zero_u8(m.chooseleaf_vary_r)),
        straw_calc_version: Some(or_zero_u8(m.straw_calc_version)),
        allowed_bucket_algorithms: Some(or_zero_u32(m.allowed_bucket_algorithms)),
        chooseleaf_stable: Some(or_zero_u8(m.chooseleaf_stable)),
        ..base
    }
}

proof fn lemma_tunables_read(b: Seq<u8>, p: int, m: CrushMapView, base: CrushMapView)
    requires
        0 <= p,
        p + 23 == b.len(),
        b.subrange(p, p + 23) == enc_tunables(m),
    ensures
        crate::decode::parse_tunables(b, p, base).0 == filled_tunables(m, base),
{
    let a1 = le_u32(or_zero_u32(m.choose_local_tries));
    let a2 = le_u32(or_zero_u32(m.choose_local_fallback_tries));
    let a3 = le_u32(or_zero_u32(m.choose_total_tries));
    let a4 = le_u32(or_zero_u32(m.chooseleaf_descend_once));
    let a5 = seq![or_zero_u8(m.chooseleaf_vary_r)];
    let a6 = seq![or_zero_u8(m.straw_calc_version)];
    let a7 = le_u32(or_zero_u32(m.allowed_bucket_algorithms));
    let a8 = seq![or_zero_u8(m.chooseleaf_stable)];
    lemma_split(b, p, a1 + a2 + a3 + a4 + a5 + a6 + a7, a8);
    lemma_split(b, p, a1 + a2 + a3 + a4 + a5 + a6, a7);
    lemma_split(b, p, a1 + a2 + a3 + a4 + a5, a6);
    lemma_split(b, p, a1 + a2 + a3 + a4, a5);
    lemma_split(b, p, a1 + a2 + a3, a4);
    lemma_split(b, p, a1 + a2, a3);
    lemma_split(b, p, a1, a2);
    lemma_read_u32(b, p, or_zero_u32(m.choose_local_tries));
    lemma_read_u32(b, p + 4, or_zero_u32(m.choose_local_fallback_tries));
    lemma_read_u32(b, p + 8, or_zero_u32(m.choose_total_tries));
    lemma_read_u32(b, p + 12, or_zero_u32(m.chooseleaf_descend_once));
    lemma_byte_at(b, p + 16, or_zero_u8(m.chooseleaf_vary_r));
    lemma_byte_at(b, p + 17, or_zero_u8(m.straw_calc_version));
    lemma_read_u32(b, p + 18, or_zero_u32(m.allowed_bucket_algorithms));
    lemma_byte_at(b, p + 22, or_zero_u8(m.chooseleaf_stable));
}

/// Where each part of the encoding of `m` starts.
pub open spec fn rules_at(m: CrushMapView) -> int {
    16 + enc_buckets(m.buckets).len() as int
}

pub open spec fn types_at(m: CrushMapView) -> int {
    rules_at(m) + enc_rules(m.rules).len() as int
}

pub open spec fn names_at(m: CrushMapView) -> int {
    types_at(m) + enc_table(m.type_map).len() as int
}

pub open spec fn rule_names_at(m: CrushMapView) -> int {
    names_at(m) + enc_table(m.name_map).len() as int
}

pub open spec fn tunables_at(m: CrushMapView) -> int {
    rule_names_at(m) + enc_table(m.rule_name_map).len() as int
}

/// The parts of the encoding of `m`, each where it starts.
proof fn lemma_map_parts(m: CrushMapView)
    ensures
        ({
            let b = enc_map(m);
            &&& b.len() == tunables_at(m) + 23
            &&& b.subrange(0, 4) == le_u32(CRUSH_MAGIC)
            &&& b.subrange(4, 8) == le_i32(m.max_buckets)
            &&& b.subrange(8, 12) == le_u32(m.max_rules)
            &&& b.subrange(12, 16) == le_i32(m.max_devices)
            &&& b.subrange(16, rules_at(m)) == enc_buckets(m.buckets)
            &&& b.subrange(rules_at(m), types_at(m)) == enc_rules(m.rules)
            &&& b.subrange(types_at(m), names_at(m)) == enc_table(m.type_map)
            &&& b.subrange(names_at(m), rule_names_at(m)) == enc_table(m.name_map)
            &&& b.subrange(rule_names_at(m), tunables_at(m)) == enc_table(m.rule_name_map)
            &&& b.subrange(tunables_at(m), tunables_at(m) + 23) == enc_tunables(m)
        }),
{
    let b = enc_map(m);
    let a1 = le_u32(CRUSH_MAGIC);
    let a2 = le_i32(m.max_buckets);
    let a3 = le_u32(m.max_rules);
    let a4 = le_i32(m.max_devices);
    let a5 = enc_buckets(m.buckets);
    let a6 = enc_rules(m.rules);
    let a7 = enc_table(m.type_map);
    let a8 = enc_table(m.name_map);
    let a9 = enc_table(m.rule_name_map);
    let a10 = enc_tunables(m);
    assert(a10.len() == 23);
    assert(b.subrange(0, b.len() as int) =~= b);
    lemma_split(b, 0, a1 + a2 + a3 + a4 + a5 + a6 + a7 + a8 + a9, a10);
    lemma_split(b, 0, a1 + a2 + a3 + a4 + a5 + a6 + a7 + a8, a9);
    lemma_split(b, 0, a1 + a2 + a3 + a4 + a5 + a6 + a7, a8);
    lemma_split(b, 0, a1 + a2 + a3 + a4 + a5 + a6, a7);
    lemma_split(b, 0, a1 + a2 + a3 + a4 + a5, a6);
    lemma_split(b, 0, a1 + a2 + a3 + a4, a5);
    lemma_split(b, 0, a1 + a2 + a3, a4);
    lemma_split(b, 0, a1 + a2, a3);
    lemma_split(b, 0, a1, a2);
}

proof fn lemma_encoded_map_parses(m: CrushMapView)
    requires
        reversible(m),
    ensures
        parse_map(enc_map(m)) == Ok::<CrushMapView, crate::types::DecodeError>(bare_map(m)),
{
    let b = enc_map(m);
    lemma_map_parts(m);
    lemma_read_u32(b, 0, CRUSH_MAGIC);
    lemma_read_i32(b, 4, m.max_buckets);
    lemma_read_u32(b, 8, m.max_rules);
    lemma_read_i32(b, 12, m.max_devices);
    lemma_buckets_read(b, 16, m.buckets);
    lemma_rules_read(b, rules_at(m), m.rules);
    lemma_table_read(b, types_at(m), m.type_map);
    lemma_table_read(b, names_at(m), m.name_map);
    lemma_table_read(b, rule_names_at(m), m.rule_name_map);
    let base = CrushMapView {
        magic: CRUSH_MAGIC,
        max_buckets: m.max_buckets,
        max_rules: m.max_rules,
        max_devices: m.max_devices,
        buckets: Seq::new(m.buckets.len(), |i: int| bare_bucket(m.buckets[i])),
        rules: Seq::new(m.rules.len(), |i: int| bare_rule(m.rules[i])),
        type_map: m.type_map,
        name_map: m.name_map,
        rule_name_map: m.rule_name_map,
        choose_local_tries: None,
        choose_local_fallback_tries: None,
        choose_total_tries: None,
        chooseleaf_descend_once: None,
        chooseleaf_vary_r: None,
        straw_calc_version: None,
        allowed_bucket_algorithms: None,
        chooseleaf_stable: None,
    };
    lemma_tunables_read(b, tunables_at(m), m, base);
}

// ---------------------------------------------------------------------
// What encoding drops does not change the bytes
// ---------------------------------------------------------------------

proof fn lemma_enc_bare_items(items: Seq<NamedIdView>)
    ensures
        enc_items(bare_items(items)) == enc_items(items),
    decreases items.len(),
{
    if items.len() > 0 {
        assert(bare_items(items).drop_last() =~= bare_items(items.drop_last()));
        lemma_enc_bare_items(items.drop_last());
    }
}

proof fn lemma_enc_bare_bucket(x: BucketTypesView)
    ensures
        enc_bucket(bare_bucket(x)) == enc_bucket(x),
{
    match x {
        BucketTypesView::Uniform(h, _) => lemma_enc_bare_items(h.items),
        BucketTypesView::List(h, _) => lemma_enc_bare_items(h.items),
        BucketTypesView::Tree(h, _, _) => lemma_enc_bare_items(h.items),
        BucketTypesView::Straw(h, _) => lemma_enc_bare_items(h.items),
        BucketTypesView::Straw2(h, _) => lemma_enc_bare_items(h.items),
        BucketTypesView::Unknown(_) => {},
    }
}

proof fn lemma_enc_bare_buckets(bs: Seq<BucketTypesView>)
    ensures
        enc_buckets(Seq::new(bs.len(), |i: int| bare_bucket(bs[i]))) == enc_buckets(bs),
    decreases bs.len(),
{
    if bs.len() > 0 {
        let prev = bs.drop_last();
        assert(Seq::new(bs.len(), |i: int| bare_bucket(bs[i])).drop_last() =~= Seq::new(
            prev.len(),
            |i: int| bare_bucket(prev[i]),
        ));
        lemma_enc_bare_buckets(prev);
        lemma_enc_bare_bucket(bs.last());
    }
}

proof fn lemma_enc_bare_steps(ss: Seq<RuleStepView>)
    ensures
        enc_steps(bare_steps(ss)) == enc_steps(ss),
    decreases ss.len(),
{
    if ss.len() > 0 {
        assert(bare_steps(ss).drop_last() =~= bare_steps(ss.drop_last()));
        lemma_enc_bare_steps(ss.drop_last());
    }
}

proof fn lemma_enc_bare_rules(rs: Seq<Option<RuleView>>)
    ensures
        enc_rules(Seq::new(rs.len(), |i: int| bare_rule(rs[i]))) == enc_rules(rs),
    decreases rs.len(),
{
    if rs.len() > 0 {
        let prev = rs.drop_last();
        assert(Seq::new(rs.len(), |i: int| bare_rule(rs[i])).drop_last() =~= Seq::new(
            prev.len(),
            |i: int| bare_rule(prev[i]),
        ));
        lemma_enc_bare_rules(prev);
        if let Some(r) = rs.last() {
            lemma_enc_bare_steps(r.steps);
        }
    }
}

/// The magic, the names outside the symbol tables, the permutation caches
/// and the absence of a tunable are not written: dropping them does not
/// change the bytes.
pub proof fn lemma_encoding_ignores_bare_fields(m: CrushMapView)
    ensures
        enc_map(bare_map(m)) == enc_map(m),
{
    lemma_enc_bare_buckets(m.buckets);
    lemma_enc_bare_rules(m.rules);
}

// ---------------------------------------------------------------------
// Laws
// ---------------------------------------------------------------------

/// Encoding a map and decoding the bytes gives the map back, up to what the
/// binary form does not carry: the magic becomes the current one, names are
/// looked up afresh in the symbol tables, the permutation caches are reset
/// and every tunable is present, zero where it was absent.
pub proof fn lemma_encode_decode_round_trip(m: CrushMapView)
    requires
        reversible(m),
    ensures
        spec_decode(enc_map(m)) == Ok::<CrushMapView, crate::types::DecodeError>(
            resolve_map(bare_map(m)),
        ),
{
    lemma_encoded_map_parses(m);
}

/// Decoding, encoding, decoding again and encoding again: the second pass
/// gives the same map and the same bytes as the first. This holds for every
/// input whose decoded map has no bucket of unknown algorithm, no bucket
/// whose kind differs from its header's algorithm, and no empty name.
pub proof fn lemma_reencoding_is_stable(b: Seq<u8>)
    requires
        spec_decode(b) is Ok,
        reversible(spec_decode(b)->Ok_0),
    ensures
        ({
            let m1 = spec_decode(b)->Ok_0;
            let m2 = spec_decode(enc_map(m1))->Ok_0;
            &&& spec_decode(enc_map(m1)) is Ok
            &&& enc_map(m2) == enc_map(m1)
            &&& spec_decode(enc_map(m2)) == Ok::<CrushMapView, crate::types::DecodeError>(m2)
        }),
{
    let m1 = spec_decode(b)->Ok_0;
    lemma_encode_decode_round_trip(m1);
    lemma_encoding_ignores_names(bare_map(m1));
    lemma_encoding_ignores_bare_fields(m1);
}

} // verus!
