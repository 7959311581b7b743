//! Reading a map from its binary form.
use vstd::prelude::*;
use crate::types::{
    BucketAlg, BucketTypes, BucketTypesView, BucketView, CrushBucketList, CrushBucketStraw,
    CrushBucketStraw2, CrushBucketTree, CrushBucketUniform, CrushHash, CrushMap, CrushMapView,
    CrushRuleMask, CrushRuleStep, Bucket, DecodeError, NamedId, NamedIdView, OpCode, Rule,
    RuleStepView, RuleType, RuleView, UnknownBucket, UnknownBucketView, bucket_well_formed,
    well_formed,
};
use crate::resolve::{resolve_bucket, resolve_map, update_buckets, update_rule_steps};
use crate::wire::{get_i32, get_u16, get_u32, get_u8, parse_string, read_i32, read_string, read_u16, read_u32};

verus! {

// ---------------------------------------------------------------------
// The grammar, as spec functions over the input and a position in it.
// Each returns what it read and the position after it, or the first failure.
// ---------------------------------------------------------------------

/// `n` item ids stored from `start`, four bytes each, with no names yet.
pub open spec fn read_items(b: Seq<u8>, start: int, n: nat) -> Seq<NamedIdView> {
    Seq::new(n, |i: int| (read_i32(b, start + 4 * i), None::<Seq<char>>))
}

/// `n` signed ids stored from `start`.
pub open spec fn read_ids(b: Seq<u8>, start: int, n: nat) -> Seq<i32> {
    Seq::new(n, |i: int| read_i32(b, start + 4 * i))
}

/// `n` weights stored from `start`.
pub open spec fn read_weights(b: Seq<u8>, start: int, n: nat) -> Seq<u32> {
    Seq::new(n, |i: int| read_u32(b, start + 4 * i))
}

/// `n` weight pairs stored from `start`, eight bytes each.
pub open spec fn read_weight_pairs(b: Seq<u8>, start: int, n: nat) -> Seq<(u32, u32)> {
    Seq::new(n, |i: int| (read_u32(b, start + 8 * i), read_u32(b, start + 8 * i + 4)))
}

/// The common header of a bucket of a known algorithm at `p`: the algorithm
/// tag, id, type, algorithm, hash, weight, size and the item ids.
pub open spec fn parse_header(b: Seq<u8>, p: int) -> Result<(BucketView, int), DecodeError> {
    if p + 11 > b.len() {
        Err(DecodeError::TruncatedInput)
    } else if BucketAlg::spec_from_code(b[p + 10] as u32) is None {
        Err(DecodeError::UnknownTag)
    } else if p + 12 > b.len() {
        Err(DecodeError::TruncatedInput)
    } else if CrushHash::spec_from_code(b[p + 11]) is None {
        Err(DecodeError::UnknownTag)
    } else if p + 20 > b.len() {
        Err(DecodeError::TruncatedInput)
    } else {
        let size = read_u32(b, p + 16);
        if p + 20 + 4 * size > b.len() {
            Err(DecodeError::TruncatedInput)
        } else {
            Ok(
                (
                    BucketView {
                        id: read_i32(b, p + 4),
                        bucket_type: read_u16(b, p + 8),
                        alg: BucketAlg::spec_from_code(b[p + 10] as u32)->Some_0,
                        hash: CrushHash::spec_from_code(b[p + 11])->Some_0,
                        weight: read_u32(b, p + 12),
                        size,
                        items: read_items(b, p + 20, size as nat),
                        perm_n: 0,
                        perm: size,
                    },
                    p + 20 + 4 * size,
                ),
            )
        }
    }
}

/// The weights that follow the header of a bucket, by algorithm.
pub open spec fn parse_payload(b: Seq<u8>, alg: BucketAlg, h: BucketView, q: int) -> Result<
    (BucketTypesView, int),
    DecodeError,
> {
    let n = h.size as int;
    match alg {
        BucketAlg::Uniform => if q + 4 > b.len() {
            Err(DecodeError::TruncatedInput)
        } else {
            Ok((BucketTypesView::Uniform(h, read_u32(b, q)), q + 4))
        },
        BucketAlg::List => if q + 8 * n > b.len() {
            Err(DecodeError::TruncatedInput)
        } else {
            Ok((BucketTypesView::List(h, read_weight_pairs(b, q, n as nat)), q + 8 * n))
        },
        BucketAlg::Tree => if q + 1 > b.len() {
            Err(DecodeError::TruncatedInput)
        } else if q + 1 + 4 * b[q] > b.len() {
            Err(DecodeError::TruncatedInput)
        } else {
            Ok(
                (
                    BucketTypesView::Tree(h, b[q], read_weights(b, q + 1, b[q] as nat)),
                    q + 1 + 4 * b[q],
                ),
            )
        },
        BucketAlg::Straw => if q + 8 * n > b.len() {
            Err(DecodeError::TruncatedInput)
        } else {
            Ok((BucketTypesView::Straw(h, read_weight_pairs(b, q, n as nat)), q + 8 * n))
        },
        BucketAlg::Straw2 => if q + 4 * n > b.len() {
            Err(DecodeError::TruncatedInput)
        } else {
            Ok((BucketTypesView::Straw2(h, read_weights(b, q, n as nat)), q + 4 * n))
        },
    }
}

/// A bucket of algorithm `alg` at `p`: header, then the weights of that algorithm.
pub open spec fn parse_bucket_body(b: Seq<u8>, p: int, alg: BucketAlg) -> Result<
    (BucketTypesView, int),
    DecodeError,
> {
    match parse_header(b, p) {
        Err(e) => Err(e),
        Ok((h, q)) => parse_payload(b, alg, h, q),
    }
}

/// A bucket whose algorithm tag is unknown: the header and the item ids are
/// read as raw values, and nothing after them.
pub open spec fn parse_unknown_bucket(b: Seq<u8>, p: int) -> Result<
    (BucketTypesView, int),
    DecodeError,
> {
    if p + 20 > b.len() {
        Err(DecodeError::TruncatedInput)
    } else {
        let size = read_u32(b, p + 16);
        if p + 20 + 4 * size > b.len() {
            Err(DecodeError::TruncatedInput)
        } else {
            Ok(
                (
                    BucketTypesView::Unknown(
                        UnknownBucketView {
                            alg_tag: read_u32(b, p),
                            id: read_i32(b, p + 4),
                            bucket_type: read_u16(b, p + 8),
                            alg_bits: b[p + 10],
                            hash_bits: b[p + 11],
                            weight: read_u32(b, p + 12),
                            size,
                            items: read_ids(b, p + 20, size as nat),
                        },
                    ),
                    p + 20 + 4 * size,
                ),
            )
        }
    }
}

/// One bucket slot at `p`, selected by the algorithm tag that opens it.
pub open spec fn parse_bucket(b: Seq<u8>, p: int) -> Result<(BucketTypesView, int), DecodeError> {
    if p + 4 > b.len() {
        Err(DecodeError::TruncatedInput)
    } else {
        match BucketAlg::spec_from_code(read_u32(b, p)) {
            None => parse_unknown_bucket(b, p),
            Some(alg) => parse_bucket_body(b, p, alg),
        }
    }
}

/// `n` bucket slots from `p`, one after the other.
pub open spec fn parse_buckets(b: Seq<u8>, p: int, n: nat) -> Result<
    (Seq<BucketTypesView>, int),
    DecodeError,
>
    decreases n,
{
    if n == 0 {
        Ok((Seq::empty(), p))
    } else {
        match parse_buckets(b, p, (n - 1) as nat) {
            Err(e) => Err(e),
            Ok((s, q)) => match parse_bucket(b, q) {
                Err(e) => Err(e),
                Ok((x, r)) => Ok((s.push(x), r)),
            },
        }
    }
}

/// A rule step at `p`: operation, then two arguments, twelve bytes in all.
pub open spec fn parse_step(b: Seq<u8>, p: int) -> Result<RuleStepView, DecodeError> {
    if p + 4 > b.len() {
        Err(DecodeError::TruncatedInput)
    } else if OpCode::spec_from_code(read_u32(b, p)) is None {
        Err(DecodeError::UnknownTag)
    } else if p + 12 > b.len() {
        Err(DecodeError::TruncatedInput)
    } else {
        Ok(
            RuleStepView {
                op: OpCode::spec_from_code(read_u32(b, p))->Some_0,
                arg1: (read_i32(b, p + 4), None),
                arg2: (read_i32(b, p + 8), None),
            },
        )
    }
}

/// `n` rule steps from `p`.
pub open spec fn parse_steps(b: Seq<u8>, p: int, n: nat) -> Result<Seq<RuleStepView>, DecodeError>
    decreases n,
{
    if n == 0 {
        Ok(Seq::empty())
    } else {
        match parse_steps(b, p, (n - 1) as nat) {
            Err(e) => Err(e),
            Ok(s) => match parse_step(b, p + 12 * (n - 1)) {
                Err(e) => Err(e),
                Ok(x) => Ok(s.push(x)),
            },
        }
    }
}

/// A rule mask at `p`: ruleset, rule type, minimum and maximum size, one byte each.
pub open spec fn parse_mask(b: Seq<u8>, p: int) -> Result<CrushRuleMask, DecodeError> {
    if p + 2 > b.len() {
        Err(DecodeError::TruncatedInput)
    } else if RuleType::spec_from_code(b[p + 1]) is None {
        Err(DecodeError::UnknownTag)
    } else if p + 4 > b.len() {
        Err(DecodeError::TruncatedInput)
    } else {
        Ok(
            CrushRuleMask {
                ruleset: b[p],
                rule_type: RuleType::spec_from_code(b[p + 1])->Some_0,
                min_size: b[p + 2],
                max_size: b[p + 3],
            },
        )
    }
}

/// A rule slot at `p`: a presence flag; when it is not zero, the step count,
/// the mask and the steps.
pub open spec fn parse_rule(b: Seq<u8>, p: int) -> Result<(Option<RuleView>, int), DecodeError> {
    if p + 4 > b.len() {
        Err(DecodeError::TruncatedInput)
    } else if read_u32(b, p) == 0 {
        Ok((None, p + 4))
    } else if p + 8 > b.len() {
        Err(DecodeError::TruncatedInput)
    } else {
        let n = read_u32(b, p + 4);
        match parse_mask(b, p + 8) {
            Err(e) => Err(e),
            Ok(mask) => match parse_steps(b, p + 12, n as nat) {
                Err(e) => Err(e),
                Ok(steps) => Ok((Some(RuleView { mask, steps }), p + 12 + 12 * n)),
            },
        }
    }
}

/// `n` rule slots from `p`.
pub open spec fn parse_rules(b: Seq<u8>, p: int, n: nat) -> Result<
    (Seq<Option<RuleView>>, int),
    DecodeError,
>
    decreases n,
{
    if n == 0 {
        Ok((Seq::empty(), p))
    } else {
        match parse_rules(b, p, (n - 1) as nat) {
            Err(e) => Err(e),
            Ok((s, q)) => match parse_rule(b, q) {
                Err(e) => Err(e),
                Ok((x, r)) => Ok((s.push(x), r)),
            },
        }
    }
}

/// A symbol table entry at `p`: an id, then a string.
pub open spec fn parse_entry(b: Seq<u8>, p: int) -> Result<((i32, Seq<char>), int), DecodeError> {
    if p + 4 > b.len() {
        Err(DecodeError::TruncatedInput)
    } else {
        match parse_string(b, p + 4) {
            Err(e) => Err(e),
            Ok((s, q)) => Ok(((read_i32(b, p), s), q)),
        }
    }
}

/// `n` symbol table entries from `p`.
pub open spec fn parse_entries(b: Seq<u8>, p: int, n: nat) -> Result<
    (Seq<(i32, Seq<char>)>, int),
    DecodeError,
>
    decreases n,
{
    if n == 0 {
        Ok((Seq::empty(), p))
    } else {
        match parse_entries(b, p, (n - 1) as nat) {
            Err(e) => Err(e),
            Ok((s, q)) => match parse_entry(b, q) {
                Err(e) => Err(e),
                Ok((x, r)) => Ok((s.push(x), r)),
            },
        }
    }
}

/// A symbol table at `p`: an entry count, then the entries.
pub open spec fn parse_table(b: Seq<u8>, p: int) -> Result<
    (Seq<(i32, Seq<char>)>, int),
    DecodeError,
> {
    if p + 4 > b.len() {
        Err(DecodeError::TruncatedInput)
    } else {
        parse_entries(b, p + 4, read_u32(b, p) as nat)
    }
}

/// An optional trailing `u32`: present when four bytes remain.
pub open spec fn opt_u32(b: Seq<u8>, p: int) -> (Option<u32>, int) {
    if p + 4 <= b.len() {
        (Some(read_u32(b, p)), p + 4)
    } else {
        (None, p)
    }
}

/// An optional trailing `u8`: present when a byte remains.
pub open spec fn opt_u8(b: Seq<u8>, p: int) -> (Option<u8>, int) {
    if p + 1 <= b.len() {
        (Some(b[p]), p + 1)
    } else {
        (None, p)
    }
}

/// The tunables that trail the symbol tables at `p`, each present only when
/// enough bytes remain for it. Returns the map's tunables and the end position.
pub open spec fn parse_tunables(b: Seq<u8>, p: int, m: CrushMapView) -> (CrushMapView, int) {
    let t1 = opt_u32(b, p);
    let t2 = opt_u32(b, t1.1);
    let t3 = opt_u32(b, t2.1);
    let t4 = opt_u32(b, t3.1);
    let t5 = opt_u8(b, t4.1);
    let t6 = opt_u8(b, t5.1);
    let t7 = opt_u32(b, t6.1);
    let t8 = opt_u8(b, t7.1);
    (
        CrushMapView {
            choose_local_tries: t1.0,
            choose_local_fallback_tries: t2.0,
            choose_total_tries: t3.0,
            chooseleaf_descend_once: t4.0,
            chooseleaf_vary_r: t5.0,
            straw_calc_version: t6.0,
            allowed_bucket_algorithms: t7.0,
            chooseleaf_stable: t8.0,
            ..m
        },
        t8.1,
    )
}

/// The whole map, before names are resolved: the preamble, the bucket
/// slots, the rule slots, the three symbol tables and the tunables. Also
/// returns where reading stopped. No input holds a negative number of
/// bucket slots, so a negative count fails as truncated input.
pub open spec fn parse_map_at(b: Seq<u8>) -> Result<(CrushMapView, int), DecodeError> {
    if 16 > b.len() {
        Err(DecodeError::TruncatedInput)
    } else if read_i32(b, 4) < 0 {
        Err(DecodeError::TruncatedInput)
    } else {
        let max_buckets = read_i32(b, 4);
        let max_rules = read_u32(b, 8);
        match parse_buckets(b, 16, max_buckets as nat) {
            Err(e) => Err(e),
            Ok((buckets, at_rules)) => match parse_rules(b, at_rules, max_rules as nat) {
                Err(e) => Err(e),
                Ok((rules, at_types)) => match parse_table(b, at_types) {
                    Err(e) => Err(e),
                    Ok((type_map, at_names)) => match parse_table(b, at_names) {
                        Err(e) => Err(e),
                        Ok((name_map, at_rule_names)) => match parse_table(b, at_rule_names) {
                            Err(e) => Err(e),
                            Ok((rule_name_map, at_tunables)) => {
                                let m = CrushMapView {
                                    magic: read_u32(b, 0),
                                    max_buckets,
                                    max_rules,
                                    max_devices: read_i32(b, 12),
                                    buckets,
                                    rules,
                                    type_map,
                                    name_map,
                                    rule_name_map,
                                    choose_local_tries: None,
                                    choose_local_fallback_tries: None,
                                    choose_total_tries: None,
                                    chooseleaf_descend_once: None,
                                    chooseleaf_vary_r: None,
                                    straw_calc_version: None,
                                    allowed_bucket_algorithms: None,
                                    chooseleaf_stable: None,
                                };
                                Ok(parse_tunables(b, at_tunables, m))
                            },
                        },
                    },
                },
            },
        }
    }
}

/// The whole map, before names are resolved.
pub open spec fn parse_map(b: Seq<u8>) -> Result<CrushMapView, DecodeError> {
    match parse_map_at(b) {
        Err(e) => Err(e),
        Ok((m, _)) => Ok(m),
    }
}

// ---------------------------------------------------------------------
// Executable readers
// ---------------------------------------------------------------------

fn read_item_ids(input: &[u8], start: usize, n: u32) -> (r: Vec<NamedId>)
    requires
        start + 4 * n <= input@.len(),
    ensures
        r.deep_view() == read_items(input@, start as int, n as nat),
{
    let mut v: Vec<NamedId> = Vec::new();
    let total = input.len();
    let mut i: u32 = 0;
    while i < n
        invariant
            i <= n,
            total == input@.len(),
            v@.len() == i,
            start + 4 * n <= input@.len(),
            v.deep_view() =~= read_items(input@, start as int, i as nat),
        decreases n - i,
    {
        let id = get_i32(input, start + 4 * (i as usize));
        let ghost prev = v@;
        let item: NamedId = (id, None);
        v.push(item);
        proof {
            lemma_deep_view_push(prev, item, v@);
        }
        i = i + 1;
        assert(v.deep_view() =~= read_items(input@, start as int, i as nat));
    }
    v
}

fn read_raw_ids(input: &[u8], start: usize, n: u32) -> (r: Vec<i32>)
    requires
        start + 4 * n <= input@.len(),
    ensures
        r@ == read_ids(input@, start as int, n as nat),
{
    let mut v: Vec<i32> = Vec::new();
    let total = input.len();
    let mut i: u32 = 0;
    while i < n
        invariant
            i <= n,
            total == input@.len(),
            v@.len() == i,
            start + 4 * n <= input@.len(),
            v@ =~= read_ids(input@, start as int, i as nat),
        decreases n - i,
    {
        let id = get_i32(input, start + 4 * (i as usize));
        v.push(id);
        i = i + 1;
        assert(v@ =~= read_ids(input@, start as int, i as nat));
    }
    v
}

fn read_u32_weights(input: &[u8], start: usize, n: u32) -> (r: Vec<u32>)
    requires
        start + 4 * n <= input@.len(),
    ensures
        r@ == read_weights(input@, start as int, n as nat),
{
    let mut v: Vec<u32> = Vec::new();
    let total = input.len();
    let mut i: u32 = 0;
    while i < n
        invariant
            i <= n,
            total == input@.len(),
            v@.len() == i,
            start + 4 * n <= input@.len(),
            v@ =~= read_weights(input@, start as int, i as nat),
        decreases n - i,
    {
        let w = get_u32(input, start + 4 * (i as usize));
        v.push(w);
        i = i + 1;
        assert(v@ =~= read_weights(input@, start as int, i as nat));
    }
    v
}

fn read_u32_pairs(input: &[u8], start: usize, n: u32) -> (r: Vec<(u32, u32)>)
    requires
        start + 8 * n <= input@.len(),
    ensures
        r@ == read_weight_pairs(input@, start as int, n as nat),
{
    let mut v: Vec<(u32, u32)> = Vec::new();
    let total = input.len();
    let mut i: u32 = 0;
    while i < n
        invariant
            i <= n,
            total == input@.len(),
            v@.len() == i,
            start + 8 * n <= input@.len(),
            v@ =~= read_weight_pairs(input@, start as int, i as nat),
        decreases n - i,
    {
        let at = start + 8 * (i as usize);
        let w0 = get_u32(input, at);
        let w1 = get_u32(input, at + 4);
        v.push((w0, w1));
        i = i + 1;
        assert(v@ =~= read_weight_pairs(input@, start as int, i as nat));
    }
    v
}

/// Whether `k` items of `width` bytes fit between `start` and the end of the input.
fn fits(input: &[u8], start: usize, width: u64, k: u32) -> (r: bool)
    requires
        start <= input@.len(),
        width <= 8,
    ensures
        r == (start + width * k <= input@.len()),
        input@.len() <= usize::MAX,
{
    assert(width * k <= 8 * 0xffff_ffffu64) by (nonlinear_arith)
        requires
            width <= 8,
            k <= 0xffff_ffffu64,
    ;
    ((input.len() - start) as u64) >= width * (k as u64)
}


proof fn lemma_deep_view_push<T: DeepView>(prev: Seq<T>, x: T, now: Seq<T>)
    requires
        now == prev.push(x),
    ensures
        Seq::new(now.len(), |k: int| now[k].deep_view()) =~= Seq::new(
            prev.len(),
            |k: int| prev[k].deep_view(),
        ).push(x.deep_view()),
{
}

proof fn lemma_buckets_err(b: Seq<u8>, p: int, k: nat, n: nat)
    requires
        k <= n,
        parse_buckets(b, p, k) is Err,
    ensures
        parse_buckets(b, p, n) == parse_buckets(b, p, k),
    decreases n - k,
{
    if k < n {
        lemma_buckets_err(b, p, k, (n - 1) as nat);
    }
}

proof fn lemma_steps_err(b: Seq<u8>, p: int, k: nat, n: nat)
    requires
        k <= n,
        parse_steps(b, p, k) is Err,
    ensures
        parse_steps(b, p, n) == parse_steps(b, p, k),
    decreases n - k,
{
    if k < n {
        lemma_steps_err(b, p, k, (n - 1) as nat);
    }
}

proof fn lemma_rules_err(b: Seq<u8>, p: int, k: nat, n: nat)
    requires
        k <= n,
        parse_rules(b, p, k) is Err,
    ensures
        parse_rules(b, p, n) == parse_rules(b, p, k),
    decreases n - k,
{
    if k < n {
        lemma_rules_err(b, p, k, (n - 1) as nat);
    }
}

proof fn lemma_entries_err(b: Seq<u8>, p: int, k: nat, n: nat)
    requires
        k <= n,
        parse_entries(b, p, k) is Err,
    ensures
        parse_entries(b, p, n) == parse_entries(b, p, k),
    decreases n - k,
{
    if k < n {
        lemma_entries_err(b, p, k, (n - 1) as nat);
    }
}

impl Bucket {
    /// Reads the common header at `pos`, the algorithm tag that opens the slot included.
    fn parse(input: &[u8], pos: usize) -> (r: Result<(Bucket, usize), DecodeError>)
        requires
            pos <= input@.len(),
        ensures
            match r {
                Ok((x, q)) => parse_header(input@, pos as int) == Ok::<(BucketView, int), DecodeError>(
                    (x@, q as int),
                ),
                Err(e) => parse_header(input@, pos as int) == Err::<(BucketView, int), DecodeError>(e),
            },
    {
        let len = input.len();
        if len - pos < 11 {
            return Err(DecodeError::TruncatedInput);
        }
        let alg = match BucketAlg::from_code(get_u8(input, pos + 10) as u32) {
            Some(a) => a,
            None => return Err(DecodeError::UnknownTag),
        };
        if len - pos < 12 {
            return Err(DecodeError::TruncatedInput);
        }
        let hash = match CrushHash::from_code(get_u8(input, pos + 11)) {
            Some(h) => h,
            None => return Err(DecodeError::UnknownTag),
        };
        if len - pos < 20 {
            return Err(DecodeError::TruncatedInput);
        }
        let size = get_u32(input, pos + 16);
        if !fits(input, pos + 20, 4, size) {
            return Err(DecodeError::TruncatedInput);
        }
        let items = read_item_ids(input, pos + 20, size);
        let bucket = Bucket {
            id: get_i32(input, pos + 4),
            bucket_type: get_u16(input, pos + 8),
            alg,
            hash,
            weight: get_u32(input, pos + 12),
            size,
            items,
            perm_n: 0,
            perm: size,
        };
        Ok((bucket, pos + 20 + 4 * (size as usize)))
    }
}

impl CrushBucketUniform {
    fn parse(input: &[u8], pos: usize) -> (r: Result<(Self, usize), DecodeError>)
        requires
            pos <= input@.len(),
        ensures
            match r {
                Ok((x, q)) => parse_bucket_body(input@, pos as int, BucketAlg::Uniform) == Ok::<
                    (BucketTypesView, int),
                    DecodeError,
                >((BucketTypesView::Uniform(x.bucket@, x.item_weight), q as int)),
                Err(e) => parse_bucket_body(input@, pos as int, BucketAlg::Uniform) == Err::<
                    (BucketTypesView, int),
                    DecodeError,
                >(e),
            },
    {
        let (bucket, q) = match Bucket::parse(input, pos) {
            Ok(v) => v,
            Err(e) => return Err(e),
        };
        if !fits(input, q, 4, 1) {
            return Err(DecodeError::TruncatedInput);
        }
        let item_weight = get_u32(input, q);
        Ok((CrushBucketUniform { bucket, item_weight }, q + 4))
    }
}

impl CrushBucketList {
    fn parse(input: &[u8], pos: usize) -> (r: Result<(Self, usize), DecodeError>)
        requires
            pos <= input@.len(),
        ensures
            match r {
                Ok((x, q)) => parse_bucket_body(input@, pos as int, BucketAlg::List) == Ok::<
                    (BucketTypesView, int),
                    DecodeError,
                >((BucketTypesView::List(x.bucket@, x.item_weights@), q as int)),
                Err(e) => parse_bucket_body(input@, pos as int, BucketAlg::List) == Err::<
                    (BucketTypesView, int),
                    DecodeError,
                >(e),
            },
    {
        let (bucket, q) = match Bucket::parse(input, pos) {
            Ok(v) => v,
            Err(e) => return Err(e),
        };
        if !fits(input, q, 8, bucket.size) {
            return Err(DecodeError::TruncatedInput);
        }
        let item_weights = read_u32_pairs(input, q, bucket.size);
        let end = q + 8 * (bucket.size as usize);
        Ok((CrushBucketList { bucket, item_weights }, end))
    }
}

impl CrushBucketTree {
    fn parse(input: &[u8], pos: usize) -> (r: Result<(Self, usize), DecodeError>)
        requires
            pos <= input@.len(),
        ensures
            match r {
                Ok((x, q)) => parse_bucket_body(input@, pos as int, BucketAlg::Tree) == Ok::<
                    (BucketTypesView, int),
                    DecodeError,
                >((BucketTypesView::Tree(x.bucket@, x.num_nodes, x.node_weights@), q as int)),
                Err(e) => parse_bucket_body(input@, pos as int, BucketAlg::Tree) == Err::<
                    (BucketTypesView, int),
                    DecodeError,
                >(e),
            },
    {
        let (bucket, q) = match Bucket::parse(input, pos) {
            Ok(v) => v,
            Err(e) => return Err(e),
        };
        if !fits(input, q, 1, 1) {
            return Err(DecodeError::TruncatedInput);
        }
        let num_nodes = get_u8(input, q);
        if !fits(input, q + 1, 4, num_nodes as u32) {
            return Err(DecodeError::TruncatedInput);
        }
        let node_weights = read_u32_weights(input, q + 1, num_nodes as u32);
        Ok((CrushBucketTree { bucket, num_nodes, node_weights }, q + 1 + 4 * (num_nodes as usize)))
    }
}

impl CrushBucketStraw {
    fn parse(input: &[u8], pos: usize) -> (r: Result<(Self, usize), DecodeError>)
        requires
            pos <= input@.len(),
        ensures
            match r {
                Ok((x, q)) => parse_bucket_body(input@, pos as int, BucketAlg::Straw) == Ok::<
                    (BucketTypesView, int),
                    DecodeError,
                >((BucketTypesView::Straw(x.bucket@, x.item_weights@), q as int)),
                Err(e) => parse_bucket_body(input@, pos as int, BucketAlg::Straw) == Err::<
                    (BucketTypesView, int),
                    DecodeError,
                >(e),
            },
    {
        let (bucket, q) = match Bucket::parse(input, pos) {
            Ok(v) => v,
            Err(e) => return Err(e),
        };
        if !fits(input, q, 8, bucket.size) {
            return Err(DecodeError::TruncatedInput);
        }
        let item_weights = read_u32_pairs(input, q, bucket.size);
        let end = q + 8 * (bucket.size as usize);
        Ok((CrushBucketStraw { bucket, item_weights }, end))
    }
}

impl CrushBucketStraw2 {
    fn parse(input: &[u8], pos: usize) -> (r: Result<(Self, usize), DecodeError>)
        requires
            pos <= input@.len(),
        ensures
            match r {
                Ok((x, q)) => parse_bucket_body(input@, pos as int, BucketAlg::Straw2) == Ok::<
                    (BucketTypesView, int),
                    DecodeError,
                >((BucketTypesView::Straw2(x.bucket@, x.item_weights@), q as int)),
                Err(e) => parse_bucket_body(input@, pos as int, BucketAlg::Straw2) == Err::<
                    (BucketTypesView, int),
                    DecodeError,
                >(e),
            },
    {
        let (bucket, q) = match Bucket::parse(input, pos) {
            Ok(v) => v,
            Err(e) => return Err(e),
        };
        if !fits(input, q, 4, bucket.size) {
            return Err(DecodeError::TruncatedInput);
        }
        let item_weights = read_u32_weights(input, q, bucket.size);
        let end = q + 4 * (bucket.size as usize);
        Ok((CrushBucketStraw2 { bucket, item_weights }, end))
    }
}

impl UnknownBucket {
    fn parse(input: &[u8], pos: usize) -> (r: Result<(Self, usize), DecodeError>)
        requires
            pos <= input@.len(),
        ensures
            match r {
                Ok((x, q)) => parse_unknown_bucket(input@, pos as int) == Ok::<
                    (BucketTypesView, int),
                    DecodeError,
                >((BucketTypesView::Unknown(x@), q as int)),
                Err(e) => parse_unknown_bucket(input@, pos as int) == Err::<
                    (BucketTypesView, int),
                    DecodeError,
                >(e),
            },
    {
        if input.len() - pos < 20 {
            return Err(DecodeError::TruncatedInput);
        }
        let size = get_u32(input, pos + 16);
        if !fits(input, pos + 20, 4, size) {
            return Err(DecodeError::TruncatedInput);
        }
        let items = read_raw_ids(input, pos + 20, size);
        let bucket = UnknownBucket {
            alg_tag: get_u32(input, pos),
            id: get_i32(input, pos + 4),
            bucket_type: get_u16(input, pos + 8),
            alg_bits: get_u8(input, pos + 10),
            hash_bits: get_u8(input, pos + 11),
            weight: get_u32(input, pos + 12),
            size,
            items,
        };
        Ok((bucket, pos + 20 + 4 * (size as usize)))
    }
}

/// Reads one bucket slot at `pos`, whose algorithm tag selects its shape.
fn parse_bucket_slot(input: &[u8], pos: usize) -> (r: Result<(BucketTypes, usize), DecodeError>)
    requires
        pos <= input@.len(),
    ensures
        match r {
            Ok((x, q)) => parse_bucket(input@, pos as int) == Ok::<(BucketTypesView, int), DecodeError>(
                (x@, q as int),
            ),
            Err(e) => parse_bucket(input@, pos as int) == Err::<(BucketTypesView, int), DecodeError>(e),
        },
{
    if input.len() - pos < 4 {
        return Err(DecodeError::TruncatedInput);
    }
    match BucketAlg::from_code(get_u32(input, pos)) {
        None => match UnknownBucket::parse(input, pos) {
            Ok((b, q)) => Ok((BucketTypes::Unknown(b), q)),
            Err(e) => Err(e),
        },
        Some(BucketAlg::Uniform) => match CrushBucketUniform::parse(input, pos) {
            Ok((b, q)) => Ok((BucketTypes::Uniform(b), q)),
            Err(e) => Err(e),
        },
        Some(BucketAlg::List) => match CrushBucketList::parse(input, pos) {
            Ok((b, q)) => Ok((BucketTypes::List(b), q)),
            Err(e) => Err(e),
        },
        Some(BucketAlg::Tree) => match CrushBucketTree::parse(input, pos) {
            Ok((b, q)) => Ok((BucketTypes::Tree(b), q)),
            Err(e) => Err(e),
        },
        Some(BucketAlg::Straw) => match CrushBucketStraw::parse(input, pos) {
            Ok((b, q)) => Ok((BucketTypes::Straw(b), q)),
            Err(e) => Err(e),
        },
        Some(BucketAlg::Straw2) => match CrushBucketStraw2::parse(input, pos) {
            Ok((b, q)) => Ok((BucketTypes::Straw2(b), q)),
            Err(e) => Err(e),
        },
    }
}

impl CrushRuleStep {
    fn parse(input: &[u8], pos: usize) -> (r: Result<CrushRuleStep, DecodeError>)
        requires
            pos <= input@.len(),
        ensures
            match r {
                Ok(x) => parse_step(input@, pos as int) == Ok::<RuleStepView, DecodeError>(x@),
                Err(e) => parse_step(input@, pos as int) == Err::<RuleStepView, DecodeError>(e),
            },
    {
        if input.len() - pos < 4 {
            return Err(DecodeError::TruncatedInput);
        }
        let op = match OpCode::from_code(get_u32(input, pos)) {
            Some(op) => op,
            None => return Err(DecodeError::UnknownTag),
        };
        if input.len() - pos < 12 {
            return Err(DecodeError::TruncatedInput);
        }
        let arg1 = get_i32(input, pos + 4);
        let arg2 = get_i32(input, pos + 8);
        Ok(CrushRuleStep { op, arg1: (arg1, None), arg2: (arg2, None) })
    }
}

impl CrushRuleMask {
    fn parse(input: &[u8], pos: usize) -> (r: Result<CrushRuleMask, DecodeError>)
        requires
            pos <= input@.len(),
        ensures
            match r {
                Ok(x) => parse_mask(input@, pos as int) == Ok::<CrushRuleMask, DecodeError>(x),
                Err(e) => parse_mask(input@, pos as int) == Err::<CrushRuleMask, DecodeError>(e),
            },
    {
        if input.len() - pos < 2 {
            return Err(DecodeError::TruncatedInput);
        }
        let rule_type = match RuleType::from_code(get_u8(input, pos + 1)) {
            Some(t) => t,
            None => return Err(DecodeError::UnknownTag),
        };
        if input.len() - pos < 4 {
            return Err(DecodeError::TruncatedInput);
        }
        Ok(
            CrushRuleMask {
                ruleset: get_u8(input, pos),
                rule_type,
                min_size: get_u8(input, pos + 2),
                max_size: get_u8(input, pos + 3),
            },
        )
    }
}

impl Rule {
    /// Reads one rule slot at `pos`; a zero presence flag is an empty slot.
    fn parse(input: &[u8], pos: usize) -> (r: Result<(Option<Rule>, usize), DecodeError>)
        requires
            pos <= input@.len(),
        ensures
            match r {
                Ok((x, q)) => parse_rule(input@, pos as int) == Ok::<
                    (Option<RuleView>, int),
                    DecodeError,
                >((x.deep_view(), q as int)),
                Err(e) => parse_rule(input@, pos as int) == Err::<(Option<RuleView>, int), DecodeError>(
                    e,
                ),
            },
    {
        let total = input.len();
        if total - pos < 4 {
            return Err(DecodeError::TruncatedInput);
        }
        if get_u32(input, pos) == 0 {
            return Ok((None, pos + 4));
        }
        if total - pos < 8 {
            return Err(DecodeError::TruncatedInput);
        }
        let n = get_u32(input, pos + 4);
        let mask = match CrushRuleMask::parse(input, pos + 8) {
            Ok(m) => m,
            Err(e) => return Err(e),
        };
        let start = pos + 12;
        let mut steps: Vec<CrushRuleStep> = Vec::new();
        assert(steps.deep_view() =~= Seq::<RuleStepView>::empty());
        let mut i: u32 = 0;
        while i < n
            invariant
                i <= n,
                total == input@.len(),
                start == pos + 12,
                pos + 8 <= input@.len(),
                read_u32(input@, pos as int) != 0,
                n == read_u32(input@, pos as int + 4),
                parse_mask(input@, pos + 8) == Ok::<CrushRuleMask, DecodeError>(mask),
                start + 12 * i <= input@.len(),
                steps@.len() == i,
                parse_steps(input@, start as int, i as nat) == Ok::<Seq<RuleStepView>, DecodeError>(
                    steps.deep_view(),
                ),
            decreases n - i,
        {
            let at = start + 12 * (i as usize);
            match CrushRuleStep::parse(input, at) {
                Ok(step) => {
                    let ghost prev = steps@;
                    steps.push(step);
                    proof {
                        lemma_deep_view_push(prev, step, steps@);
                    }
                },
                Err(e) => {
                    assert(parse_steps(input@, start as int, (i + 1) as nat) == Err::<
                        Seq<RuleStepView>,
                        DecodeError,
                    >(e));
                    proof {
                        lemma_steps_err(input@, start as int, (i + 1) as nat, n as nat);
                    }
                    return Err(e);
                },
            }
            i = i + 1;
        }
        Ok((Some(Rule { mask, steps }), start + 12 * (n as usize)))
    }
}

/// Reads a symbol table at `pos`: an entry count, then (id, string) pairs.
fn parse_string_map(input: &[u8], pos: usize) -> (r: Result<(Vec<(i32, String)>, usize), DecodeError>)
    requires
        pos <= input@.len(),
    ensures
        match r {
            Ok((x, q)) => parse_table(input@, pos as int) == Ok::<
                (Seq<(i32, Seq<char>)>, int),
                DecodeError,
            >((x.deep_view(), q as int)),
            Err(e) => parse_table(input@, pos as int) == Err::<(Seq<(i32, Seq<char>)>, int), DecodeError>(
                e,
            ),
        },
{
    let total = input.len();
    if total - pos < 4 {
        return Err(DecodeError::TruncatedInput);
    }
    let n = get_u32(input, pos);
    let start = pos + 4;
    let mut at = start;
    let mut entries: Vec<(i32, String)> = Vec::new();
    assert(entries.deep_view() =~= Seq::<(i32, Seq<char>)>::empty());
    let mut i: u32 = 0;
    while i < n
        invariant
            i <= n,
            total == input@.len(),
            start == pos + 4,
            pos + 4 <= input@.len(),
            n == read_u32(input@, pos as int),
            at <= input@.len(),
            entries@.len() == i,
            parse_entries(input@, start as int, i as nat) == Ok::<
                (Seq<(i32, Seq<char>)>, int),
                DecodeError,
            >((entries.deep_view(), at as int)),
        decreases n - i,
    {
        if total - at < 4 {
            assert(parse_entries(input@, start as int, (i + 1) as nat) == Err::<
                (Seq<(i32, Seq<char>)>, int),
                DecodeError,
            >(DecodeError::TruncatedInput));
            proof {
                lemma_entries_err(input@, start as int, (i + 1) as nat, n as nat);
            }
            return Err(DecodeError::TruncatedInput);
        }
        let id = get_i32(input, at);
        match read_string(input, at + 4) {
            Ok((name, next)) => {
                let ghost prev = entries@;
                let entry = (id, name);
                entries.push(entry);
                proof {
                    lemma_deep_view_push(prev, entry, entries@);
                }
                at = next;
            },
            Err(e) => {
                assert(parse_entries(input@, start as int, (i + 1) as nat) == Err::<
                    (Seq<(i32, Seq<char>)>, int),
                    DecodeError,
                >(e));
                proof {
                    lemma_entries_err(input@, start as int, (i + 1) as nat, n as nat);
                }
                return Err(e);
            },
        }
        i = i + 1;
    }
    Ok((entries, at))
}

/// Reads a trailing `u32` when four bytes remain.
fn try_le_u32(input: &[u8], pos: usize) -> (r: (Option<u32>, usize))
    requires
        pos <= input@.len(),
    ensures
        (r.0, r.1 as int) == opt_u32(input@, pos as int),
{
    if input.len() - pos < 4 {
        (None, pos)
    } else {
        (Some(get_u32(input, pos)), pos + 4)
    }
}

/// Reads a trailing `u8` when a byte remains.
fn try_le_u8(input: &[u8], pos: usize) -> (r: (Option<u8>, usize))
    requires
        pos <= input@.len(),
    ensures
        (r.0, r.1 as int) == opt_u8(input@, pos as int),
{
    if input.len() - pos < 1 {
        (None, pos)
    } else {
        (Some(get_u8(input, pos)), pos + 1)
    }
}

/// Reads a whole map, in stream order, without resolving names.
pub fn parse_crushmap(input: &[u8]) -> (r: Result<CrushMap, DecodeError>)
    ensures
        match r {
            Ok(m) => parse_map(input@) == Ok::<CrushMapView, DecodeError>(m@),
            Err(e) => parse_map(input@) == Err::<CrushMapView, DecodeError>(e),
        },
{
    let total = input.len();
    if total < 16 {
        return Err(DecodeError::TruncatedInput);
    }
    let magic = get_u32(input, 0);
    let max_buckets = get_i32(input, 4);
    let max_rules = get_u32(input, 8);
    let max_devices = get_i32(input, 12);
    if max_buckets < 0 {
        return Err(DecodeError::TruncatedInput);
    }
    let nb = max_buckets as u32;
    let mut buckets: Vec<BucketTypes> = Vec::new();
    assert(buckets.deep_view() =~= Seq::<BucketTypesView>::empty());
    let mut at: usize = 16;
    let mut i: u32 = 0;
    while i < nb
        invariant
            i <= nb,
            total == input@.len(),
            16 <= input@.len(),
            max_buckets == read_i32(input@, 4),
            0 <= max_buckets,
            nb as int == max_buckets as int,
            at <= input@.len(),
            buckets@.len() == i,
            parse_buckets(input@, 16, i as nat) == Ok::<(Seq<BucketTypesView>, int), DecodeError>(
                (buckets.deep_view(), at as int),
            ),
        decreases nb - i,
    {
        match parse_bucket_slot(input, at) {
            Ok((bucket, next)) => {
                let ghost prev = buckets@;
                buckets.push(bucket);
                proof {
                    lemma_deep_view_push(prev, bucket, buckets@);
                }
                at = next;
            },
            Err(e) => {
                assert(parse_buckets(input@, 16, (i + 1) as nat) == Err::<
                    (Seq<BucketTypesView>, int),
                    DecodeError,
                >(e));
                proof {
                    lemma_buckets_err(input@, 16, (i + 1) as nat, nb as nat);
                }
                return Err(e);
            },
        }
        i = i + 1;
    }
    let ghost after_buckets = at;
    let mut rules: Vec<Option<Rule>> = Vec::new();
    assert(rules.deep_view() =~= Seq::<Option<RuleView>>::empty());
    let mut j: u32 = 0;
    while j < max_rules
        invariant
            j <= max_rules,
            total == input@.len(),
            16 <= input@.len(),
            max_buckets == read_i32(input@, 4),
            0 <= max_buckets,
            max_rules == read_u32(input@, 8),
            after_buckets <= at <= input@.len(),
            parse_buckets(input@, 16, max_buckets as nat) == Ok::<
                (Seq<BucketTypesView>, int),
                DecodeError,
            >((buckets.deep_view(), after_buckets as int)),
            rules@.len() == j,
            parse_rules(input@, after_buckets as int, j as nat) == Ok::<
                (Seq<Option<RuleView>>, int),
                DecodeError,
            >((rules.deep_view(), at as int)),
        decreases max_rules - j,
    {
        match Rule::parse(input, at) {
            Ok((rule, next)) => {
                let ghost prev = rules@;
                rules.push(rule);
                proof {
                    lemma_deep_view_push(prev, rule, rules@);
                }
                at = next;
            },
            Err(e) => {
                assert(parse_rules(input@, after_buckets as int, (j + 1) as nat) == Err::<
                    (Seq<Option<RuleView>>, int),
                    DecodeError,
                >(e));
                proof {
                    lemma_rules_err(input@, after_buckets as int, (j + 1) as nat, max_rules as nat);
                }
                return Err(e);
            },
        }
        j = j + 1;
    }
    let (type_map, at) = match parse_string_map(input, at) {
        Ok(v) => v,
        Err(e) => return Err(e),
    };
    let (name_map, at) = match parse_string_map(input, at) {
        Ok(v) => v,
        Err(e) => return Err(e),
    };
    let (rule_name_map, at) = match parse_string_map(input, at) {
        Ok(v) => v,
        Err(e) => return Err(e),
    };
    let (choose_local_tries, at) = try_le_u32(input, at);
    let (choose_local_fallback_tries, at) = try_le_u32(input, at);
    let (choose_total_tries, at) = try_le_u32(input, at);
    let (chooseleaf_descend_once, at) = try_le_u32(input, at);
    let (chooseleaf_vary_r, at) = try_le_u8(input, at);
    let (straw_calc_version, at) = try_le_u8(input, at);
    let (allowed_bucket_algorithms, at) = try_le_u32(input, at);
    let (chooseleaf_stable, _at) = try_le_u8(input, at);
    Ok(
        CrushMap {
            magic,
            max_buckets,
            max_rules,
            max_devices,
            buckets,
            rules,
            type_map,
            name_map,
            rule_name_map,
            choose_local_tries,
            choose_local_fallback_tries,
            choose_total_tries,
            chooseleaf_descend_once,
            chooseleaf_vary_r,
            straw_calc_version,
            allowed_bucket_algorithms,
            chooseleaf_stable,
        },
    )
}

/// What decoding `b` gives: the map in stream order, with names resolved.
pub open spec fn spec_decode(b: Seq<u8>) -> Result<CrushMapView, DecodeError> {
    match parse_map(b) {
        Err(e) => Err(e),
        Ok(m) => Ok(resolve_map(m)),
    }
}

pub proof fn lemma_parse_buckets_len(b: Seq<u8>, p: int, n: nat)
    requires
        parse_buckets(b, p, n) is Ok,
    ensures
        parse_buckets(b, p, n)->Ok_0.0.len() == n,
        forall|i: int|
            0 <= i < n ==> bucket_well_formed(#[trigger] parse_buckets(b, p, n)->Ok_0.0[i]),
    decreases n,
{
    if n > 0 {
        lemma_parse_buckets_len(b, p, (n - 1) as nat);
        let prev = parse_buckets(b, p, (n - 1) as nat)->Ok_0.0;
        let s = parse_buckets(b, p, n)->Ok_0.0;
        assert forall|i: int| 0 <= i < n implies bucket_well_formed(#[trigger] s[i]) by {
            if i < n - 1 {
                assert(s[i] == prev[i]);
            }
        }
    }
}

pub proof fn lemma_parse_rules_len(b: Seq<u8>, p: int, n: nat)
    requires
        parse_rules(b, p, n) is Ok,
    ensures
        parse_rules(b, p, n)->Ok_0.0.len() == n,
    decreases n,
{
    if n > 0 {
        lemma_parse_rules_len(b, p, (n - 1) as nat);
    }
}

/// A decoded map holds exactly as many bucket slots and rule slots as its
/// preamble declares, and each bucket slot as many items and weights as its
/// counts say.
pub proof fn lemma_decoded_slot_counts(b: Seq<u8>)
    requires
        spec_decode(b) is Ok,
    ensures
        spec_decode(b)->Ok_0.buckets.len() == spec_decode(b)->Ok_0.max_buckets,
        spec_decode(b)->Ok_0.rules.len() == spec_decode(b)->Ok_0.max_rules,
        well_formed(spec_decode(b)->Ok_0),
{
    let max_buckets = read_i32(b, 4);
    lemma_parse_buckets_len(b, 16, max_buckets as nat);
    let at_rules = parse_buckets(b, 16, max_buckets as nat)->Ok_0.1;
    lemma_parse_rules_len(b, at_rules, read_u32(b, 8) as nat);
    let raw = parse_map(b)->Ok_0;
    let m = spec_decode(b)->Ok_0;
    assert forall|i: int| 0 <= i < m.buckets.len() implies bucket_well_formed(
        #[trigger] m.buckets[i],
    ) by {
        assert(m.buckets[i] == resolve_bucket(raw.buckets[i], raw.name_map));
        assert(bucket_well_formed(raw.buckets[i]));
    }
}

/// Decodes a map and resolves the names of bucket items (from the name
/// table) and of rule step arguments (from the type table).
pub fn decode_crushmap(input: &[u8]) -> (r: Result<CrushMap, DecodeError>)
    ensures
        match r {
            Ok(m) => spec_decode(input@) == Ok::<CrushMapView, DecodeError>(m@),
            Err(e) => spec_decode(input@) == Err::<CrushMapView, DecodeError>(e),
        },
        r matches Ok(m) ==> m.buckets@.len() == m.max_buckets && m.rules@.len() == m.max_rules,
        r matches Ok(m) ==> well_formed(m@),
{
    let mut map = match parse_crushmap(input) {
        Ok(m) => m,
        Err(e) => return Err(e),
    };
    update_rule_steps(&mut map.rules, &map.type_map);
    update_buckets(&mut map.buckets, &map.name_map);
    proof {
        lemma_decoded_slot_counts(input@);
    }
    Ok(map)
}

} // verus!
