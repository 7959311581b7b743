//! Writing a map in its binary form.
use vstd::prelude::*;
use vstd::seq_lib::lemma_concat_associative;
use crate::types::{
    Bucket, BucketTypes, BucketTypesView, BucketView, CrushBucketList, CrushBucketStraw,
    CrushBucketStraw2, CrushBucketTree, CrushBucketUniform, CrushMap, CrushMapView, CrushRuleMask,
    CrushRuleStep, EncodingError, NamedIdView, Rule, RuleStepView, RuleView, CRUSH_MAGIC,
};
use crate::wire::{
    enc_string, le_i32, le_u16, le_u32, put_i32, put_u16, put_u32, put_u8, string_fits,
    write_string,
};

verus! {

// ---------------------------------------------------------------------
// The bytes that encoding produces, as spec functions over the model.
// ---------------------------------------------------------------------

/// Item ids, four bytes each; names are not written.
pub open spec fn enc_items(items: Seq<NamedIdView>) -> Seq<u8>
    decreases items.len(),
{
    if items.len() == 0 {
        Seq::empty()
    } else {
        enc_items(items.drop_last()) + le_i32(items.last().0)
    }
}

pub open spec fn enc_u32s(ws: Seq<u32>) -> Seq<u8>
    decreases ws.len(),
{
    if ws.len() == 0 {
        Seq::empty()
    } else {
        enc_u32s(ws.drop_last()) + le_u32(ws.last())
    }
}

pub open spec fn enc_pairs(ws: Seq<(u32, u32)>) -> Seq<u8>
    decreases ws.len(),
{
    if ws.len() == 0 {
        Seq::empty()
    } else {
        enc_pairs(ws.drop_last()) + le_u32(ws.last().0) + le_u32(ws.last().1)
    }
}

/// The algorithm tag, then the common header and the item ids.
pub open spec fn enc_header(h: BucketView) -> Seq<u8> {
    le_u32(h.alg.code()) + le_i32(h.id) + le_u16(h.bucket_type) + seq![h.alg.code() as u8]
        + seq![h.hash.code()] + le_u32(h.weight) + le_u32(h.size) + enc_items(h.items)
}

/// One bucket slot; an unknown bucket is written as a single zero tag.
pub open spec fn enc_bucket(x: BucketTypesView) -> Seq<u8> {
    match x {
        BucketTypesView::Uniform(h, w) => enc_header(h) + le_u32(w),
        BucketTypesView::List(h, ws) => enc_header(h) + enc_pairs(ws),
        BucketTypesView::Tree(h, n, ws) => enc_header(h) + seq![n] + enc_u32s(ws),
        BucketTypesView::Straw(h, ws) => enc_header(h) + enc_pairs(ws),
        BucketTypesView::Straw2(h, ws) => enc_header(h) + enc_u32s(ws),
        BucketTypesView::Unknown(_) => le_u32(0),
    }
}

pub open spec fn enc_buckets(bs: Seq<BucketTypesView>) -> Seq<u8>
    decreases bs.len(),
{
    if bs.len() == 0 {
        Seq::empty()
    } else {
        enc_buckets(bs.drop_last()) + enc_bucket(bs.last())
    }
}

pub open spec fn enc_step(s: RuleStepView) -> Seq<u8> {
    le_u32(s.op.code()) + le_i32(s.arg1.0) + le_i32(s.arg2.0)
}

pub open spec fn enc_steps(ss: Seq<RuleStepView>) -> Seq<u8>
    decreases ss.len(),
{
    if ss.len() == 0 {
        Seq::empty()
    } else {
        enc_steps(ss.drop_last()) + enc_step(ss.last())
    }
}

pub open spec fn enc_mask(m: CrushRuleMask) -> Seq<u8> {
    seq![m.ruleset, m.rule_type.code(), m.min_size, m.max_size]
}

/// A rule slot: presence 1, step count, mask and steps; an empty slot is a zero.
pub open spec fn enc_rule(r: Option<RuleView>) -> Seq<u8> {
    match r {
        None => le_u32(0),
        Some(r) => le_u32(1) + le_u32(r.steps.len() as u32) + enc_mask(r.mask) + enc_steps(r.steps),
    }
}

pub open spec fn enc_rules(rs: Seq<Option<RuleView>>) -> Seq<u8>
    decreases rs.len(),
{
    if rs.len() == 0 {
        Seq::empty()
    } else {
        enc_rules(rs.drop_last()) + enc_rule(rs.last())
    }
}

pub open spec fn enc_entries(t: Seq<(i32, Seq<char>)>) -> Seq<u8>
    decreases t.len(),
{
    if t.len() == 0 {
        Seq::empty()
    } else {
        enc_entries(t.drop_last()) + le_i32(t.last().0) + enc_string(t.last().1)
    }
}

/// A symbol table: its entry count, then (id, string) pairs.
pub open spec fn enc_table(t: Seq<(i32, Seq<char>)>) -> Seq<u8> {
    le_u32(t.len() as u32) + enc_entries(t)
}

pub open spec fn or_zero_u32(x: Option<u32>) -> u32 {
    match x {
        Some(v) => v,
        None => 0,
    }
}

pub open spec fn or_zero_u8(x: Option<u8>) -> u8 {
    match x {
        Some(v) => v,
        None => 0,
    }
}

/// All eight tunables, zero where absent.
pub open spec fn enc_tunables(m: CrushMapView) -> Seq<u8> {
    enc_tunable_values(
        m.choose_local_tries,
        m.choose_local_fallback_tries,
        m.choose_total_tries,
        m.chooseleaf_descend_once,
        m.chooseleaf_vary_r,
        m.straw_calc_version,
        m.allowed_bucket_algorithms,
        m.chooseleaf_stable,
    )
}

pub open spec fn enc_tunable_values(
    t1: Option<u32>,
    t2: Option<u32>,
    t3: Option<u32>,
    t4: Option<u32>,
    t5: Option<u8>,
    t6: Option<u8>,
    t7: Option<u32>,
    t8: Option<u8>,
) -> Seq<u8> {
    le_u32(or_zero_u32(t1)) + le_u32(or_zero_u32(t2)) + le_u32(or_zero_u32(t3)) + le_u32(
        or_zero_u32(t4),
    ) + seq![or_zero_u8(t5)] + seq![or_zero_u8(t6)] + le_u32(or_zero_u32(t7)) + seq![or_zero_u8(t8)]
}

/// The whole map. The magic written is always the current one.
pub open spec fn enc_map(m: CrushMapView) -> Seq<u8> {
    le_u32(CRUSH_MAGIC) + le_i32(m.max_buckets) + le_u32(m.max_rules) + le_i32(m.max_devices)
        + enc_buckets(m.buckets) + enc_rules(m.rules) + enc_table(m.type_map) + enc_table(
        m.name_map,
    ) + enc_table(m.rule_name_map) + enc_tunables(m)
}

/// Every count and string length of a table fits its 32-bit field.
pub open spec fn table_fits(t: Seq<(i32, Seq<char>)>) -> bool {
    &&& t.len() <= u32::MAX
    &&& forall|k: int| 0 <= k < t.len() ==> string_fits(#[trigger] t[k].1)
}

/// Every step count fits its 32-bit field.
pub open spec fn rules_fit(rs: Seq<Option<RuleView>>) -> bool {
    forall|k: int| 0 <= k < rs.len() ==> (#[trigger] rs[k] matches Some(r) ==> r.steps.len() <= u32::MAX)
}

/// A map can be encoded when every length it writes fits its field.
pub open spec fn encodable(m: CrushMapView) -> bool {
    &&& rules_fit(m.rules)
    &&& table_fits(m.type_map)
    &&& table_fits(m.name_map)
    &&& table_fits(m.rule_name_map)
}

proof fn lemma_prefix_step<A>(s: Seq<A>, i: int)
    requires
        0 <= i < s.len(),
    ensures
        s.subrange(0, i + 1).drop_last() == s.subrange(0, i),
        s.subrange(0, i + 1).last() == s[i],
        s.subrange(0, i + 1).len() == i + 1,
{
    assert(s.subrange(0, i + 1).drop_last() =~= s.subrange(0, i));
}

proof fn lemma_full_prefix<A>(s: Seq<A>)
    ensures
        s.subrange(0, s.len() as int) == s,
{
    assert(s.subrange(0, s.len() as int) =~= s);
}

fn put_weights(buffer: &mut Vec<u8>, ws: &Vec<u32>)
    ensures
        final(buffer)@ == old(buffer)@ + enc_u32s(ws@),
{
    let mut i: usize = 0;
    while i < ws.len()
        invariant
            i <= ws@.len(),
            buffer@ == old(buffer)@ + enc_u32s(ws@.subrange(0, i as int)),
        decreases ws@.len() - i,
    {
        put_u32(buffer, ws[i]);
        proof {
            lemma_prefix_step(ws@, i as int);
        }
        assert(buffer@ =~= old(buffer)@ + enc_u32s(ws@.subrange(0, i + 1)));
        i = i + 1;
    }
    proof {
        lemma_full_prefix(ws@);
    }
}

fn put_weight_pairs(buffer: &mut Vec<u8>, ws: &Vec<(u32, u32)>)
    ensures
        final(buffer)@ == old(buffer)@ + enc_pairs(ws@),
{
    let mut i: usize = 0;
    while i < ws.len()
        invariant
            i <= ws@.len(),
            buffer@ == old(buffer)@ + enc_pairs(ws@.subrange(0, i as int)),
        decreases ws@.len() - i,
    {
        put_u32(buffer, ws[i].0);
        put_u32(buffer, ws[i].1);
        proof {
            lemma_prefix_step(ws@, i as int);
        }
        assert(buffer@ =~= old(buffer)@ + enc_pairs(ws@.subrange(0, i + 1)));
        i = i + 1;
    }
    proof {
        lemma_full_prefix(ws@);
    }
}

impl Bucket {
    /// Writes the algorithm tag, the common header and the item ids.
    fn compile(&self, buffer: &mut Vec<u8>)
        ensures
            final(buffer)@ == old(buffer)@ + enc_header(self@),
    {
        put_u32(buffer, self.alg.to_code());
        put_i32(buffer, self.id);
        put_u16(buffer, self.bucket_type);
        put_u8(buffer, self.alg.to_code() as u8);
        put_u8(buffer, self.hash.to_code());
        put_u32(buffer, self.weight);
        put_u32(buffer, self.size);
        let ghost mid = buffer@;
        let ghost items = self.items.deep_view();
        let mut i: usize = 0;
        while i < self.items.len()
            invariant
                i <= self.items@.len(),
                items == self.items.deep_view(),
                buffer@ == mid + enc_items(items.subrange(0, i as int)),
            decreases self.items@.len() - i,
        {
            put_i32(buffer, self.items[i].0);
            proof {
                lemma_prefix_step(items, i as int);
            }
            assert(buffer@ =~= mid + enc_items(items.subrange(0, i + 1)));
            i = i + 1;
        }
        proof {
            lemma_full_prefix(items);
        }
        assert(buffer@ =~= old(buffer)@ + enc_header(self@));
    }
}

impl CrushBucketUniform {
    fn compile(&self, buffer: &mut Vec<u8>)
        ensures
            final(buffer)@ == old(buffer)@ + enc_bucket(
                BucketTypesView::Uniform(self.bucket@, self.item_weight),
            ),
    {
        self.bucket.compile(buffer);
        put_u32(buffer, self.item_weight);
        assert(buffer@ =~= old(buffer)@ + enc_bucket(
            BucketTypesView::Uniform(self.bucket@, self.item_weight),
        ));
    }
}

impl CrushBucketList {
    fn compile(&self, buffer: &mut Vec<u8>)
        ensures
            final(buffer)@ == old(buffer)@ + enc_bucket(
                BucketTypesView::List(self.bucket@, self.item_weights@),
            ),
    {
        self.bucket.compile(buffer);
        put_weight_pairs(buffer, &self.item_weights);
        assert(buffer@ =~= old(buffer)@ + enc_bucket(
            BucketTypesView::List(self.bucket@, self.item_weights@),
        ));
    }
}

impl CrushBucketTree {
    fn compile(&self, buffer: &mut Vec<u8>)
        ensures
            final(buffer)@ == old(buffer)@ + enc_bucket(
                BucketTypesView::Tree(self.bucket@, self.num_nodes, self.node_weights@),
            ),
    {
        self.bucket.compile(buffer);
        put_u8(buffer, self.num_nodes);
        put_weights(buffer, &self.node_weights);
        assert(buffer@ =~= old(buffer)@ + enc_bucket(
            BucketTypesView::Tree(self.bucket@, self.num_nodes, self.node_weights@),
        ));
    }
}

impl CrushBucketStraw {
    fn compile(&self, buffer: &mut Vec<u8>)
        ensures
            final(buffer)@ == old(buffer)@ + enc_bucket(
                BucketTypesView::Straw(self.bucket@, self.item_weights@),
            ),
    {
        self.bucket.compile(buffer);
        put_weight_pairs(buffer, &self.item_weights);
        assert(buffer@ =~= old(buffer)@ + enc_bucket(
            BucketTypesView::Straw(self.bucket@, self.item_weights@),
        ));
    }
}

impl CrushBucketStraw2 {
    fn compile(&self, buffer: &mut Vec<u8>)
        ensures
            final(buffer)@ == old(buffer)@ + enc_bucket(
                BucketTypesView::Straw2(self.bucket@, self.item_weights@),
            ),
    {
        self.bucket.compile(buffer);
        put_weights(buffer, &self.item_weights);
        assert(buffer@ =~= old(buffer)@ + enc_bucket(
            BucketTypesView::Straw2(self.bucket@, self.item_weights@),
        ));
    }
}

/// Writes one bucket slot.
fn compile_bucket(bucket: &BucketTypes, buffer: &mut Vec<u8>)
    ensures
        final(buffer)@ == old(buffer)@ + enc_bucket(bucket@),
{
    match bucket {
        BucketTypes::Uniform(b) => b.compile(buffer),
        BucketTypes::List(b) => b.compile(buffer),
        BucketTypes::Tree(b) => b.compile(buffer),
        BucketTypes::Straw(b) => b.compile(buffer),
        BucketTypes::Straw2(b) => b.compile(buffer),
        BucketTypes::Unknown(_) => put_u32(buffer, 0),
    }
}

impl CrushRuleStep {
    fn compile(&self, buffer: &mut Vec<u8>)
        ensures
            final(buffer)@ == old(buffer)@ + enc_step(self@),
    {
        put_u32(buffer, self.op.to_code());
        put_i32(buffer, self.arg1.0);
        put_i32(buffer, self.arg2.0);
        assert(buffer@ =~= old(buffer)@ + enc_step(self@));
    }
}

impl CrushRuleMask {
    /// Appends the four bytes of the mask.
    pub fn compile(&self, buffer: &mut Vec<u8>)
        ensures
            final(buffer)@ == old(buffer)@ + enc_mask(*self),
    {
        put_u8(buffer, self.ruleset);
        put_u8(buffer, self.rule_type.to_code());
        put_u8(buffer, self.min_size);
        put_u8(buffer, self.max_size);
        assert(buffer@ =~= old(buffer)@ + enc_mask(*self));
    }
}

impl Rule {
    /// Writes a present rule; fails when its step count does not fit a `u32`.
    fn compile(&self, buffer: &mut Vec<u8>) -> (r: Result<(), EncodingError>)
        ensures
            r is Ok <==> self@.steps.len() <= u32::MAX,
            r is Ok ==> final(buffer)@ == old(buffer)@ + enc_rule(Some(self@)),
            r is Err ==> final(buffer)@ == old(buffer)@ && r matches Err(EncodingError::InvalidValue),
    {
        if self.steps.len() > u32::MAX as usize {
            return Err(EncodingError::InvalidValue);
        }
        put_u32(buffer, 1);
        put_u32(buffer, self.steps.len() as u32);
        self.mask.compile(buffer);
        let ghost mid = buffer@;
        let ghost steps = self.steps.deep_view();
        let mut i: usize = 0;
        while i < self.steps.len()
            invariant
                i <= self.steps@.len(),
                steps == self.steps.deep_view(),
                buffer@ == mid + enc_steps(steps.subrange(0, i as int)),
            decreases self.steps@.len() - i,
        {
            self.steps[i].compile(buffer);
            proof {
                lemma_prefix_step(steps, i as int);
            }
            assert(buffer@ =~= mid + enc_steps(steps.subrange(0, i + 1)));
            i = i + 1;
        }
        proof {
            lemma_full_prefix(steps);
        }
        assert(buffer@ =~= old(buffer)@ + enc_rule(Some(self@)));
        Ok(())
    }
}

/// Appends a symbol table; fails when its entry count or a string length
/// does not fit a `u32`.
fn write_string_map(buffer: &mut Vec<u8>, table: &Vec<(i32, String)>) -> (r: Result<(), EncodingError>)
    ensures
        r is Ok <==> table_fits(table.deep_view()),
        r is Ok ==> final(buffer)@ == old(buffer)@ + enc_table(table.deep_view()),
        r is Err ==> r matches Err(EncodingError::InvalidValue),
{
    let ghost t = table.deep_view();
    if table.len() > u32::MAX as usize {
        return Err(EncodingError::InvalidValue);
    }
    put_u32(buffer, table.len() as u32);
    let ghost mid = buffer@;
    let mut i: usize = 0;
    while i < table.len()
        invariant
            i <= table@.len(),
            t == table.deep_view(),
            buffer@ == mid + enc_entries(t.subrange(0, i as int)),
            forall|k: int| 0 <= k < i ==> string_fits(#[trigger] t[k].1),
        decreases table@.len() - i,
    {
        put_i32(buffer, table[i].0);
        match write_string(buffer, &table[i].1) {
            Ok(()) => {},
            Err(e) => {
                assert(!string_fits(t[i as int].1));
                return Err(e);
            },
        }
        proof {
            lemma_prefix_step(t, i as int);
        }
        assert(buffer@ =~= mid + enc_entries(t.subrange(0, i + 1)));
        i = i + 1;
    }
    proof {
        lemma_full_prefix(t);
    }
    assert(buffer@ =~= old(buffer)@ + enc_table(t));
    Ok(())
}

/// Encodes one symbol table: its entry count, then each id and string.
pub fn encode_string_map(input: Vec<(i32, String)>) -> (r: Result<Vec<u8>, EncodingError>)
    ensures
        r is Ok <==> table_fits(input.deep_view()),
        r matches Ok(bytes) ==> bytes@ == enc_table(input.deep_view()),
        r is Err ==> r matches Err(EncodingError::InvalidValue),
{
    let mut buffer: Vec<u8> = Vec::new();
    match write_string_map(&mut buffer, &input) {
        Ok(()) => {
            assert(buffer@ =~= enc_table(input.deep_view()));
            Ok(buffer)
        },
        Err(e) => Err(e),
    }
}

fn compile_buckets(buffer: &mut Vec<u8>, buckets: &Vec<BucketTypes>)
    ensures
        final(buffer)@ == old(buffer)@ + enc_buckets(buckets.deep_view()),
{
    let ghost bs = buckets.deep_view();
    let mut i: usize = 0;
    while i < buckets.len()
        invariant
            i <= buckets@.len(),
            bs == buckets.deep_view(),
            buffer@ == old(buffer)@ + enc_buckets(bs.subrange(0, i as int)),
        decreases buckets@.len() - i,
    {
        compile_bucket(&buckets[i], buffer);
        proof {
            lemma_prefix_step(bs, i as int);
        }
        assert(buffer@ =~= old(buffer)@ + enc_buckets(bs.subrange(0, i + 1)));
        i = i + 1;
    }
    proof {
        lemma_full_prefix(bs);
    }
}

fn compile_rules(buffer: &mut Vec<u8>, rules: &Vec<Option<Rule>>) -> (r: Result<(), EncodingError>)
    ensures
        r is Ok <==> rules_fit(rules.deep_view()),
        r is Ok ==> final(buffer)@ == old(buffer)@ + enc_rules(rules.deep_view()),
        r is Err ==> r matches Err(EncodingError::InvalidValue),
{
    let ghost rs = rules.deep_view();
    let mut j: usize = 0;
    while j < rules.len()
        invariant
            j <= rules@.len(),
            rs == rules.deep_view(),
            buffer@ == old(buffer)@ + enc_rules(rs.subrange(0, j as int)),
            forall|k: int|
                0 <= k < j ==> (#[trigger] rs[k] matches Some(r) ==> r.steps.len() <= u32::MAX),
        decreases rules@.len() - j,
    {
        match &rules[j] {
            Some(rule) => {
                match rule.compile(buffer) {
                    Ok(()) => {},
                    Err(e) => {
                        assert(rs[j as int] == Some(rule@));
                        return Err(e);
                    },
                }
            },
            None => put_u32(buffer, 0),
        }
        proof {
            lemma_prefix_step(rs, j as int);
        }
        assert(buffer@ =~= old(buffer)@ + enc_rules(rs.subrange(0, j + 1)));
        j = j + 1;
    }
    proof {
        lemma_full_prefix(rs);
    }
    Ok(())
}

fn compile_tunables(
    buffer: &mut Vec<u8>,
    t1: Option<u32>,
    t2: Option<u32>,
    t3: Option<u32>,
    t4: Option<u32>,
    t5: Option<u8>,
    t6: Option<u8>,
    t7: Option<u32>,
    t8: Option<u8>,
)
    ensures
        final(buffer)@ == old(buffer)@ + enc_tunable_values(t1, t2, t3, t4, t5, t6, t7, t8),
{
    let ghost s0 = old(buffer)@;
    let ghost a1 = le_u32(or_zero_u32(t1));
    let ghost a2 = le_u32(or_zero_u32(t2));
    let ghost a3 = le_u32(or_zero_u32(t3));
    let ghost a4 = le_u32(or_zero_u32(t4));
    let ghost a5 = seq![or_zero_u8(t5)];
    let ghost a6 = seq![or_zero_u8(t6)];
    let ghost a7 = le_u32(or_zero_u32(t7));
    let ghost a8 = seq![or_zero_u8(t8)];
    put_u32(buffer, t1.unwrap_or(0));
    put_u32(buffer, t2.unwrap_or(0));
    proof {
        lemma_concat_associative(s0, a1, a2);
    }
    put_u32(buffer, t3.unwrap_or(0));
    proof {
        lemma_concat_associative(s0, a1 + a2, a3);
    }
    put_u32(buffer, t4.unwrap_or(0));
    proof {
        lemma_concat_associative(s0, a1 + a2 + a3, a4);
    }
    put_u8(buffer, t5.unwrap_or(0));
    assert(buffer@ == s0 + (a1 + a2 + a3 + a4) + a5);
    proof {
        lemma_concat_associative(s0, a1 + a2 + a3 + a4, a5);
    }
    put_u8(buffer, t6.unwrap_or(0));
    assert(buffer@ == s0 + (a1 + a2 + a3 + a4 + a5) + a6);
    proof {
        lemma_concat_associative(s0, a1 + a2 + a3 + a4 + a5, a6);
    }
    put_u32(buffer, t7.unwrap_or(0));
    proof {
        lemma_concat_associative(s0, a1 + a2 + a3 + a4 + a5 + a6, a7);
    }
    put_u8(buffer, t8.unwrap_or(0));
    assert(buffer@ == s0 + (a1 + a2 + a3 + a4 + a5 + a6 + a7) + a8);
    proof {
        lemma_concat_associative(s0, a1 + a2 + a3 + a4 + a5 + a6 + a7, a8);
    }
}

/// Encodes a whole map in stream order. Names held by the map are not
/// written, except inside the symbol tables. Absent tunables are written as
/// zero and unknown bucket slots as a single zero tag. Fails when a count or
/// a string length does not fit its 32-bit field.
pub fn encode_crushmap(crushmap: CrushMap) -> (r: Result<Vec<u8>, EncodingError>)
    ensures
        r is Ok <==> encodable(crushmap@),
        r matches Ok(bytes) ==> bytes@ == enc_map(crushmap@),
        r is Err ==> r matches Err(EncodingError::InvalidValue),
{
    let ghost m = crushmap@;
    let mut buffer: Vec<u8> = Vec::new();
    put_u32(&mut buffer, CRUSH_MAGIC);
    put_i32(&mut buffer, crushmap.max_buckets);
    put_u32(&mut buffer, crushmap.max_rules);
    put_i32(&mut buffer, crushmap.max_devices);
    let ghost b0 = buffer@;
    compile_buckets(&mut buffer, &crushmap.buckets);
    let ghost b1 = buffer@;
    match compile_rules(&mut buffer, &crushmap.rules) {
        Ok(()) => {},
        Err(e) => return Err(e),
    }
    let ghost b2 = buffer@;
    match write_string_map(&mut buffer, &crushmap.type_map) {
        Ok(()) => {},
        Err(e) => return Err(e),
    }
    let ghost b3 = buffer@;
    match write_string_map(&mut buffer, &crushmap.name_map) {
        Ok(()) => {},
        Err(e) => return Err(e),
    }
    let ghost b4 = buffer@;
    match write_string_map(&mut buffer, &crushmap.rule_name_map) {
        Ok(()) => {},
        Err(e) => return Err(e),
    }
    let ghost b5 = buffer@;
    compile_tunables(
        &mut buffer,
        crushmap.choose_local_tries,
        crushmap.choose_local_fallback_tries,
        crushmap.choose_total_tries,
        crushmap.chooseleaf_descend_once,
        crushmap.chooseleaf_vary_r,
        crushmap.straw_calc_version,
        crushmap.allowed_bucket_algorithms,
        crushmap.chooseleaf_stable,
    );
    proof {
        assert(b0 =~= le_u32(CRUSH_MAGIC) + le_i32(m.max_buckets) + le_u32(m.max_rules) + le_i32(
            m.max_devices,
        ));
        assert(buffer@ =~= b0 + enc_buckets(m.buckets) + enc_rules(m.rules) + enc_table(m.type_map)
            + enc_table(m.name_map) + enc_table(m.rule_name_map) + enc_tunables(m));
    }
    Ok(buffer)
}

} // verus!
