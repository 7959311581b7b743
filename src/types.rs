use vstd::prelude::*;
use vstd::string::StringExecFns;

verus! {

/// Number written at the start of every map, used to detect format revisions.
pub const CRUSH_MAGIC: u32 = 0x00010000;

/// The placement algorithm of a bucket.
///
///  Bucket Alg     Speed       Additions    Removals
///  ------------------------------------------------
///  uniform         O(1)       poor         poor
///  list            O(n)       optimal      poor
///  tree            O(log n)   good         good
///  straw           O(n)       optimal      optimal
#[derive(Debug, Clone, Copy, PartialEq, Eq, Structural, Hash)]
pub enum BucketAlg {
    Uniform,
    List,
    Tree,
    Straw,
    Straw2,
}

/// What a rule is meant for.
#[derive(Debug, Clone, Copy, PartialEq, Eq, Structural, Hash)]
pub enum RuleType {
    Replicated,
    /// Never implemented by the placement engine.
    Raid4,
    Erasure,
}

/// Which hash function a bucket uses.
#[derive(Debug, Clone, Copy, PartialEq, Eq, Structural, Hash)]
pub enum CrushHash {
    RJenkins1,
}

/// Operation of a rule step.
#[derive(Debug, Clone, Copy, PartialEq, Eq, Structural, Hash)]
pub enum OpCode {
    Noop,
    /// arg1 = value to start with
    Take,
    /// arg1 = number of items to pick, arg2 = type
    ChooseFirstN,
    /// same as `ChooseFirstN`
    ChooseIndep,
    /// no arguments
    Emit,
    ChooseLeafFirstN,
    ChooseLeafIndep,
    /// overrides choose_total_tries
    SetChooseTries,
    /// overrides chooseleaf_descend_once
    SetChooseLeafTries,
    SetChooseLocalTries,
    SetChooseLocalFallbackTries,
    SetChooseLeafVaryR,
}

impl BucketAlg {
    /// The tag of the algorithm on the wire.
    pub open spec fn code(self) -> u32 {
        match self {
            BucketAlg::Uniform => 1,
            BucketAlg::List => 2,
            BucketAlg::Tree => 3,
            BucketAlg::Straw => 4,
            BucketAlg::Straw2 => 5,
        }
    }

    pub open spec fn spec_from_code(c: u32) -> Option<BucketAlg> {
        if c == 1 {
            Some(BucketAlg::Uniform)
        } else if c == 2 {
            Some(BucketAlg::List)
        } else if c == 3 {
            Some(BucketAlg::Tree)
        } else if c == 4 {
            Some(BucketAlg::Straw)
        } else if c == 5 {
            Some(BucketAlg::Straw2)
        } else {
            None
        }
    }

    pub fn from_code(c: u32) -> (r: Option<BucketAlg>)
        ensures
            r == BucketAlg::spec_from_code(c),
    {
        match c {
            1 => Some(BucketAlg::Uniform),
            2 => Some(BucketAlg::List),
            3 => Some(BucketAlg::Tree),
            4 => Some(BucketAlg::Straw),
            5 => Some(BucketAlg::Straw2),
            _ => None,
        }
    }

    pub fn to_code(&self) -> (r: u32)
        ensures
            r == self.code(),
    {
        match self {
            BucketAlg::Uniform => 1,
            BucketAlg::List => 2,
            BucketAlg::Tree => 3,
            BucketAlg::Straw => 4,
            BucketAlg::Straw2 => 5,
        }
    }
}

impl RuleType {
    pub open spec fn code(self) -> u8 {
        match self {
            RuleType::Replicated => 1,
            RuleType::Raid4 => 2,
            RuleType::Erasure => 3,
        }
    }

    pub open spec fn spec_from_code(c: u8) -> Option<RuleType> {
        if c == 1 {
            Some(RuleType::Replicated)
        } else if c == 2 {
            Some(RuleType::Raid4)
        } else if c == 3 {
            Some(RuleType::Erasure)
        } else {
            None
        }
    }

    pub fn from_code(c: u8) -> (r: Option<RuleType>)
        ensures
            r == RuleType::spec_from_code(c),
    {
        match c {
            1 => Some(RuleType::Replicated),
            2 => Some(RuleType::Raid4),
            3 => Some(RuleType::Erasure),
            _ => None,
        }
    }

    pub fn to_code(&self) -> (r: u8)
        ensures
            r == self.code(),
    {
        match self {
            RuleType::Replicated => 1,
            RuleType::Raid4 => 2,
            RuleType::Erasure => 3,
        }
    }
}

impl CrushHash {
    pub open spec fn code(self) -> u8 {
        0
    }

    pub open spec fn spec_from_code(c: u8) -> Option<CrushHash> {
        if c == 0 {
            Some(CrushHash::RJenkins1)
        } else {
            None
        }
    }

    pub fn from_code(c: u8) -> (r: Option<CrushHash>)
        ensures
            r == CrushHash::spec_from_code(c),
    {
        if c == 0 {
            Some(CrushHash::RJenkins1)
        } else {
            None
        }
    }

    pub fn to_code(&self) -> (r: u8)
        ensures
            r == self.code(),
    {
        0
    }
}

impl OpCode {
    pub open spec fn code(self) -> u32 {
        match self {
            OpCode::Noop => 0,
            OpCode::Take => 1,
            OpCode::ChooseFirstN => 2,
            OpCode::ChooseIndep => 3,
            OpCode::Emit => 4,
            OpCode::ChooseLeafFirstN => 6,
            OpCode::ChooseLeafIndep => 7,
            OpCode::SetChooseTries => 8,
            OpCode::SetChooseLeafTries => 9,
            OpCode::SetChooseLocalTries => 10,
            OpCode::SetChooseLocalFallbackTries => 11,
            OpCode::SetChooseLeafVaryR => 12,
        }
    }

    pub open spec fn spec_from_code(c: u32) -> Option<OpCode> {
        if c == 0 {
            Some(OpCode::Noop)
        } else if c == 1 {
            Some(OpCode::Take)
        } else if c == 2 {
            Some(OpCode::ChooseFirstN)
        } else if c == 3 {
            Some(OpCode::ChooseIndep)
        } else if c == 4 {
            Some(OpCode::Emit)
        } else if c == 6 {
            Some(OpCode::ChooseLeafFirstN)
        } else if c == 7 {
            Some(OpCode::ChooseLeafIndep)
        } else if c == 8 {
            Some(OpCode::SetChooseTries)
        } else if c == 9 {
            Some(OpCode::SetChooseLeafTries)
        } else if c == 10 {
            Some(OpCode::SetChooseLocalTries)
        } else if c == 11 {
            Some(OpCode::SetChooseLocalFallbackTries)
        } else if c == 12 {
            Some(OpCode::SetChooseLeafVaryR)
        } else {
            None
        }
    }

    pub fn from_code(c: u32) -> (r: Option<OpCode>)
        ensures
            r == OpCode::spec_from_code(c),
    {
        match c {
            0 => Some(OpCode::Noop),
            1 => Some(OpCode::Take),
            2 => Some(OpCode::ChooseFirstN),
            3 => Some(OpCode::ChooseIndep),
            4 => Some(OpCode::Emit),
            6 => Some(OpCode::ChooseLeafFirstN),
            7 => Some(OpCode::ChooseLeafIndep),
            8 => Some(OpCode::SetChooseTries),
            9 => Some(OpCode::SetChooseLeafTries),
            10 => Some(OpCode::SetChooseLocalTries),
            11 => Some(OpCode::SetChooseLocalFallbackTries),
            12 => Some(OpCode::SetChooseLeafVaryR),
            _ => None,
        }
    }

    pub fn to_code(&self) -> (r: u32)
        ensures
            r == self.code(),
    {
        match self {
            OpCode::Noop => 0,
            OpCode::Take => 1,
            OpCode::ChooseFirstN => 2,
            OpCode::ChooseIndep => 3,
            OpCode::Emit => 4,
            OpCode::ChooseLeafFirstN => 6,
            OpCode::ChooseLeafIndep => 7,
            OpCode::SetChooseTries => 8,
            OpCode::SetChooseLeafTries => 9,
            OpCode::SetChooseLocalTries => 10,
            OpCode::SetChooseLocalFallbackTries => 11,
            OpCode::SetChooseLeafVaryR => 12,
        }
    }
}

/// A name attached to an id: `None` until the id has been looked up in a symbol table.
pub type NamedId = (i32, Option<String>);

/// Common header of every bucket kind.
#[derive(Debug, Clone, PartialEq, Eq, Hash)]
pub struct Bucket {
    /// negative for buckets, non-negative for devices
    pub id: i32,
    /// hierarchy type; type 0 is reserved for devices
    pub bucket_type: u16,
    /// which algorithm to use
    pub alg: BucketAlg,
    /// which hash function to use
    pub hash: CrushHash,
    /// 16.16 fixed point
    pub weight: u32,
    /// number of items
    pub size: u32,
    pub items: Vec<NamedId>,
    /// cached random permutation: number of elements that are permuted
    pub perm_n: u32,
    pub perm: u32,
}

/// All items are equally weighted.
#[derive(Debug, Clone, PartialEq, Eq, Hash)]
pub struct CrushBucketUniform {
    pub bucket: Bucket,
    /// 16.16 fixed point, shared by all items
    pub item_weight: u32,
}

#[derive(Debug, Clone, PartialEq, Eq, Hash)]
pub struct CrushBucketList {
    pub bucket: Bucket,
    /// 16.16 fixed point, one pair per item
    pub item_weights: Vec<(u32, u32)>,
}

/// Tree buckets are rarely used: the placement algorithm over them is buggy.
#[derive(Debug, Clone, PartialEq, Eq, Hash)]
pub struct CrushBucketTree {
    pub bucket: Bucket,
    /// size of the tree, not the number of items
    pub num_nodes: u8,
    pub node_weights: Vec<u32>,
}

#[derive(Debug, Clone, PartialEq, Eq, Hash)]
pub struct CrushBucketStraw2 {
    pub bucket: Bucket,
    /// 16.16 fixed point, one per item
    pub item_weights: Vec<u32>,
}

#[derive(Debug, Clone, PartialEq, Eq, Hash)]
pub struct CrushBucketStraw {
    pub bucket: Bucket,
    /// 16.16 fixed point, one pair per item
    pub item_weights: Vec<(u32, u32)>,
}

/// A bucket slot whose algorithm tag is not one of the known algorithms.
/// Its header and item ids are kept as they were read.
#[derive(Debug, Clone, PartialEq, Eq, Hash)]
pub struct UnknownBucket {
    /// the algorithm tag that was not recognised
    pub alg_tag: u32,
    pub id: i32,
    pub bucket_type: u16,
    pub alg_bits: u8,
    pub hash_bits: u8,
    pub weight: u32,
    pub size: u32,
    pub items: Vec<i32>,
}

#[derive(Debug, Clone, PartialEq, Eq, Hash)]
pub enum BucketTypes {
    Uniform(CrushBucketUniform),
    List(CrushBucketList),
    Tree(CrushBucketTree),
    Straw(CrushBucketStraw),
    Straw2(CrushBucketStraw2),
    Unknown(UnknownBucket),
}

/// One step of a placement rule.
#[derive(Debug, PartialEq, Eq)]
pub struct CrushRuleStep {
    pub op: OpCode,
    pub arg1: NamedId,
    pub arg2: NamedId,
}

fn clone_named_id(a: &NamedId) -> (r: NamedId)
    ensures
        r.deep_view() == a.deep_view(),
{
    let name = match &a.1 {
        Some(s) => Some(s.clone()),
        None => None,
    };
    (a.0, name)
}

impl Clone for CrushRuleStep {
    fn clone(&self) -> (r: Self)
        ensures
            r@ == self@,
    {
        CrushRuleStep { op: self.op, arg1: clone_named_id(&self.arg1), arg2: clone_named_id(&self.arg2) }
    }
}

/// What a rule is intended for: given a ruleset and the size of the output
/// set, the rule list is searched for a matching mask.
#[derive(Debug, Clone, Copy, PartialEq, Eq, Structural)]
pub struct CrushRuleMask {
    pub ruleset: u8,
    pub rule_type: RuleType,
    pub min_size: u8,
    pub max_size: u8,
}

/// A placement rule: a sequence of steps that selects the output devices.
#[derive(Debug, Clone, PartialEq, Eq)]
pub struct Rule {
    pub mask: CrushRuleMask,
    pub steps: Vec<CrushRuleStep>,
}

/// A whole map: buckets, rules, symbol tables and tunables.
#[derive(Debug, Clone, PartialEq, Eq)]
pub struct CrushMap {
    pub magic: u32,
    pub max_buckets: i32,
    pub max_rules: u32,
    pub max_devices: i32,
    pub buckets: Vec<BucketTypes>,
    pub rules: Vec<Option<Rule>>,
    pub type_map: Vec<(i32, String)>,
    pub name_map: Vec<(i32, String)>,
    pub rule_name_map: Vec<(i32, String)>,
    /// choose local retries before re-descent
    pub choose_local_tries: Option<u32>,
    /// choose local attempts using a fallback permutation before re-descent
    pub choose_local_fallback_tries: Option<u32>,
    /// choose attempts before giving up
    pub choose_total_tries: Option<u32>,
    /// attempt chooseleaf inner descent once for firstn mode
    pub chooseleaf_descend_once: Option<u32>,
    /// if non-zero, feed r into chooseleaf, shifted right by (r-1) bits
    pub chooseleaf_vary_r: Option<u8>,
    pub straw_calc_version: Option<u8>,
    /// bit mask over the algorithm tags (bit `1 << tag`)
    pub allowed_bucket_algorithms: Option<u32>,
    /// if 1, chooseleaf firstn returns stable results
    pub chooseleaf_stable: Option<u8>,
}

/// Failures of decoding.
#[derive(Debug, Clone, Copy, PartialEq, Eq, Structural)]
pub enum DecodeError {
    /// fewer bytes remain than a field requires
    TruncatedInput,
    /// an algorithm, hash, operation or rule type value outside its enumeration
    UnknownTag,
    /// string bytes that are not UTF-8
    InvalidText,
}

/// Failures of encoding.
#[derive(Debug, PartialEq, Eq)]
pub enum EncodingError {
    IoError(String),
    /// a length that does not fit its 32-bit field
    InvalidValue,
    InvalidType,
    FromUtf8Error(String),
}

/// Releases whose tunable profiles can be applied to a map.
#[derive(Debug, Clone, Copy, PartialEq, Eq, Structural)]
pub enum CephVersion {
    Argonaut,
    Bobtail,
    Firefly,
    Hammer,
    Jewel,
}

// ---------------------------------------------------------------------
// Mathematical models
// ---------------------------------------------------------------------

/// An id with the name resolved for it, if any.
pub type NamedIdView = (i32, Option<Seq<char>>);

pub struct BucketView {
    pub id: i32,
    pub bucket_type: u16,
    pub alg: BucketAlg,
    pub hash: CrushHash,
    pub weight: u32,
    pub size: u32,
    pub items: Seq<NamedIdView>,
    pub perm_n: u32,
    pub perm: u32,
}

pub struct UnknownBucketView {
    pub alg_tag: u32,
    pub id: i32,
    pub bucket_type: u16,
    pub alg_bits: u8,
    pub hash_bits: u8,
    pub weight: u32,
    pub size: u32,
    pub items: Seq<i32>,
}

pub enum BucketTypesView {
    Uniform(BucketView, u32),
    List(BucketView, Seq<(u32, u32)>),
    Tree(BucketView, u8, Seq<u32>),
    Straw(BucketView, Seq<(u32, u32)>),
    Straw2(BucketView, Seq<u32>),
    Unknown(UnknownBucketView),
}

pub struct RuleStepView {
    pub op: OpCode,
    pub arg1: NamedIdView,
    pub arg2: NamedIdView,
}

pub struct RuleView {
    pub mask: CrushRuleMask,
    pub steps: Seq<RuleStepView>,
}

pub struct CrushMapView {
    pub magic: u32,
    pub max_buckets: i32,
    pub max_rules: u32,
    pub max_devices: i32,
    pub buckets: Seq<BucketTypesView>,
    pub rules: Seq<Option<RuleView>>,
    pub type_map: Seq<(i32, Seq<char>)>,
    pub name_map: Seq<(i32, Seq<char>)>,
    pub rule_name_map: Seq<(i32, Seq<char>)>,
    pub choose_local_tries: Option<u32>,
    pub choose_local_fallback_tries: Option<u32>,
    pub choose_total_tries: Option<u32>,
    pub chooseleaf_descend_once: Option<u32>,
    pub chooseleaf_vary_r: Option<u8>,
    pub straw_calc_version: Option<u8>,
    pub allowed_bucket_algorithms: Option<u32>,
    pub chooseleaf_stable: Option<u8>,
}

impl View for Bucket {
    type V = BucketView;

    open spec fn view(&self) -> BucketView {
        BucketView {
            id: self.id,
            bucket_type: self.bucket_type,
            alg: self.alg,
            hash: self.hash,
            weight: self.weight,
            size: self.size,
            items: self.items.deep_view(),
            perm_n: self.perm_n,
            perm: self.perm,
        }
    }
}

impl View for UnknownBucket {
    type V = UnknownBucketView;

    open spec fn view(&self) -> UnknownBucketView {
        UnknownBucketView {
            alg_tag: self.alg_tag,
            id: self.id,
            bucket_type: self.bucket_type,
            alg_bits: self.alg_bits,
            hash_bits: self.hash_bits,
            weight: self.weight,
            size: self.size,
            items: self.items@,
        }
    }
}

impl View for BucketTypes {
    type V = BucketTypesView;

    open spec fn view(&self) -> BucketTypesView {
        match self {
            BucketTypes::Uniform(b) => BucketTypesView::Uniform(b.bucket@, b.item_weight),
            BucketTypes::List(b) => BucketTypesView::List(b.bucket@, b.item_weights@),
            BucketTypes::Tree(b) => BucketTypesView::Tree(b.bucket@, b.num_nodes, b.node_weights@),
            BucketTypes::Straw(b) => BucketTypesView::Straw(b.bucket@, b.item_weights@),
            BucketTypes::Straw2(b) => BucketTypesView::Straw2(b.bucket@, b.item_weights@),
            BucketTypes::Unknown(b) => BucketTypesView::Unknown(b@),
        }
    }
}

impl DeepView for BucketTypes {
    type V = BucketTypesView;

    open spec fn deep_view(&self) -> BucketTypesView {
        self@
    }
}

impl View for CrushRuleStep {
    type V = RuleStepView;

    open spec fn view(&self) -> RuleStepView {
        RuleStepView {
            op: self.op,
            arg1: self.arg1.deep_view(),
            arg2: self.arg2.deep_view(),
        }
    }
}

impl DeepView for CrushRuleStep {
    type V = RuleStepView;

    open spec fn deep_view(&self) -> RuleStepView {
        self@
    }
}

impl View for Rule {
    type V = RuleView;

    open spec fn view(&self) -> RuleView {
        RuleView { mask: self.mask, steps: self.steps.deep_view() }
    }
}

impl DeepView for Rule {
    type V = RuleView;

    open spec fn deep_view(&self) -> RuleView {
        self@
    }
}

impl View for CrushMap {
    type V = CrushMapView;

    open spec fn view(&self) -> CrushMapView {
        CrushMapView {
            magic: self.magic,
            max_buckets: self.max_buckets,
            max_rules: self.max_rules,
            max_devices: self.max_devices,
            buckets: self.buckets.deep_view(),
            rules: self.rules.deep_view(),
            type_map: self.type_map.deep_view(),
            name_map: self.name_map.deep_view(),
            rule_name_map: self.rule_name_map.deep_view(),
            choose_local_tries: self.choose_local_tries,
            choose_local_fallback_tries: self.choose_local_fallback_tries,
            choose_total_tries: self.choose_total_tries,
            chooseleaf_descend_once: self.chooseleaf_descend_once,
            chooseleaf_vary_r: self.chooseleaf_vary_r,
            straw_calc_version: self.straw_calc_version,
            allowed_bucket_algorithms: self.allowed_bucket_algorithms,
            chooseleaf_stable: self.chooseleaf_stable,
        }
    }
}

/// The common header of a bucket slot; unknown slots have none.
pub open spec fn header_of(x: BucketTypesView) -> Option<BucketView> {
    match x {
        BucketTypesView::Uniform(h, _) => Some(h),
        BucketTypesView::List(h, _) => Some(h),
        BucketTypesView::Tree(h, _, _) => Some(h),
        BucketTypesView::Straw(h, _) => Some(h),
        BucketTypesView::Straw2(h, _) => Some(h),
        BucketTypesView::Unknown(_) => None,
    }
}

/// The lengths of a bucket slot agree with its counts: one item per unit of
/// size, one weight (or weight pair) per item, one tree node weight per node.
pub open spec fn bucket_well_formed(x: BucketTypesView) -> bool {
    match x {
        BucketTypesView::Uniform(h, _) => h.items.len() == h.size,
        BucketTypesView::List(h, ws) => h.items.len() == h.size && ws.len() == h.size,
        BucketTypesView::Tree(h, n, ws) => h.items.len() == h.size && ws.len() == n,
        BucketTypesView::Straw(h, ws) => h.items.len() == h.size && ws.len() == h.size,
        BucketTypesView::Straw2(h, ws) => h.items.len() == h.size && ws.len() == h.size,
        BucketTypesView::Unknown(u) => u.items.len() == u.size,
    }
}

/// A map holds as many bucket and rule slots as its preamble declares, and
/// every bucket slot is well formed.
pub open spec fn well_formed(m: CrushMapView) -> bool {
    &&& m.buckets.len() == m.max_buckets
    &&& m.rules.len() == m.max_rules
    &&& forall|i: int| 0 <= i < m.buckets.len() ==> bucket_well_formed(#[trigger] m.buckets[i])
}

/// The id reported for a bucket slot of unknown algorithm.
pub const UNKNOWN_BUCKET_ID: i32 = 65536;

impl BucketTypes {
    /// The common header, for every slot but an unknown one.
    pub fn bucket(&self) -> (r: Option<&Bucket>)
        ensures
            match r {
                Some(b) => header_of(self@) == Some(b@),
                None => header_of(self@) is None,
            },
    {
        match self {
            BucketTypes::Unknown(_) => None,
            BucketTypes::Uniform(b) => Some(&b.bucket),
            BucketTypes::List(b) => Some(&b.bucket),
            BucketTypes::Tree(b) => Some(&b.bucket),
            BucketTypes::Straw(b) => Some(&b.bucket),
            BucketTypes::Straw2(b) => Some(&b.bucket),
        }
    }

    /// The id of the bucket; `UNKNOWN_BUCKET_ID` for a slot of unknown algorithm.
    pub fn id(&self) -> (r: i32)
        ensures
            r == match header_of(self@) {
                Some(h) => h.id,
                None => UNKNOWN_BUCKET_ID,
            },
    {
        match self {
            BucketTypes::Unknown(_) => UNKNOWN_BUCKET_ID,
            BucketTypes::Uniform(b) => b.bucket.id,
            BucketTypes::List(b) => b.bucket.id,
            BucketTypes::Tree(b) => b.bucket.id,
            BucketTypes::Straw(b) => b.bucket.id,
            BucketTypes::Straw2(b) => b.bucket.id,
        }
    }
}

impl EncodingError {
    /// An error of the output that carries `err` as its message.
    pub fn new(err: String) -> (r: EncodingError)
        ensures
            r matches EncodingError::IoError(s) && s@ == err@,
    {
        EncodingError::IoError(err)
    }

    /// A message that describes the error.
    pub fn to_string(&self) -> (r: String)
        ensures
            self matches EncodingError::IoError(s) ==> r@ == s@,
            self matches EncodingError::InvalidValue ==> r@ == "Invalid Value"@,
            self matches EncodingError::InvalidType ==> r@ == "Invalid Type"@,
            self matches EncodingError::FromUtf8Error(s) ==> r@ == s@,
    {
        match self {
            EncodingError::IoError(s) => s.clone(),
            EncodingError::InvalidValue => String::from_str("Invalid Value"),
            EncodingError::InvalidType => String::from_str("Invalid Type"),
            EncodingError::FromUtf8Error(s) => s.clone(),
        }
    }
}

impl DecodeError {
    /// A message that describes the error.
    pub fn to_string(&self) -> (r: String)
        ensures
            *self == DecodeError::TruncatedInput ==> r@ == "Truncated input"@,
            *self == DecodeError::UnknownTag ==> r@ == "Unknown tag"@,
            *self == DecodeError::InvalidText ==> r@ == "Invalid text"@,
    {
        match self {
            DecodeError::TruncatedInput => String::from_str("Truncated input"),
            DecodeError::UnknownTag => String::from_str("Unknown tag"),
            DecodeError::InvalidText => String::from_str("Invalid text"),
        }
    }
}

/// The hierarchy types of a fresh map.
pub open spec fn default_type_names() -> Seq<(i32, Seq<char>)> {
    seq![
        (0i32, "osd"@),
        (1i32, "host"@),
        (2i32, "chassis"@),
        (3i32, "rack"@),
        (4i32, "row"@),
        (5i32, "pdu"@),
        (6i32, "pod"@),
        (7i32, "room"@),
        (8i32, "datacenter"@),
        (9i32, "region"@),
        (10i32, "root"@),
    ]
}

/// A fresh map: no buckets, rules or names, the usual hierarchy types, and
/// the default tunables.
pub open spec fn default_map() -> CrushMapView {
    CrushMapView {
        magic: CRUSH_MAGIC,
        max_buckets: 0,
        max_rules: 0,
        max_devices: 0,
        buckets: Seq::empty(),
        rules: Seq::empty(),
        type_map: default_type_names(),
        name_map: Seq::empty(),
        rule_name_map: Seq::empty(),
        choose_local_tries: Some(2),
        choose_local_fallback_tries: Some(15),
        choose_total_tries: Some(19),
        chooseleaf_descend_once: Some(0),
        chooseleaf_vary_r: Some(0),
        straw_calc_version: Some(0),
        allowed_bucket_algorithms: Some(0),
        chooseleaf_stable: Some(22),
    }
}

fn named_type(id: i32, name: &str) -> (r: (i32, String))
    ensures
        r.deep_view() == (id, name@),
{
    (id, String::from_str(name))
}

impl Default for CrushMap {
    fn default() -> (r: CrushMap)
        ensures
            r@ == default_map(),
    {
        let mut type_map: Vec<(i32, String)> = Vec::new();
        type_map.push(named_type(0, "osd"));
        type_map.push(named_type(1, "host"));
        type_map.push(named_type(2, "chassis"));
        type_map.push(named_type(3, "rack"));
        type_map.push(named_type(4, "row"));
        type_map.push(named_type(5, "pdu"));
        type_map.push(named_type(6, "pod"));
        type_map.push(named_type(7, "room"));
        type_map.push(named_type(8, "datacenter"));
        type_map.push(named_type(9, "region"));
        type_map.push(named_type(10, "root"));
        let r = CrushMap {
            magic: CRUSH_MAGIC,
            max_buckets: 0,
            max_rules: 0,
            max_devices: 0,
            buckets: Vec::new(),
            rules: Vec::new(),
            type_map,
            name_map: Vec::new(),
            rule_name_map: Vec::new(),
            choose_local_tries: Some(2),
            choose_local_fallback_tries: Some(15),
            choose_total_tries: Some(19),
            chooseleaf_descend_once: Some(0),
            chooseleaf_vary_r: Some(0),
            straw_calc_version: Some(0),
            allowed_bucket_algorithms: Some(0),
            chooseleaf_stable: Some(22),
        };
        assert(r.type_map.deep_view() =~= default_type_names());
        assert(r.buckets.deep_view() =~= Seq::<BucketTypesView>::empty());
        assert(r.rules.deep_view() =~= Seq::<Option<RuleView>>::empty());
        assert(r.name_map.deep_view() =~= Seq::<(i32, Seq<char>)>::empty());
        assert(r.rule_name_map.deep_view() =~= Seq::<(i32, Seq<char>)>::empty());
        r
    }
}

} // verus!
