//! Decoding and encoding of the binary form of a CRUSH placement map.
//!
//! CRUSH is a pseudo-random data distribution algorithm that distributes
//! input values across a heterogeneous, structured storage cluster. This
//! crate turns the compiled map that the algorithm consumes into a
//! structured value and back, and resolves the names of the ids that the
//! map's buckets and rules refer to.

pub mod types;
pub mod wire;
pub mod decode;
pub mod resolve;
pub mod encode;
pub mod tunables;
pub mod laws;
pub mod round_trip;
pub mod inverse;

pub use types::{
    Bucket, BucketAlg, BucketTypes, CephVersion, CrushBucketList, CrushBucketStraw,
    CrushBucketStraw2, CrushBucketTree, CrushBucketUniform, CrushHash, CrushMap, CrushRuleMask,
    CrushRuleStep, DecodeError, EncodingError, NamedId, OpCode, Rule, RuleType, UnknownBucket,
    CRUSH_MAGIC, UNKNOWN_BUCKET_ID,
};
pub use decode::{decode_crushmap, parse_crushmap};
pub use encode::{encode_crushmap, encode_string_map};
pub use resolve::{update_buckets, update_rule_steps};
pub use tunables::{
    set_tunables_argonaut, set_tunables_bobtail, set_tunables_firefly, set_tunables_hammer,
    set_tunables_jewel,
};
