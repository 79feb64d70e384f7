//! The numbers by which a registry tells metrics apart.
//!
//! The number of a metric is a hash of its name: the bytes of the name and one byte that
//! no name holds are taken in one after the other, each by an exclusive or and a
//! multiplication.

use vstd::prelude::*;

use crate::text;

verus! {

/// The hash of nothing.
pub const SEED: u64 = 0xcbf29ce484222325;

/// The hash behind one more byte.
pub open spec fn mix(hash: u64, byte: u64) -> u64 {
    ((hash ^ byte) * 0x100000001b3) as u64
}

/// The hash of the first `n` characters of a text in ASCII.
pub open spec fn hash_of(s: Seq<char>, n: int) -> u64
    decreases n,
{
    if n <= 0 {
        SEED
    } else {
        mix(hash_of(s, n - 1), s[n - 1] as u64)
    }
}

/// The number by which a registry tells a metric of this name from others.
pub open spec fn metric_id(name: Seq<char>) -> u64 {
    mix(hash_of(name, name.len() as int), 0xff)
}

fn take_in(hash: u64, byte: u64) -> (r: u64)
    ensures
        r == mix(hash, byte),
{
    let mixed: u64 = hash ^ byte;
    assert((mixed * 0x100000001b3) as u64 == (mixed * 0x100000001b3) % 0x1_0000_0000_0000_0000)
        by (bit_vector);
    mixed.wrapping_mul(0x100000001b3)
}

/// The number of a metric.
pub fn number_of_metric(name: &str) -> (id: u64)
    ensures
        id == metric_id(name@),
{
    let chars = text::chars_of(name);
    let mut hash: u64 = SEED;
    let mut i: usize = 0;
    while i < chars.len()
        invariant
            i <= chars@.len(),
            hash == hash_of(chars@, i as int),
        decreases chars@.len() - i,
    {
        hash = take_in(hash, chars[i] as u64);
        i = i + 1;
    }
    take_in(hash, 0xff)
}

/// The hash behind eight more bytes.
spec fn eight(h: u64, a: u64, b: u64, c: u64, d: u64, e: u64, f: u64, g: u64, i: u64) -> u64 {
    let half = mix(mix(mix(mix(h, a), b), c), d);
    mix(mix(mix(mix(half, e), f), g), i)
}

proof fn id_of_documents_total()
    ensures
        metric_id("msearchdb_documents_total"@) == 0xfd4a_4ac0_b5f3_9cc7,
{
    reveal_strlit("msearchdb_documents_total");
    reveal_with_fuel(hash_of, 26);
    assert(mix(
        mix(eight(eight(eight(SEED, 109, 115, 101, 97, 114, 99, 104, 100), 98, 95, 100, 111, 99,
        117, 109, 101), 110, 116, 115, 95, 116, 111, 116, 97), 108),
        255,
    ) == 0xfd4a_4ac0_b5f3_9cc7) by (bit_vector);
}

proof fn id_of_index_operations_total()
    ensures
        metric_id("msearchdb_index_operations_total"@) == 0xb105_b808_7bb4_9d8a,
{
    reveal_strlit("msearchdb_index_operations_total");
    reveal_with_fuel(hash_of, 33);
    assert(mix(
        eight(eight(eight(eight(SEED, 109, 115, 101, 97, 114, 99, 104, 100), 98, 95, 105, 110,
        100, 101, 120, 95), 111, 112, 101, 114, 97, 116, 105, 111), 110, 115, 95, 116, 111, 116,
        97, 108),
        255,
    ) == 0xb105_b808_7bb4_9d8a) by (bit_vector);
}

proof fn id_of_search_duration_seconds()
    ensures
        metric_id("msearchdb_search_duration_seconds"@) == 0xc901_707d_6e94_782b,
{
    reveal_strlit("msearchdb_search_duration_seconds");
    reveal_with_fuel(hash_of, 34);
    assert(mix(
        mix(eight(eight(eight(eight(SEED, 109, 115, 101, 97, 114, 99, 104, 100), 98, 95, 115,
        101, 97, 114, 99, 104), 95, 100, 117, 114, 97, 116, 105, 111), 110, 95, 115, 101, 99,
        111, 110, 100), 115),
        255,
    ) == 0xc901_707d_6e94_782b) by (bit_vector);
}

proof fn id_of_storage_bytes_used()
    ensures
        metric_id("msearchdb_storage_bytes_used"@) == 0xdfdc_c4ab_ea38_9031,
{
    reveal_strlit("msearchdb_storage_bytes_used");
    reveal_with_fuel(hash_of, 29);
    assert(mix(
        mix(mix(mix(mix(eight(eight(eight(SEED, 109, 115, 101, 97, 114, 99, 104, 100), 98, 95,
        115, 116, 111, 114, 97, 103), 101, 95, 98, 121, 116, 101, 115, 95), 117), 115), 101),
        100),
        255,
    ) == 0xdfdc_c4ab_ea38_9031) by (bit_vector);
}

proof fn id_of_raft_commit_index()
    ensures
        metric_id("msearchdb_raft_commit_index"@) == 0x9e3d_a882_cada_4e3c,
{
    reveal_strlit("msearchdb_raft_commit_index");
    reveal_with_fuel(hash_of, 28);
    assert(mix(
        mix(mix(mix(eight(eight(eight(SEED, 109, 115, 101, 97, 114, 99, 104, 100), 98, 95, 114,
        97, 102, 116, 95, 99), 111, 109, 109, 105, 116, 95, 105, 110), 100), 101), 120),
        255,
    ) == 0x9e3d_a882_cada_4e3c) by (bit_vector);
}

proof fn id_of_raft_leader_id()
    ensures
        metric_id("msearchdb_raft_leader_id"@) == 0x1e06_433a_d136_bbb5,
{
    reveal_strlit("msearchdb_raft_leader_id");
    reveal_with_fuel(hash_of, 25);
    assert(mix(
        eight(eight(eight(SEED, 109, 115, 101, 97, 114, 99, 104, 100), 98, 95, 114, 97, 102,
        116, 95, 108), 101, 97, 100, 101, 114, 95, 105, 100),
        255,
    ) == 0x1e06_433a_d136_bbb5) by (bit_vector);
}

proof fn id_of_raft_commit_latency_seconds()
    ensures
        metric_id("msearchdb_raft_commit_latency_seconds"@) == 0x67bd_0917_1237_54d8,
{
    reveal_strlit("msearchdb_raft_commit_latency_seconds");
    reveal_with_fuel(hash_of, 38);
    assert(mix(
        mix(mix(mix(mix(mix(eight(eight(eight(eight(SEED, 109, 115, 101, 97, 114, 99, 104, 100),
        98, 95, 114, 97, 102, 116, 95, 99), 111, 109, 109, 105, 116, 95, 108, 97), 116, 101,
        110, 99, 121, 95, 115, 101), 99), 111), 110), 100), 115),
        255,
    ) == 0x67bd_0917_1237_54d8) by (bit_vector);
}

proof fn id_of_replication_lag()
    ensures
        metric_id("msearchdb_replication_lag"@) == 0xa349_bc4e_c3ec_0d09,
{
    reveal_strlit("msearchdb_replication_lag");
    reveal_with_fuel(hash_of, 26);
    assert(mix(
        mix(eight(eight(eight(SEED, 109, 115, 101, 97, 114, 99, 104, 100), 98, 95, 114, 101,
        112, 108, 105, 99), 97, 116, 105, 111, 110, 95, 108, 97), 103),
        255,
    ) == 0xa349_bc4e_c3ec_0d09) by (bit_vector);
}

proof fn id_of_node_health()
    ensures
        metric_id("msearchdb_node_health"@) == 0xb056_3e8f_c4bb_d39f,
{
    reveal_strlit("msearchdb_node_health");
    reveal_with_fuel(hash_of, 22);
    assert(mix(
        mix(mix(mix(mix(mix(eight(eight(SEED, 109, 115, 101, 97, 114, 99, 104, 100), 98, 95,
        110, 111, 100, 101, 95, 104), 101), 97), 108), 116), 104),
        255,
    ) == 0xb056_3e8f_c4bb_d39f) by (bit_vector);
}

proof fn id_of_http_requests_total()
    ensures
        metric_id("msearchdb_http_requests_total"@) == 0x12d6_9fd9_6aa8_0210,
{
    reveal_strlit("msearchdb_http_requests_total");
    reveal_with_fuel(hash_of, 30);
    assert(mix(
        mix(mix(mix(mix(mix(eight(eight(eight(SEED, 109, 115, 101, 97, 114, 99, 104, 100), 98,
        95, 104, 116, 116, 112, 95, 114), 101, 113, 117, 101, 115, 116, 115, 95), 116), 111),
        116), 97), 108),
        255,
    ) == 0x12d6_9fd9_6aa8_0210) by (bit_vector);
}

proof fn id_of_http_request_duration_seconds()
    ensures
        metric_id("msearchdb_http_request_duration_seconds"@) == 0x6b64_1473_afa8_94e1,
{
    reveal_strlit("msearchdb_http_request_duration_seconds");
    reveal_with_fuel(hash_of, 40);
    assert(mix(
        mix(mix(mix(mix(mix(mix(mix(eight(eight(eight(eight(SEED, 109, 115, 101, 97, 114, 99,
        104, 100), 98, 95, 104, 116, 116, 112, 95, 114), 101, 113, 117, 101, 115, 116, 95, 100),
        117, 114, 97, 116, 105, 111, 110, 95), 115), 101), 99), 111), 110), 100), 115),
        255,
    ) == 0x6b64_1473_afa8_94e1) by (bit_vector);
}

proof fn id_of_cache_hits_total()
    ensures
        metric_id("msearchdb_cache_hits_total"@) == 0xe3a2_efb9_8d26_8420,
{
    reveal_strlit("msearchdb_cache_hits_total");
    reveal_with_fuel(hash_of, 27);
    assert(mix(
        mix(mix(eight(eight(eight(SEED, 109, 115, 101, 97, 114, 99, 104, 100), 98, 95, 99, 97,
        99, 104, 101, 95), 104, 105, 116, 115, 95, 116, 111, 116), 97), 108),
        255,
    ) == 0xe3a2_efb9_8d26_8420) by (bit_vector);
}

proof fn id_of_cache_misses_total()
    ensures
        metric_id("msearchdb_cache_misses_total"@) == 0xbe62_11ba_ad9c_ee32,
{
    reveal_strlit("msearchdb_cache_misses_total");
    reveal_with_fuel(hash_of, 29);
    assert(mix(
        mix(mix(mix(mix(eight(eight(eight(SEED, 109, 115, 101, 97, 114, 99, 104, 100), 98, 95,
        99, 97, 99, 104, 101, 95), 109, 105, 115, 115, 101, 115, 95, 116), 111), 116), 97), 108),
        255,
    ) == 0xbe62_11ba_ad9c_ee32) by (bit_vector);
}

proof fn id_of_active_connections()
    ensures
        metric_id("msearchdb_active_connections"@) == 0x7d0c_6213_6b59_f43c,
{
    reveal_strlit("msearchdb_active_connections");
    reveal_with_fuel(hash_of, 29);
    assert(mix(
        mix(mix(mix(mix(eight(eight(eight(SEED, 109, 115, 101, 97, 114, 99, 104, 100), 98, 95,
        97, 99, 116, 105, 118, 101), 95, 99, 111, 110, 110, 101, 99, 116), 105), 111), 110),
        115),
        255,
    ) == 0x7d0c_6213_6b59_f43c) by (bit_vector);
}

proof fn id_of_collections_total()
    ensures
        metric_id("msearchdb_collections_total"@) == 0xa81f_f570_270c_a51e,
{
    reveal_strlit("msearchdb_collections_total");
    reveal_with_fuel(hash_of, 28);
    assert(mix(
        mix(mix(mix(eight(eight(eight(SEED, 109, 115, 101, 97, 114, 99, 104, 100), 98, 95, 99,
        111, 108, 108, 101, 99), 116, 105, 111, 110, 115, 95, 116, 111), 116), 97), 108),
        255,
    ) == 0xa81f_f570_270c_a51e) by (bit_vector);
}

/// No two metrics of the node have the same number.
pub proof fn node_metrics_have_different_ids()
    ensures
        seq![
            metric_id("msearchdb_documents_total"@),
            metric_id("msearchdb_index_operations_total"@),
            metric_id("msearchdb_search_duration_seconds"@),
            metric_id("msearchdb_storage_bytes_used"@),
            metric_id("msearchdb_raft_commit_index"@),
            metric_id("msearchdb_raft_leader_id"@),
            metric_id("msearchdb_raft_commit_latency_seconds"@),
            metric_id("msearchdb_replication_lag"@),
            metric_id("msearchdb_node_health"@),
            metric_id("msearchdb_http_requests_total"@),
            metric_id("msearchdb_http_request_duration_seconds"@),
            metric_id("msearchdb_cache_hits_total"@),
            metric_id("msearchdb_cache_misses_total"@),
            metric_id("msearchdb_active_connections"@),
            metric_id("msearchdb_collections_total"@),
        ].no_duplicates(),
{
    id_of_documents_total();
    id_of_index_operations_total();
    id_of_search_duration_seconds();
    id_of_storage_bytes_used();
    id_of_raft_commit_index();
    id_of_raft_leader_id();
    id_of_raft_commit_latency_seconds();
    id_of_replication_lag();
    id_of_node_health();
    id_of_http_requests_total();
    id_of_http_request_duration_seconds();
    id_of_cache_hits_total();
    id_of_cache_misses_total();
    id_of_active_connections();
    id_of_collections_total();
}

// ---------------------------------------------------------------------------
// Laws
// ---------------------------------------------------------------------------

/// The number of a metric follows the hash by which names are told apart: from its seed on,
/// for each character in turn, and for the mark at the end of a name, the character is taken
/// in and the whole is multiplied.
pub proof fn numbers_follow_the_hash(s: Seq<char>, c: char, hash: u64, byte: u64)
    ensures
        hash_of(s, 0) == 0xcbf29ce484222325,
        hash_of(s.push(c), (s.len() + 1) as int) == mix(hash_of(s, s.len() as int), c as u64),
        metric_id(s) == mix(hash_of(s, s.len() as int), 0xff),
        mix(hash, byte) == (((hash ^ byte) as int) * 0x100000001b3) as u64,
{
    lemma_hash_prefix(s, c, s.len() as int);
}

proof fn lemma_hash_prefix(s: Seq<char>, c: char, n: int)
    requires
        0 <= n <= s.len(),
    ensures
        hash_of(s.push(c), n) == hash_of(s, n),
    decreases n,
{
    if n > 0 {
        lemma_hash_prefix(s, c, n - 1);
    }
}

} // verus!
