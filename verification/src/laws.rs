//! Library-wide laws: properties that relate the cipher's operations to one
//! another, stated over the model in `crate::model` and proved once for all
//! inputs.

use vstd::prelude::*;

use crate::model::is_permutation;
use crate::model::keystream_byte;
use crate::model::lemma_key_mix_wf;
use crate::model::schedule_spec;
use crate::model::transform_spec;

verus! {

/// XOR with the same byte twice gives the original byte back.
proof fn lemma_xor_cancel(a: u8, b: u8)
    by (bit_vector)
    ensures
        (a ^ b) ^ b == a,
{
}

/// Round trip: transforming any buffer twice, each time under a table freshly
/// scheduled from the same non-empty key, returns the original buffer. The
/// keystream depends only on the table, and XOR is self-inverse.
pub proof fn lemma_round_trip(key: Seq<u8>, d: Seq<u8>)
    requires
        key.len() >= 1,
    ensures
        transform_spec(schedule_spec(key), transform_spec(schedule_spec(key), d)) == d,
{
    let s0 = schedule_spec(key);
    let once = transform_spec(s0, d);
    let twice = transform_spec(s0, once);
    assert forall|k: int| 0 <= k < d.len() implies twice[k] == d[k] by {
        lemma_xor_cancel(d[k], keystream_byte(s0, k as nat));
    };
    assert(twice =~= d);
}

/// Length preservation: a transformed buffer has exactly the length of the
/// input buffer, and the empty buffer comes back unchanged.
pub proof fn lemma_transform_length(s0: Seq<u8>, d: Seq<u8>)
    ensures
        transform_spec(s0, d).len() == d.len(),
        d.len() == 0 ==> transform_spec(s0, d) == d,
{
    if d.len() == 0 {
        assert(transform_spec(s0, d) =~= d);
    }
}

/// Permutation invariant: scheduling any non-empty key yields a table that
/// holds every byte value exactly once.
pub proof fn lemma_schedule_permutation(key: Seq<u8>)
    requires
        key.len() >= 1,
    ensures
        is_permutation(schedule_spec(key)),
{
    lemma_key_mix_wf(key, 256);
}

/// Determinism: scheduling equal keys yields equal tables, and transforming
/// equal buffers under tables scheduled from equal keys yields equal output.
pub proof fn lemma_deterministic(k1: Seq<u8>, k2: Seq<u8>, d1: Seq<u8>, d2: Seq<u8>)
    requires
        k1 == k2,
        d1 == d2,
    ensures
        schedule_spec(k1) == schedule_spec(k2),
        transform_spec(schedule_spec(k1), d1) == transform_spec(schedule_spec(k2), d2),
{
}

} // verus!
