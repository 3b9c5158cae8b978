//! Executable cipher operations: key scheduling, in-place keystream
//! transformation, and the skip-region composition over the two, each proved
//! against the model in `crate::model`.

use vstd::prelude::*;

use crate::model::init_state;
use crate::model::is_permutation;
use crate::model::key_mix;
use crate::model::keystream_byte;
use crate::model::lemma_key_mix_wf;
use crate::model::lemma_stream_state_wf;
use crate::model::schedule_spec;
use crate::model::stream_state;
use crate::model::transform_spec;

verus! {

/// The ways a cipher operation can be refused. No operation mutates its
/// buffer when it returns one of these.
#[derive(Clone, Copy, Debug, PartialEq, Eq, Structural)]
pub enum CipherError {
    /// The key is empty: scheduling is refused before any round runs.
    InvalidKey,
    /// The skip count exceeds the buffer length: the transformation is
    /// refused before any byte changes.
    InvalidSkipCount,
}

/// Derive the permutation table from `key`, in place: initialize `s_box` to
/// the identity table, then run the 256 key-mixing rounds over it.
pub fn key_setup(key: &Vec<u8>, s_box: &mut Vec<u8>)
    requires
        key@.len() >= 1,
        old(s_box)@.len() == 256,
    ensures
        final(s_box)@ == schedule_spec(key@),
        is_permutation(final(s_box)@),
{
    let mut idx: usize = 0;
    while idx < 256
        invariant
            s_box@.len() == 256,
            idx <= 256,
            forall|k: int| 0 <= k < idx ==> s_box@[k] == k as u8,
        decreases 256 - idx,
    {
        s_box[idx] = idx as u8;
        idx = idx + 1;
    }
    proof {
        assert(s_box@ =~= init_state());
        assert((s_box@, 0int) == key_mix(key@, 0));
    }
    let key_len: usize = key.len();
    let mut j: usize = 0;
    let mut i: usize = 0;
    while i < 256
        invariant
            key@.len() >= 1,
            key_len == key@.len(),
            s_box@.len() == 256,
            i <= 256,
            j < 256,
            (s_box@, j as int) == key_mix(key@, i as nat),
        decreases 256 - i,
    {
        j = (j + s_box[i] as usize + key[i % key_len] as usize) % 256;
        let si = s_box[i];
        let sj = s_box[j];
        s_box[i] = sj;
        s_box[j] = si;
        proof {
            assert((s_box@, j as int) == key_mix(key@, (i + 1) as nat));
        }
        i = i + 1;
    }
    proof {
        lemma_key_mix_wf(key@, 256);
    }
}

/// XOR the keystream drawn from `s_box` into `data`, one byte per position,
/// advancing the cursor pair from `(0, 0)` across the whole buffer. The
/// table is consumed: it is left in the state the final step produced, so it
/// must be re-scheduled before serving another stream.
pub fn stream_generation(data: &mut Vec<u8>, s_box: &mut Vec<u8>)
    requires
        old(s_box)@.len() == 256,
    ensures
        final(data)@.len() == old(data)@.len(),
        final(data)@ == transform_spec(old(s_box)@, old(data)@),
        final(s_box)@ == stream_state(old(s_box)@, old(data)@.len() as nat).0,
        is_permutation(old(s_box)@) ==> is_permutation(final(s_box)@),
{
    let ghost s0 = s_box@;
    let ghost d0 = data@;
    let data_len: usize = data.len();
    let mut i: usize = 0;
    let mut j: usize = 0;
    let mut index: usize = 0;
    while index < data_len
        invariant
            s_box@.len() == 256,
            data@.len() == d0.len(),
            data_len == d0.len(),
            index <= data_len,
            i < 256,
            j < 256,
            (s_box@, i as int, j as int) == stream_state(s0, index as nat),
            forall|k: int| 0 <= k < index ==> data@[k] == #[trigger] d0[k] ^ keystream_byte(s0, k as nat),
            forall|k: int| index <= k < d0.len() ==> data@[k] == d0[k],
        decreases data_len - index,
    {
        i = (i + 1) % 256;
        j = (j + s_box[i] as usize) % 256;
        let si = s_box[i];
        let sj = s_box[j];
        s_box[i] = sj;
        s_box[j] = si;
        proof {
            assert((s_box@, i as int, j as int) == stream_state(s0, (index + 1) as nat));
        }
        let t: usize = (s_box[i] as usize + s_box[j] as usize) % 256;
        let k = s_box[t];
        proof {
            assert(k == keystream_byte(s0, index as nat));
        }
        let d = data[index];
        data[index] = d ^ k;
        index = index + 1;
    }
    proof {
        assert(data@ =~= transform_spec(s0, d0));
        if is_permutation(s0) {
            lemma_stream_state_wf(s0, d0.len() as nat);
        }
    }
}

/// Schedule a fresh permutation table from `key`. An empty key is refused
/// with `CipherError::InvalidKey`; any non-empty key yields the table the
/// key-scheduling algorithm defines.
pub fn schedule(key: &Vec<u8>) -> (r: Result<Vec<u8>, CipherError>)
    ensures
        r is Ok <==> key@.len() >= 1,
        match r {
            Ok(s) => s@ == schedule_spec(key@) && is_permutation(s@),
            Err(e) => e == CipherError::InvalidKey,
        },
{
    if key.len() == 0 {
        return Err(CipherError::InvalidKey);
    }
    let mut s_box: Vec<u8> = Vec::new();
    let mut n: usize = 0;
    while n < 256
        invariant
            s_box@.len() == n,
            n <= 256,
        decreases 256 - n,
    {
        s_box.push(0u8);
        n = n + 1;
    }
    key_setup(key, &mut s_box);
    Ok(s_box)
}

/// Encrypt or decrypt `data` in place under `key`, leaving the first `skip`
/// bytes untouched; the keystream starts fresh at the boundary, so the
/// skipped bytes do not advance it. An empty key is refused with
/// `CipherError::InvalidKey`, a skip count beyond the buffer with
/// `CipherError::InvalidSkipCount`, each checked in that order before any
/// byte changes: on an error the buffer is exactly as it was.
pub fn apply_cipher(key: &Vec<u8>, data: &mut Vec<u8>, skip: usize) -> (r: Result<(), CipherError>)
    ensures
        r is Ok <==> key@.len() >= 1 && skip <= old(data)@.len(),
        match r {
            Ok(_) => final(data)@ == old(data)@.take(skip as int)
                + transform_spec(schedule_spec(key@), old(data)@.skip(skip as int)),
            Err(e) => {
                &&& final(data)@ == old(data)@
                &&& (e == CipherError::InvalidKey <==> key@.len() == 0)
                &&& (e == CipherError::InvalidSkipCount
                    <==> key@.len() >= 1 && skip > old(data)@.len())
            },
        },
{
    let ghost d0 = data@;
    let mut s_box = match schedule(key) {
        Ok(s) => s,
        Err(e) => {
            return Err(e);
        },
    };
    if skip > data.len() {
        return Err(CipherError::InvalidSkipCount);
    }
    let mut tail = data.split_off(skip);
    stream_generation(&mut tail, &mut s_box);
    data.append(&mut tail);
    proof {
        assert(data@ =~= d0.take(skip as int) + transform_spec(schedule_spec(key@), d0.skip(skip as int)));
    }
    Ok(())
}

} // verus!
