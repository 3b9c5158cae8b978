//! Mathematical model of the cipher: the key-scheduling and keystream state
//! machines as recursive spec functions over `Seq<u8>`, and the permutation
//! invariant of the 256-entry table.

use vstd::prelude::*;

verus! {

/// The table before key mixing: position `k` holds the value `k`.
pub open spec fn init_state() -> Seq<u8> {
    Seq::new(256, |k: int| k as u8)
}

/// Exchange the entries at positions `a` and `b`.
pub open spec fn swap_seq(s: Seq<u8>, a: int, b: int) -> Seq<u8> {
    s.update(a, s[b]).update(b, s[a])
}

/// The table holds every byte value exactly once.
pub open spec fn is_permutation(s: Seq<u8>) -> bool {
    &&& s.len() == 256
    &&& forall|v: u8| #[trigger] s.contains(v)
    &&& forall|x: int, y: int|
        0 <= x < 256 && 0 <= y < 256 && x != y ==> s[x] != s[y]
}

/// The table and the running index `j` after the first `n` rounds of key
/// scheduling: round `i` sets `j = (j + s[i] + key[i mod |key|]) mod 256`
/// and swaps `s[i]` with `s[j]`.
pub open spec fn key_mix(key: Seq<u8>, n: nat) -> (Seq<u8>, int)
    decreases n,
{
    if n == 0 {
        (init_state(), 0)
    } else {
        let prev = key_mix(key, (n - 1) as nat);
        let s = prev.0;
        let i: int = n - 1;
        let j: int = (prev.1 + s[i] + key[i % (key.len() as int)]) % 256;
        (swap_seq(s, i, j), j)
    }
}

/// The permutation table scheduled from `key`: 256 rounds of key mixing.
pub open spec fn schedule_spec(key: Seq<u8>) -> Seq<u8> {
    key_mix(key, 256).0
}

/// The table and the cursor pair `(i, j)` after `n` keystream steps, starting
/// from table `s0` and cursors `(0, 0)`: each step sets `i = (i + 1) mod 256`,
/// `j = (j + s[i]) mod 256`, then swaps `s[i]` with `s[j]`.
pub open spec fn stream_state(s0: Seq<u8>, n: nat) -> (Seq<u8>, int, int)
    decreases n,
{
    if n == 0 {
        (s0, 0, 0)
    } else {
        let prev = stream_state(s0, (n - 1) as nat);
        let s = prev.0;
        let i: int = (prev.1 + 1) % 256;
        let j: int = (prev.2 + s[i]) % 256;
        (swap_seq(s, i, j), i, j)
    }
}

/// The keystream byte combined with the data byte at position `n` (counting
/// from zero): after the swap of step `n + 1`, the entry at
/// `(s[i] + s[j]) mod 256`.
pub open spec fn keystream_byte(s0: Seq<u8>, n: nat) -> u8 {
    let st = stream_state(s0, n + 1);
    st.0[(st.0[st.1] + st.0[st.2]) % 256]
}

/// The buffer `d` with the keystream drawn from `s0` XORed in, byte for byte.
pub open spec fn transform_spec(s0: Seq<u8>, d: Seq<u8>) -> Seq<u8> {
    Seq::new(d.len(), |k: int| d[k] ^ keystream_byte(s0, k as nat))
}

/// The initial table is a permutation.
pub proof fn lemma_init_is_permutation()
    ensures
        is_permutation(init_state()),
{
    let s = init_state();
    assert forall|v: u8| #[trigger] s.contains(v) by {
        assert(s[v as int] == v);
    };
    assert forall|x: int, y: int|
        0 <= x < 256 && 0 <= y < 256 && x != y implies s[x] != s[y] by {
        assert(s[x] == x as u8);
        assert(s[y] == y as u8);
    };
}

/// A swap of two in-range positions keeps the table a permutation.
pub proof fn lemma_swap_permutation(s: Seq<u8>, a: int, b: int)
    requires
        is_permutation(s),
        0 <= a < 256,
        0 <= b < 256,
    ensures
        is_permutation(swap_seq(s, a, b)),
{
    let s2 = swap_seq(s, a, b);
    assert forall|v: u8| #[trigger] s2.contains(v) by {
        assert(s.contains(v));
        let k = choose|k: int| 0 <= k < s.len() && s[k] == v;
        if k == a {
            assert(s2[b] == v);
        } else if k == b {
            assert(s2[a] == v);
        } else {
            assert(s2[k] == v);
        }
    };
}

/// Every key-mixing round up to 256 keeps the table a permutation and the
/// running index within the byte range.
pub proof fn lemma_key_mix_wf(key: Seq<u8>, n: nat)
    requires
        key.len() >= 1,
        n <= 256,
    ensures
        is_permutation(key_mix(key, n).0),
        0 <= key_mix(key, n).1 < 256,
    decreases n,
{
    if n == 0 {
        lemma_init_is_permutation();
    } else {
        lemma_key_mix_wf(key, (n - 1) as nat);
        let prev = key_mix(key, (n - 1) as nat);
        let i: int = n - 1;
        let j: int = (prev.1 + prev.0[i] + key[i % (key.len() as int)]) % 256;
        lemma_swap_permutation(prev.0, i, j);
    }
}

/// Every keystream step keeps the table a permutation and both cursors within
/// the byte range.
pub proof fn lemma_stream_state_wf(s0: Seq<u8>, n: nat)
    requires
        is_permutation(s0),
    ensures
        is_permutation(stream_state(s0, n).0),
        0 <= stream_state(s0, n).1 < 256,
        0 <= stream_state(s0, n).2 < 256,
    decreases n,
{
    if n > 0 {
        lemma_stream_state_wf(s0, (n - 1) as nat);
        let prev = stream_state(s0, (n - 1) as nat);
        let i: int = (prev.1 + 1) % 256;
        let j: int = (prev.2 + prev.0[i]) % 256;
        lemma_swap_permutation(prev.0, i, j);
    }
}

} // verus!
