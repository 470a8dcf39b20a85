//! The stream cipher: every byte on the wire is XORed with one keystream byte,
//! and each direction keeps its own cursor into the keystream.

use vstd::prelude::*;
use crate::prng::{rng32_of, rng_32, seed_after};

verus! {

/// The keystream byte found at a cursor: the low byte of the generator's draw.
pub open spec fn keystream_byte(cursor: u64) -> u8 {
    rng32_of(cursor) as u8
}

/// `data` XORed with the keystream that starts at `cursor`, one byte per byte.
pub open spec fn apply_keystream(cursor: u64, data: Seq<u8>) -> Seq<u8> {
    Seq::new(data.len(), |i: int| data[i] ^ keystream_byte(seed_after(cursor, i as nat)))
}

/// Keystream state of one end of a connection: an outbound and an inbound
/// cursor, each advanced by one step per byte that goes its way.
pub struct Cipher {
    pub send_cursor: u64,
    pub recv_cursor: u64,
}

proof fn lemma_seed_after_add(seed: u64, i: nat, j: nat)
    ensures
        seed_after(seed_after(seed, i), j) == seed_after(seed, i + j),
    decreases j,
{
    if j > 0 {
        lemma_seed_after_add(seed, i, (j - 1) as nat);
    }
}

/// XORs `data` with the keystream at `*cursor` and moves the cursor past it.
fn xor_keystream(cursor: &mut u64, data: &[u8]) -> (r: Vec<u8>)
    ensures
        r@ == apply_keystream(*old(cursor), data@),
        *final(cursor) == seed_after(*old(cursor), data@.len()),
{
    let ghost start: u64 = *cursor;
    let mut out: Vec<u8> = Vec::with_capacity(data.len());
    let mut i: usize = 0;
    while i < data.len()
        invariant
            i <= data@.len(),
            *cursor == seed_after(start, i as nat),
            out@ =~= apply_keystream(start, data@.take(i as int)),
        decreases data@.len() - i,
    {
        let unit: u8 = rng_32(cursor) as u8;
        out.push(data[i] ^ unit);
        i = i + 1;
        assert(out@ =~= apply_keystream(start, data@.take(i as int)));
    }
    assert(data@.take(i as int) =~= data@);
    out
}

impl Cipher {
    /// Binds both cursors to the session key.
    pub fn new(session_key: u64) -> (r: Cipher)
        ensures
            r.send_cursor == session_key,
            r.recv_cursor == session_key,
    {
        Cipher { send_cursor: session_key, recv_cursor: session_key }
    }

    /// Enciphers outbound bytes and advances the outbound cursor past them.
    pub fn encrypt(&mut self, data: &[u8]) -> (r: Vec<u8>)
        ensures
            r@ == apply_keystream(old(self).send_cursor, data@),
            final(self).send_cursor == seed_after(old(self).send_cursor, data@.len()),
            final(self).recv_cursor == old(self).recv_cursor,
    {
        xor_keystream(&mut self.send_cursor, data)
    }

    /// Deciphers inbound bytes and advances the inbound cursor past them.
    pub fn decrypt(&mut self, data: &[u8]) -> (r: Vec<u8>)
        ensures
            r@ == apply_keystream(old(self).recv_cursor, data@),
            final(self).recv_cursor == seed_after(old(self).recv_cursor, data@.len()),
            final(self).send_cursor == old(self).send_cursor,
    {
        xor_keystream(&mut self.recv_cursor, data)
    }
}

/// Deciphering with the keystream that enciphered recovers the bytes exactly.
pub proof fn lemma_cipher_round_trip(cursor: u64, data: Seq<u8>)
    ensures
        apply_keystream(cursor, apply_keystream(cursor, data)) == data,
{
    let once = apply_keystream(cursor, data);
    assert forall|i: int| 0 <= i < data.len() implies
        #[trigger] apply_keystream(cursor, once)[i] == data[i] by {
        let k = keystream_byte(seed_after(cursor, i as nat));
        let d = data[i];
        assert((d ^ k) ^ k == d) by (bit_vector);
    }
    assert(apply_keystream(cursor, once) =~= data);
}

/// Enciphering a stream piece by piece, each piece from where the cursor was
/// left, gives the same bytes as enciphering it whole.
pub proof fn lemma_cipher_pieces(cursor: u64, a: Seq<u8>, b: Seq<u8>)
    ensures
        apply_keystream(cursor, a + b) == apply_keystream(cursor, a)
            + apply_keystream(seed_after(cursor, a.len()), b),
{
    assert forall|j: int| 0 <= j < b.len() implies
        #[trigger] seed_after(seed_after(cursor, a.len()), j as nat) == seed_after(cursor, (a.len() + j) as nat) by {
        lemma_seed_after_add(cursor, a.len(), j as nat);
    }
    assert(apply_keystream(cursor, a + b) =~= apply_keystream(cursor, a)
        + apply_keystream(seed_after(cursor, a.len()), b));
}

} // verus!
