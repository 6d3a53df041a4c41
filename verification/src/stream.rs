//! Sequence stamps, and how stale news is kept out.
//!
//! The transport may deliver datagrams late, twice or not at all.  Every
//! datagram therefore goes out with a stamp from the sender's counter in
//! front of it, four bytes, and every stream of news remembers the highest
//! stamp it has let through.  News whose stamp is not higher than that is
//! stale and is dropped; nothing else about order is promised or needed,
//! because every message tells a state and not a change to one.

use crate::codec::{datagram, encode, MessageKind};
use crate::counter::Counter;
use crate::error::NetError;
use crate::payload::Payload;
use crate::wire::{
    get_i32, i32_bits, i32_bytes, i32_value, lemma_i32_bits, lemma_u32_bytes_of_value,
    lemma_u32_value_of_bytes, put_bytes, put_i32, u32_value,
};
use vstd::prelude::*;
use vstd::slice::slice_subrange;

verus! {

/// Length of a stamp.
pub const STAMP_LEN: usize = 4;

/// What one stream of news remembers: the stamp of the last news applied.
/// Zero before any, which is below every stamp a counter hands out.
#[derive(Clone, Copy, Debug, PartialEq, Eq)]
pub struct Stream {
    pub last_applied: i32,
}

/// A datagram with its stamp in front.
pub open spec fn stamped(seq: i32, datagram: Seq<u8>) -> Seq<u8> {
    i32_bytes(seq) + datagram
}

/// Where stamp and datagram stand in a stamped datagram.
pub proof fn lemma_stamped_fields(seq: i32, datagram: Seq<u8>)
    ensures
        stamped(seq, datagram).len() == 4 + datagram.len(),
        i32_value(stamped(seq, datagram).subrange(0, 4)) == seq,
        stamped(seq, datagram).subrange(4, stamped(seq, datagram).len() as int) == datagram,
{
    let bytes = stamped(seq, datagram);
    lemma_u32_value_of_bytes(i32_bits(seq));
    lemma_i32_bits(seq, 0);
    assert(bytes.subrange(0, 4) =~= i32_bytes(seq));
    assert(bytes.subrange(4, bytes.len() as int) =~= datagram);
}

/// Stamped datagrams that are the same have the same stamp and the same
/// datagram.
pub proof fn lemma_stamped_injective(
    seq: i32,
    datagram: Seq<u8>,
    other_seq: i32,
    other_datagram: Seq<u8>,
)
    requires
        stamped(seq, datagram) == stamped(other_seq, other_datagram),
    ensures
        seq == other_seq,
        datagram == other_datagram,
{
    lemma_stamped_fields(seq, datagram);
    lemma_stamped_fields(other_seq, other_datagram);
}

/// Puts the stamp `seq` in front of `datagram`.
pub fn stamp(seq: i32, datagram: &[u8]) -> (bytes: Vec<u8>)
    ensures
        bytes@ == stamped(seq, datagram@),
{
    let mut out: Vec<u8> = Vec::new();
    put_i32(&mut out, seq);
    put_bytes(&mut out, datagram);
    assert(out@ =~= stamped(seq, datagram@));
    out
}

/// Takes the stamp off: the stamp and the datagram behind it, or `None`
/// when `bytes` is too short to hold a stamp.
pub fn unstamp(bytes: &[u8]) -> (r: Option<(i32, &[u8])>)
    ensures
        r matches Some((seq, rest)) ==> stamped(seq, rest@) == bytes@,
        r is None <==> bytes@.len() < 4,
{
    let n: usize = bytes.len();
    if n < 4 {
        return None;
    }
    let seq: i32 = get_i32(bytes, 0);
    let rest = slice_subrange(bytes, 4, n);
    proof {
        lemma_u32_bytes_of_value(bytes@.subrange(0, 4));
        lemma_i32_bits(0, u32_value(bytes@.subrange(0, 4)));
        assert(stamped(seq, rest@) =~= bytes@);
    }
    Some((seq, rest))
}

/// Host side of a send: takes the next stamp from `counter`, writes the
/// datagram that tells `payload` under `kind` and puts the stamp in front.
pub fn publish(counter: &mut Counter, kind: MessageKind, payload: &Payload) -> (bytes: Vec<u8>)
    requires
        old(counter).has_next(),
    ensures
        final(counter).count == old(counter).count + 1,
        bytes@ == stamped(final(counter).count, datagram(kind, payload@)),
{
    let seq: i32 = counter.next();
    let inner = encode(kind, payload);
    stamp(seq, inner.as_slice())
}

impl Stream {
    /// Whether news with stamp `seq` is stale for this stream: not newer
    /// than the last applied.
    pub open spec fn is_stale(self, seq: i32) -> bool {
        seq <= self.last_applied
    }

    /// What `accept` does to the stream and what it returns.
    pub open spec fn spec_accept(self, seq: i32) -> (Stream, Result<(), NetError>) {
        if self.is_stale(seq) {
            (self, Err(NetError::StaleUpdate))
        } else {
            (Stream { last_applied: seq }, Ok(()))
        }
    }

    /// A stream that has seen nothing.
    pub fn init() -> (stream: Stream)
        ensures
            stream.last_applied == 0,
    {
        Stream { last_applied: 0 }
    }

    /// Lets news with stamp `seq` through if it is newer than everything
    /// let through before, and remembers it; turns it away as stale
    /// otherwise, and remembers nothing.
    pub fn accept(&mut self, seq: i32) -> (r: Result<(), NetError>)
        ensures
            (*final(self), r) == old(self).spec_accept(seq),
            old(self).is_stale(seq) ==> r == Err::<(), NetError>(NetError::StaleUpdate)
                && *final(self) == *old(self),
            !old(self).is_stale(seq) ==> r is Ok && final(self).last_applied == seq,
    {
        if seq <= self.last_applied {
            Err(NetError::StaleUpdate)
        } else {
            self.last_applied = seq;
            Ok(())
        }
    }
}

} // verus!
