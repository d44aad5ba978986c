//! Assembling a buffer from successive partial reads.
//!
//! A byte stream may hand back fewer bytes than were asked for, so a
//! caller that needs an exact number of bytes keeps reading until its
//! buffer is full.  The movement of bytes in that loop is here and
//! verified; the calls into the stream are I/O and stay with the caller.

use vstd::prelude::*;

verus! {

/// One step of filling `buf` from a stream: copies `chunk`, the bytes the
/// latest partial read supplied, into `buf` at position `filled`, and
/// returns the new fill position.  The caller loops, reading into the
/// unfilled remainder and handing the bytes here, until the position
/// reaches the buffer's length.
pub fn read_full(buf: &mut [u8], filled: usize, chunk: &[u8]) -> (r: usize)
    requires
        filled + chunk@.len() <= old(buf)@.len(),
    ensures
        r == filled + chunk@.len(),
        final(buf)@.len() == old(buf)@.len(),
        final(buf)@.subrange(filled as int, r as int) == chunk@,
        final(buf)@.take(filled as int) == old(buf)@.take(filled as int),
        final(buf)@.skip(r as int) == old(buf)@.skip(r as int),
{
    let ghost orig = buf@;
    let total = buf.len();
    let mut i: usize = 0;
    while i < chunk.len()
        invariant
            0 <= i <= chunk@.len(),
            filled + chunk@.len() <= buf@.len(),
            buf@.len() == total,
            buf@.len() == orig.len(),
            forall|j: int| 0 <= j < i ==> buf@[filled + j] == chunk@[j],
            forall|j: int| 0 <= j < filled ==> buf@[j] == orig[j],
            forall|j: int| filled + chunk@.len() <= j < buf@.len() ==> buf@[j] == orig[j],
        decreases chunk@.len() - i,
    {
        buf[filled + i] = chunk[i];
        i = i + 1;
    }
    proof {
        assert(buf@.subrange(filled as int, (filled + chunk@.len()) as int) =~= chunk@);
        assert(buf@.take(filled as int) =~= orig.take(filled as int));
        assert(buf@.skip((filled + chunk@.len()) as int) =~= orig.skip(
            (filled + chunk@.len()) as int,
        ));
    }
    filled + chunk.len()
}

} // verus!
