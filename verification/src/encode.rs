//! Encoding stage logic around the stateful codec: the worst-case
//! packet buffer and the truncation of a codec result to its reported
//! length.  The codec itself is an external collaborator; whatever
//! length it reports is checked here before a packet is let through.

use vstd::prelude::*;

verus! {

/// A zeroed worst-case output buffer for one frame.
pub fn worst_case_buffer(max_bytes: usize) -> (r: Vec<u8>)
    ensures
        r@.len() == max_bytes,
        forall|i: int| 0 <= i < max_bytes ==> r@[i] == 0u8,
{
    let r = vec![0u8; max_bytes];
    r
}

/// Cuts a filled worst-case buffer down to the length the codec
/// reported: the packet is exactly the first `reported_len` bytes.  A
/// report longer than the buffer cannot name real output and yields
/// no packet.
pub fn finish_packet(buf: Vec<u8>, reported_len: usize) -> (r: Option<Vec<u8>>)
    ensures
        reported_len <= buf@.len() ==> (r matches Some(p) && p@ == buf@.take(
            reported_len as int,
        )),
        reported_len > buf@.len() ==> r is None,
{
    if reported_len <= buf.len() {
        let ghost orig = buf@;
        let mut packet = buf;
        packet.truncate(reported_len);
        assert(packet@ =~= orig.take(reported_len as int));
        Some(packet)
    } else {
        None
    }
}

} // verus!
