//! Packetization: slicing one produced frame into header-prefixed wire
//! packets.
//!
//! A frame of `N` bytes and a payload size of `C` yield `ceil(N / C)`
//! packets.  Each packet is a two-byte big-endian header followed by the
//! next consecutive slice of the frame; the header holds the slice's byte
//! offset within the receiver's buffer, so every packet tells the receiver
//! on its own where its payload belongs, whatever order packets arrive in.

use vstd::prelude::*;

verus! {

/// How many packets a frame of `frame_len` bytes yields at `payload_size`
/// bytes of payload per packet.
pub open spec fn num_packets(frame_len: int, payload_size: int) -> int
    recommends
        payload_size >= 1,
{
    (frame_len + payload_size - 1) / payload_size
}

/// Payload length of packet `i`: a full `payload_size`, except that the
/// last packet carries just the remainder of the frame.
pub open spec fn chunk_len(frame_len: int, payload_size: int, i: int) -> int {
    if frame_len - i * payload_size < payload_size {
        frame_len - i * payload_size
    } else {
        payload_size
    }
}

/// High byte of a big-endian 16-bit offset.
pub open spec fn offset_hi(offset: int) -> u8 {
    (offset / 256) as u8
}

/// Low byte of a big-endian 16-bit offset.
pub open spec fn offset_lo(offset: int) -> u8 {
    (offset % 256) as u8
}

/// The offset a packet's two header bytes announce.
pub open spec fn header_offset(packet: Seq<u8>) -> int {
    packet[0] * 256 + packet[1]
}

/// Packet `i` of a frame: big-endian header bytes for offset
/// `i * payload_size`, then that slice of the frame.
pub open spec fn spec_packet(frame: Seq<u8>, payload_size: int, i: int) -> Seq<u8> {
    seq![offset_hi(i * payload_size), offset_lo(i * payload_size)] + frame.subrange(
        i * payload_size,
        i * payload_size + chunk_len(frame.len() as int, payload_size, i),
    )
}

/// The payloads of a packet sequence, concatenated in packet order with
/// the two header bytes of each packet stripped.
pub open spec fn payload_concat(packets: Seq<Vec<u8>>) -> Seq<u8>
    decreases packets.len(),
{
    if packets.len() == 0 {
        Seq::empty()
    } else {
        payload_concat(packets.drop_last()) + packets.last()@.skip(2)
    }
}

/// `i` is the exact quotient whenever `n` lies in `(i*c - c, i*c]`
/// rounded up — the characterization of `ceil(n / c)`.
proof fn lemma_ceil_div(n: int, c: int, i: int)
    requires
        c >= 1,
        i >= 0,
        i * c >= n,
        i * c < n + c,
    ensures
        i == num_packets(n, c),
{
    let m = n + c - 1;
    vstd::arithmetic::div_mod::lemma_fundamental_div_mod_converse(m, c, i, m - i * c);
}

/// Slice `frame` into consecutive packets of at most `payload_size`
/// payload bytes, each prefixed with its big-endian destination offset.
/// Concatenating the payloads in packet order reconstructs the frame
/// exactly.
pub fn packetize(frame: &Vec<u8>, payload_size: usize) -> (r: Vec<Vec<u8>>)
    requires
        payload_size >= 1,
        payload_size <= 65536,
        frame@.len() <= 65536,
    ensures
        r@.len() == num_packets(frame@.len() as int, payload_size as int),
        forall|i: int|
            0 <= i < r@.len() ==> (#[trigger] r@[i])@ == spec_packet(
                frame@,
                payload_size as int,
                i,
            ),
        payload_concat(r@) == frame@,
{
    let frame_len: usize = frame.len();
    let mut out: Vec<Vec<u8>> = Vec::new();
    let mut start: usize = 0;
    proof {
        vstd::arithmetic::mul::lemma_mul_basics(payload_size as int);
    }
    while start < frame_len
        invariant
            payload_size >= 1,
            payload_size <= 65536,
            frame_len == frame@.len() <= 65536,
            start as int == out@.len() * payload_size as int,
            start < frame_len + payload_size,
            forall|i: int|
                0 <= i < out@.len() ==> (#[trigger] out@[i])@ == spec_packet(
                    frame@,
                    payload_size as int,
                    i,
                ),
            payload_concat(out@) == frame@.take(if start < frame_len {
                start as int
            } else {
                frame_len as int
            }),
        decreases frame_len + payload_size - start,
    {
        let ghost i = out@.len() as int;
        let ghost c = payload_size as int;
        let end: usize = if frame_len - start < payload_size {
            frame_len
        } else {
            start + payload_size
        };
        assert(end - start == chunk_len(frame@.len() as int, c, i));
        let mut packet: Vec<u8> = Vec::new();
        packet.push((start / 256) as u8);
        packet.push((start % 256) as u8);
        let mut k: usize = start;
        while k < end
            invariant
                start <= k <= end,
                end <= frame_len == frame@.len(),
                packet@ == seq![
                    offset_hi(start as int),
                    offset_lo(start as int),
                ] + frame@.subrange(start as int, k as int),
            decreases end - k,
        {
            packet.push(frame[k]);
            proof {
                assert(frame@.subrange(start as int, k + 1 as int) =~= frame@.subrange(
                    start as int,
                    k as int,
                ).push(frame@[k as int]));
            }
            k = k + 1;
        }
        proof {
            assert(packet@ =~= spec_packet(frame@, c, i));
        }
        let ghost old_out = out@;
        out.push(packet);
        proof {
            assert(out@.drop_last() =~= old_out);
            assert(payload_concat(out@) == payload_concat(old_out) + packet@.skip(2));
            assert(packet@.skip(2) =~= frame@.subrange(start as int, end as int));
            assert(frame@.take(start as int) + frame@.subrange(start as int, end as int)
                =~= frame@.take(end as int));
            vstd::arithmetic::mul::lemma_mul_is_distributive_add_other_way(
                c,
                old_out.len() as int,
                1,
            );
            assert((old_out.len() + 1) * c == old_out.len() * c + c);
        }
        start = start + payload_size;
    }
    proof {
        if frame_len == 0 {
            assert(out@.len() == 0) by (nonlinear_arith)
                requires
                    start as int == out@.len() * payload_size as int,
                    start < frame_len + payload_size,
                    frame_len == 0,
                    payload_size >= 1,
            ;
            assert(num_packets(0, payload_size as int) == 0) by {
                vstd::arithmetic::div_mod::lemma_fundamental_div_mod_converse(
                    payload_size as int - 1,
                    payload_size as int,
                    0,
                    payload_size as int - 1,
                );
            }
            assert(payload_concat(out@) =~= frame@);
        } else {
            lemma_ceil_div(frame_len as int, payload_size as int, out@.len() as int);
            assert(frame@.take(frame_len as int) =~= frame@);
        }
    }
    out
}

/// The headers of a frame's packets announce exactly the offsets
/// `0, payload_size, 2 * payload_size, ...`: non-decreasing multiples of
/// the receiver's block size, covering the frame with no gap and no
/// overlap (packet `i` holds precisely bytes `i * payload_size` up to
/// `i * payload_size + chunk_len`).
pub proof fn lemma_header_offsets(frame: Seq<u8>, payload_size: int)
    requires
        payload_size >= 1,
        frame.len() <= 65536,
    ensures
        forall|i: int|
            0 <= i < num_packets(frame.len() as int, payload_size) ==> header_offset(
                #[trigger] spec_packet(frame, payload_size, i),
            ) == i * payload_size,
        forall|i: int|
            0 <= i < num_packets(frame.len() as int, payload_size) ==> (#[trigger] (
            i * payload_size)) % payload_size == 0,
        forall|i: int, j: int|
            0 <= i <= j < num_packets(frame.len() as int, payload_size) ==> #[trigger] (i
                * payload_size) <= #[trigger] (j * payload_size),
{
    assert forall|i: int, j: int|
        0 <= i <= j < num_packets(frame.len() as int, payload_size) implies #[trigger] (i
        * payload_size) <= #[trigger] (j * payload_size) by {
        vstd::arithmetic::mul::lemma_mul_inequality(i, j, payload_size);
    }
    let n = num_packets(frame.len() as int, payload_size);
    vstd::arithmetic::div_mod::lemma_fundamental_div_mod(
        frame.len() as int + payload_size - 1,
        payload_size,
    );
    assert forall|i: int| 0 <= i < n implies header_offset(
        #[trigger] spec_packet(frame, payload_size, i),
    ) == i * payload_size by {
        let off = i * payload_size;
        vstd::arithmetic::mul::lemma_mul_inequality(i, n - 1, payload_size);
        vstd::arithmetic::mul::lemma_mul_is_distributive_sub_other_way(payload_size, n, 1);
        assert(off <= 65535);
        vstd::arithmetic::div_mod::lemma_fundamental_div_mod(off, 256);
        assert(header_offset(spec_packet(frame, payload_size, i)) == offset_hi(off) * 256
            + offset_lo(off));
    }
    assert forall|i: int| 0 <= i < n implies (#[trigger] (i * payload_size)) % payload_size
        == 0 by {
        vstd::arithmetic::div_mod::lemma_mod_multiples_basic(i, payload_size);
    }
}

} // verus!
