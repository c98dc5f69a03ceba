//! WebSocket frame header detector (RFC6455, first packet only).

use vstd::prelude::*;

verus! {

/// Parsed WebSocket frame header.
#[derive(Debug, Clone, Copy, PartialEq, Eq)]
pub struct WsFrameHeader {
    /// FIN bit.
    pub fin: bool,
    /// Opcode (0..=15).
    pub opcode: u8,
    /// Payload length.
    pub payload_len: u64,
    /// Masked bit.
    pub masked: bool,
}

/// Big-endian value of the eight bytes `p[2..10]`.
pub open spec fn be64_at2(p: Seq<u8>) -> int {
    p[2] * 0x100_0000_0000_0000 + p[3] * 0x1_0000_0000_0000 + p[4] * 0x100_0000_0000 + p[5] * 0x1_0000_0000
        + p[6] * 0x100_0000 + p[7] * 0x1_0000 + p[8] * 0x100 + p[9]
}

/// Opcodes accepted as a frame start: continuation, text, binary, close,
/// ping, pong.
pub open spec fn known_opcode(op: u8) -> bool {
    op <= 2 || (8 <= op && op <= 10)
}

/// The frame header at the start of `p`, when the first bytes hold a
/// complete one (length field and masking key included) with a known opcode
/// and, for the 64-bit length form, a clear most significant bit.
pub open spec fn ws_frame(p: Seq<u8>) -> Option<WsFrameHeader> {
    if p.len() < 2 {
        None
    } else {
        let b0 = p[0];
        let b1 = p[1];
        let fin = b0 >= 0x80;
        let opcode = (b0 % 16) as u8;
        let masked = b1 >= 0x80;
        let len7 = b1 % 128;
        let mask_len: int = if masked { 4 } else { 0 };
        if len7 == 126 {
            if p.len() < 4 || p.len() < 4 + mask_len || !known_opcode(opcode) {
                None
            } else {
                Some(WsFrameHeader { fin, opcode, payload_len: (p[2] * 256 + p[3]) as u64, masked })
            }
        } else if len7 == 127 {
            if p.len() < 10 || be64_at2(p) >= 0x8000_0000_0000_0000 || p.len() < 10 + mask_len
                || !known_opcode(opcode) {
                None
            } else {
                Some(WsFrameHeader { fin, opcode, payload_len: be64_at2(p) as u64, masked })
            }
        } else {
            if p.len() < 2 + mask_len || !known_opcode(opcode) {
                None
            } else {
                Some(WsFrameHeader { fin, opcode, payload_len: len7 as u64, masked })
            }
        }
    }
}

/// Detect a WS frame header at the start of `payload`.
pub fn detect_ws_frame(payload: &[u8]) -> (r: Option<WsFrameHeader>)
    ensures
        r == ws_frame(payload@),
{
    let n = payload.len();
    if n < 2 {
        return None;
    }
    let b0 = payload[0];
    let b1 = payload[1];
    let fin = b0 >= 0x80;
    let opcode: u8 = b0 % 16;
    let masked = b1 >= 0x80;
    let len7: u8 = b1 % 128;
    let (payload_len, hdr_len): (u64, usize) = if len7 == 126 {
        if n < 4 {
            return None;
        }
        (payload[2] as u64 * 256 + payload[3] as u64, 4)
    } else if len7 == 127 {
        if n < 10 {
            return None;
        }
        if payload[2] >= 0x80 {
            return None;
        }
        let v: u64 = payload[2] as u64 * 0x100_0000_0000_0000 + payload[3] as u64 * 0x1_0000_0000_0000
            + payload[4] as u64 * 0x100_0000_0000 + payload[5] as u64 * 0x1_0000_0000
            + payload[6] as u64 * 0x100_0000 + payload[7] as u64 * 0x1_0000 + payload[8] as u64 * 0x100
            + payload[9] as u64;
        (v, 10)
    } else {
        (len7 as u64, 2)
    };
    let need: usize = hdr_len + if masked { 4 } else { 0 };
    if n < need {
        return None;
    }
    if !(opcode <= 2 || (8 <= opcode && opcode <= 10)) {
        return None;
    }
    Some(WsFrameHeader { fin, opcode, payload_len, masked })
}

/// The opcodes of RFC 6455 frames: continuation (0), text (1), binary (2),
/// close (8), ping (9) and pong (10). A detected frame carries one of them,
/// read from the low nibble of the first byte, with FIN and MASK read from
/// the top bits of the first two bytes; and every frame whose header is
/// complete (2 bytes, 4 more for 16-bit length, 4 more for a mask) with
/// such an opcode is detected, with its 7- or 16-bit payload length.
pub proof fn lemma_ws_opcodes(p: Seq<u8>)
    ensures
        ws_frame(p) matches Some(h) ==> {
            &&& h.opcode == p[0] % 16
            &&& (h.opcode <= 2 || h.opcode == 8 || h.opcode == 9 || h.opcode == 10)
            &&& h.fin == (p[0] >= 0x80)
            &&& h.masked == (p[1] >= 0x80)
        },
        ({
            let op = p[0] % 16;
            let mask: int = if p.len() >= 2 && p[1] >= 0x80 { 4 } else { 0 };
            (p.len() >= 2 && p[1] % 128 < 126 && p.len() >= 2 + mask && (op <= 2 || op == 8 || op == 9 || op == 10))
                ==> ws_frame(p) == Some(
                WsFrameHeader { fin: p[0] >= 0x80, opcode: op as u8, payload_len: (p[1] % 128) as u64, masked: p[1] >= 0x80 },
            )
        }),
        ({
            let op = p[0] % 16;
            let mask: int = if p.len() >= 2 && p[1] >= 0x80 { 4 } else { 0 };
            (p.len() >= 4 && p[1] % 128 == 126 && p.len() >= 4 + mask && (op <= 2 || op == 8 || op == 9 || op == 10))
                ==> ws_frame(p) == Some(
                WsFrameHeader {
                    fin: p[0] >= 0x80,
                    opcode: op as u8,
                    payload_len: (p[2] * 256 + p[3]) as u64,
                    masked: p[1] >= 0x80,
                },
            )
        }),
{
}

} // verus!
