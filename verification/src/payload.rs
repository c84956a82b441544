//! The editor's composited canvas arrives as one raw payload: width and
//! height as little-endian `u32`s, then the RGBA bytes.
use vstd::prelude::*;
use vstd::string::*;

verus! {

/// The little-endian `u32` stored in `s[off..off + 4]`.
pub open spec fn le_u32_at(s: Seq<u8>, off: int) -> nat {
    (s[off] as nat) + 256 * (s[off + 1] as nat) + 65536 * (s[off + 2] as nat)
        + 16777216 * (s[off + 3] as nat)
}

/// Why a payload was refused.
pub enum PayloadFault {
    TooShort,
    SizeMismatch,
}

/// What parsing a payload gives: the header's dimensions and the pixel
/// bytes behind it, or the fault.
pub open spec fn annotated_outcome(bytes: Seq<u8>) -> Result<(nat, nat, Seq<u8>), PayloadFault> {
    if bytes.len() < 8 {
        Err(PayloadFault::TooShort)
    } else {
        let w = le_u32_at(bytes, 0);
        let h = le_u32_at(bytes, 4);
        let rgba = bytes.subrange(8, bytes.len() as int);
        if rgba.len() != w * h * 4 {
            Err(PayloadFault::SizeMismatch)
        } else {
            Ok((w, h, rgba))
        }
    }
}

/// The message the editor is shown for a fault.
pub open spec fn fault_message(f: PayloadFault) -> Seq<char> {
    match f {
        PayloadFault::TooShort => "payload too short"@,
        PayloadFault::SizeMismatch => "payload size mismatch"@,
    }
}

fn read_le_u32(bytes: &[u8], off: usize) -> (v: u32)
    requires
        off + 4 <= bytes@.len(),
    ensures
        v as nat == le_u32_at(bytes@, off as int),
{
    let b0 = bytes[off] as u32;
    let b1 = bytes[off + 1] as u32;
    let b2 = bytes[off + 2] as u32;
    let b3 = bytes[off + 3] as u32;
    b0 + 256 * b1 + 65536 * b2 + 16777216 * b3
}

/// Splits a composited canvas payload into its width, height and pixels.
pub fn parse_annotated(bytes: &[u8]) -> (r: Result<(usize, usize, &[u8]), String>)
    ensures
        match annotated_outcome(bytes@) {
            Ok((w, h, rgba)) => r matches Ok((rw, rh, rr)) && rw == w && rh == h && rr@ == rgba,
            Err(f) => r matches Err(e) && e@ == fault_message(f),
        },
{
    if bytes.len() < 8 {
        let e = String::from_str("payload too short");
        proof { reveal_strlit("payload too short"); }
        return Err(e);
    }
    let width = read_le_u32(bytes, 0);
    let height = read_le_u32(bytes, 4);
    let rgba = &bytes[8..bytes.len()];
    let w128 = width as u128;
    let h128 = height as u128;
    assert(w128 * h128 <= 0xffff_ffff * 0xffff_ffff) by (nonlinear_arith)
        requires w128 <= 0xffff_ffff, h128 <= 0xffff_ffff;
    let expected: u128 = w128 * h128 * 4;
    if rgba.len() as u128 != expected {
        let e = String::from_str("payload size mismatch");
        proof { reveal_strlit("payload size mismatch"); }
        return Err(e);
    }
    Ok((width as usize, height as usize, rgba))
}

/// The four little-endian bytes of `v`.
pub open spec fn le_bytes(v: u32) -> Seq<u8> {
    seq![(v & 0xff) as u8, ((v >> 8) & 0xff) as u8, ((v >> 16) & 0xff) as u8, ((v >> 24) & 0xff) as u8]
}

/// The payload the editor sends for a `width` x `height` canvas.
pub open spec fn annotated_payload(width: u32, height: u32, rgba: Seq<u8>) -> Seq<u8> {
    le_bytes(width) + le_bytes(height) + rgba
}

proof fn lemma_le_bytes_read(v: u32)
    ensures
        le_u32_at(le_bytes(v), 0) == v,
{
    let b = le_bytes(v);
    let b0 = v & 0xff;
    let b1 = (v >> 8) & 0xff;
    let b2 = (v >> 16) & 0xff;
    let b3 = (v >> 24) & 0xff;
    assert((v & 0xff) < 256 && ((v >> 8) & 0xff) < 256 && ((v >> 16) & 0xff) < 256 && ((v >> 24)
        & 0xff) < 256) by (bit_vector);
    assert((v & 0xff) + 256 * ((v >> 8) & 0xff) + 65536 * ((v >> 16) & 0xff) + 16777216 * ((v >> 24)
        & 0xff) == v) by (bit_vector);
    assert(b[0] == b0 && b[1] == b1 && b[2] == b2 && b[3] == b3);
}

/// A payload the editor builds for a canvas parses back to that canvas's
/// width, height and pixels.
pub proof fn lemma_annotated_roundtrip(width: u32, height: u32, rgba: Seq<u8>)
    requires
        rgba.len() == width * height * 4,
    ensures
        annotated_outcome(annotated_payload(width, height, rgba)) == Ok::<(nat, nat, Seq<u8>), PayloadFault>(
            (width as nat, height as nat, rgba),
        ),
{
    let p = annotated_payload(width, height, rgba);
    lemma_le_bytes_read(width);
    lemma_le_bytes_read(height);
    assert(p.subrange(0, 4) =~= le_bytes(width));
    assert(p.subrange(4, 8) =~= le_bytes(height));
    assert(le_u32_at(p, 0) == le_u32_at(le_bytes(width), 0));
    assert(le_u32_at(p, 4) == le_u32_at(le_bytes(height), 0)) by {
        assert(p[4] == le_bytes(height)[0]);
        assert(p[5] == le_bytes(height)[1]);
        assert(p[6] == le_bytes(height)[2]);
        assert(p[7] == le_bytes(height)[3]);
    }
    assert(p.subrange(8, p.len() as int) =~= rgba);
}

/// Whatever parses back gives pixels of exactly `width * height` RGBA
/// values, and the payload is that canvas's payload.
pub proof fn lemma_parsed_payload_is_canvas(bytes: Seq<u8>)
    ensures
        annotated_outcome(bytes) matches Ok((w, h, rgba)) ==> rgba.len() == w * h * 4 && bytes
            =~= bytes.subrange(0, 8) + rgba,
{
}

} // verus!
