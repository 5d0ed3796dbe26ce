//! Turning raw file bytes into text: strip any leading byte-order-mark,
//! then decode the rest as UTF-8.
use vstd::prelude::*;

use vstd::utf8::decode_utf8;
use vstd::utf8::valid_utf8;

verus! {

/// The byte encoding of the byte-order-mark, `EF BB BF`.
pub open spec fn bom_at(b: Seq<u8>, off: int) -> bool {
    off + 3 <= b.len() && b[off] == 0xefu8 && b[off + 1] == 0xbbu8 && b[off + 2] == 0xbfu8
}

/// The bytes with every leading byte-order-mark removed.
pub open spec fn strip_bom(b: Seq<u8>) -> Seq<u8>
    decreases b.len(),
{
    if bom_at(b, 0) {
        strip_bom(b.skip(3))
    } else {
        b
    }
}

/// The text a byte buffer decodes to: its UTF-8 decoding after the leading
/// byte-order-marks are dropped, or nothing when the remainder is not valid
/// UTF-8.
pub open spec fn text_of(b: Seq<u8>) -> Option<Seq<char>> {
    if valid_utf8(strip_bom(b)) {
        Some(decode_utf8(strip_bom(b)))
    } else {
        None
    }
}

/// Law: a buffer with a leading byte-order-mark decodes to the same text as
/// the buffer without it — the mark is stripped, never part of the text.
pub proof fn lemma_bom_stripped(rest: Seq<u8>)
    ensures
        text_of(seq![0xefu8, 0xbbu8, 0xbfu8] + rest) == text_of(rest),
{
    let b = seq![0xefu8, 0xbbu8, 0xbfu8] + rest;
    assert(b[0] == 0xefu8 && b[1] == 0xbbu8 && b[2] == 0xbfu8);
    assert(bom_at(b, 0));
    assert(b.skip(3) =~= rest);
}

/// Copies the buffer without its leading byte-order-marks.
#[verifier::rlimit(50)]
pub fn strip_bom_bytes(v: &Vec<u8>) -> (r: Vec<u8>)
    ensures
        r@ == strip_bom(v@),
{
    let mut off: usize = 0;
    proof {
        assert(v@.skip(0) =~= v@);
    }
    while v.len() - off >= 3 && v[off] == 0xef && v[off + 1] == 0xbb && v[off + 2] == 0xbf
        invariant
            off <= v.len(),
            strip_bom(v@) == strip_bom(v@.skip(off as int)),
        decreases v.len() - off,
    {
        proof {
            let s = v@.skip(off as int);
            assert(s[0] == v@[off as int]);
            assert(s[1] == v@[off as int + 1]);
            assert(s[2] == v@[off as int + 2]);
            assert(bom_at(s, 0));
            assert(strip_bom(s) == strip_bom(s.skip(3)));
            assert(s.skip(3) =~= v@.skip(off as int + 3));
        }
        off += 3;
    }
    proof {
        assert(!bom_at(v@.skip(off as int), 0));
        assert(strip_bom(v@) == v@.skip(off as int));
    }
    let mut r: Vec<u8> = Vec::new();
    let mut i: usize = off;
    while i < v.len()
        invariant
            off <= i <= v.len(),
            r@ =~= v@.subrange(off as int, i as int),
        decreases v.len() - i,
    {
        r.push(v[i]);
        i += 1;
    }
    proof {
        assert(r@ =~= v@.skip(off as int));
    }
    r
}

/// Relies on `str::from_utf8` of std: it returns `Ok` exactly on valid UTF-8
/// and the resulting string holds the decoded characters.
#[verifier::external_body]
fn decode_utf8_bytes(v: &Vec<u8>) -> (r: Option<String>)
    ensures
        r is Some <==> valid_utf8(v@),
        r matches Some(s) ==> s@ == decode_utf8(v@),
{
    match std::str::from_utf8(v.as_slice()) {
        Ok(s) => Some(s.to_owned()),
        Err(_) => None,
    }
}

/// Decodes a raw buffer to text: leading byte-order-marks dropped, the rest
/// read as UTF-8; `None` when the bytes are not valid UTF-8.
pub fn parse_text(bytes: &Vec<u8>) -> (r: Option<String>)
    ensures
        r is Some <==> text_of(bytes@) is Some,
        r matches Some(s) ==> text_of(bytes@) == Some(s@),
{
    let stripped = strip_bom_bytes(bytes);
    decode_utf8_bytes(&stripped)
}

} // verus!
