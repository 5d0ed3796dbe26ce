//! Decompressing and unpacking a fetched package archive.
//!
//! The archive arrives as a gzip-compressed tar stream.  Both decodings are
//! pure functions of the input bytes; they are performed by outside crates
//! and their results are named by uninterpreted functions.
use vstd::prelude::*;

verus! {

/// What a gzip stream decompresses to, or nothing when the stream is
/// malformed.
pub uninterp spec fn gunzip_of(b: Seq<u8>) -> Option<Seq<u8>>;

/// The entries of a tar archive, in archive order, each a pair of path bytes
/// and contents; nothing when the archive is malformed.
pub uninterp spec fn untar_of(b: Seq<u8>) -> Option<Seq<(Seq<u8>, Seq<u8>)>>;

/// Relies on flate2's `GzDecoder` (read through to the end): decompresses a
/// complete gzip stream held in memory; the result depends on the input
/// bytes alone.
#[verifier::external_body]
pub(crate) fn gunzip(data: &Vec<u8>) -> (r: Option<Vec<u8>>)
    ensures
        r is Some <==> gunzip_of(data@) is Some,
        r matches Some(out) ==> gunzip_of(data@) == Some(out@),
{
    let mut decoder = flate2::read::GzDecoder::new(&data[..]);
    let mut out: Vec<u8> = Vec::new();
    match std::io::Read::read_to_end(&mut decoder, &mut out) {
        Ok(_) => Some(out),
        Err(_) => None,
    }
}

/// Relies on tar's `Archive`: walks the entries of a tar archive held in
/// memory in archive order, handing back each entry's path bytes and full
/// contents; the result depends on the input bytes alone.
#[verifier::external_body]
pub(crate) fn untar(data: &Vec<u8>) -> (r: Option<Vec<(Vec<u8>, Vec<u8>)>>)
    ensures
        r is Some <==> untar_of(data@) is Some,
        r matches Some(es) ==> untar_of(data@) matches Some(t) && es@.len() == t.len()
            && (forall|i: int|
            0 <= i < t.len() ==> es@[i].0@ == t[i].0 && es@[i].1@ == t[i].1),
{
    let mut archive = tar::Archive::new(&data[..]);
    let mut out: Vec<(Vec<u8>, Vec<u8>)> = Vec::new();
    for entry in archive.entries().ok()? {
        let mut entry = entry.ok()?;
        let path = entry.path_bytes().into_owned();
        let mut contents: Vec<u8> = Vec::new();
        std::io::Read::read_to_end(&mut entry, &mut contents).ok()?;
        out.push((path, contents));
    }
    Some(out)
}

} // verus!
