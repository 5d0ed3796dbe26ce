//! The font catalog: raw font-file buffers parsed into an ordered list of
//! usable faces plus a summary kept consistent with it.
//!
//! A buffer may embed several faces (collection formats); every embeddable
//! face becomes one handle addressed by (buffer index, face index).  Whether
//! a buffer holds a face is decided by an outside font parser.
use vstd::prelude::*;

verus! {

/// What the font parser reports for a collection header: the number of
/// embedded fonts, or nothing for a single-face buffer.
pub uninterp spec fn collection_count_of(b: Seq<u8>) -> Option<u32>;

/// Whether the font parser accepts the buffer as a face at the given index.
pub uninterp spec fn face_parse_ok(b: Seq<u8>, index: u32) -> bool;

/// Relies on ttf_parser's `fonts_in_collection`: reads the collection
/// header; the result depends on the input bytes alone.
#[verifier::external_body]
pub(crate) fn collection_count(data: &Vec<u8>) -> (r: Option<u32>)
    ensures
        r == collection_count_of(data@),
{
    ttf_parser::fonts_in_collection(data.as_slice())
}

/// Relies on ttf_parser's `Face::parse`: whether the buffer parses as a face
/// at the given index; the result depends on the arguments alone.
#[verifier::external_body]
pub(crate) fn face_parses(data: &Vec<u8>, index: u32) -> (r: bool)
    ensures
        r == face_parse_ok(data@, index),
{
    ttf_parser::Face::parse(data.as_slice(), index).is_ok()
}

/// One usable face: an index into the catalog's buffers and the face number
/// within that buffer.
#[derive(Clone, Copy, PartialEq, Eq, Structural)]
pub struct FontFace {
    pub buffer: usize,
    pub face: u32,
}

/// How many faces one buffer contributes: its collection count, or one for a
/// single-face buffer.
pub open spec fn buffer_face_count(b: Seq<u8>) -> int {
    match collection_count_of(b) {
        Some(n) => n as int,
        None => 1,
    }
}

/// The faces contributed by the buffer at index `j`.
pub open spec fn faces_of_buffer(j: int, b: Seq<u8>) -> Seq<FontFace> {
    Seq::new(
        buffer_face_count(b) as nat,
        |k: int| FontFace { buffer: j as usize, face: k as u32 },
    )
}

/// The full face list of a buffer sequence, buffer by buffer in order.
pub open spec fn faces_of_buffers(bufs: Seq<Vec<u8>>) -> Seq<FontFace>
    decreases bufs.len(),
{
    if bufs.len() == 0 {
        Seq::empty()
    } else {
        faces_of_buffers(bufs.drop_last()) + faces_of_buffer(bufs.len() - 1, bufs.last()@)
    }
}

/// Some face of some buffer fails to parse.
pub open spec fn some_face_invalid(bufs: Seq<Vec<u8>>) -> bool {
    exists|j: int, k: u32|
        0 <= j < bufs.len() && 0 <= k < buffer_face_count(bufs[j]@) && !face_parse_ok(bufs[j]@, k)
}

/// The parsed, indexed collection of usable faces plus its summary.
pub struct FontCatalog {
    pub buffers: Vec<Vec<u8>>,
    pub faces: Vec<FontFace>,
    /// The searchable summary: the number of faces it indexes.  Rebuilt
    /// together with `faces`, never independently.
    pub book_faces: usize,
}

impl FontCatalog {
    /// The summary always agrees with the face list, every face points into
    /// the buffers and parses.
    pub open spec fn wf(self) -> bool {
        &&& self.book_faces == self.faces@.len()
        &&& self.faces@ == faces_of_buffers(self.buffers@)
        &&& forall|i: int|
            0 <= i < self.faces@.len() ==> (#[trigger] self.faces@[i]).buffer
                < self.buffers@.len() && face_parse_ok(
                self.buffers@[self.faces@[i].buffer as int]@,
                self.faces@[i].face,
            )
    }

    /// A catalog with no fonts at all.
    pub fn empty() -> (r: Self)
        ensures
            r.wf(),
            r.buffers@.len() == 0,
            r.faces@.len() == 0,
    {
        let r = FontCatalog { buffers: Vec::new(), faces: Vec::new(), book_faces: 0 };
        proof {
            assert(faces_of_buffers(r.buffers@) =~= Seq::<FontFace>::empty());
        }
        r
    }
}

/// Law: font replacement is atomic — in every well-formed catalog the
/// summary agrees with the face list, so no observer sees a new face count
/// with an old summary or the reverse.
pub proof fn lemma_catalog_consistent(c: FontCatalog)
    requires
        c.wf(),
    ensures
        c.book_faces == c.faces@.len(),
        c.faces@ == faces_of_buffers(c.buffers@),
{
}

/// A buffer that fails to parse as a requested face; catalog construction
/// aborts on it.
#[derive(Clone, Copy, PartialEq, Eq, Structural, Debug)]
pub enum FontFailure {
    InvalidFont,
}

/// Builds a catalog from raw font-file buffers: every embeddable face of
/// every buffer, in order, becomes one handle.  Fails exactly when some face
/// of some buffer does not parse.
pub fn build_catalog(font_files: Vec<Vec<u8>>) -> (r: Result<FontCatalog, FontFailure>)
    ensures
        r matches Ok(c) ==> c.wf() && c.buffers@ == font_files@ && !some_face_invalid(font_files@),
        r is Err <==> some_face_invalid(font_files@),
{
    let ghost bufs = font_files@;
    let mut faces: Vec<FontFace> = Vec::new();
    let mut j: usize = 0;
    proof {
        assert(faces_of_buffers(bufs.take(0)) =~= Seq::<FontFace>::empty());
    }
    while j < font_files.len()
        invariant
            j <= font_files.len(),
            bufs == font_files@,
            faces@ == faces_of_buffers(bufs.take(j as int)),
            forall|j2: int, k2: u32|
                0 <= j2 < j && 0 <= k2 < buffer_face_count(bufs[j2]@) ==> face_parse_ok(
                    bufs[j2]@,
                    k2,
                ),
            forall|i: int|
                0 <= i < faces@.len() ==> (#[trigger] faces@[i]).buffer < j && face_parse_ok(
                    bufs[faces@[i].buffer as int]@,
                    faces@[i].face,
                ),
        decreases font_files.len() - j,
    {
        let count: u32 = match collection_count(&font_files[j]) {
            Some(c) => c,
            None => 1,
        };
        assert(count as int == buffer_face_count(bufs[j as int]@));
        let mut k: u32 = 0;
        proof {
            assert(faces_of_buffer(j as int, bufs[j as int]@).take(0) =~= Seq::<
                FontFace,
            >::empty());
            assert(faces@ + faces_of_buffer(j as int, bufs[j as int]@).take(0) =~= faces@);
        }
        let ghost faces_before = faces@;
        while k < count
            invariant
                k <= count,
                bufs == font_files@,
                j < font_files.len(),
                count as int == buffer_face_count(bufs[j as int]@),
                faces@ == faces_before + faces_of_buffer(j as int, bufs[j as int]@).take(k as int),
                forall|k2: u32| k2 < k ==> face_parse_ok(bufs[j as int]@, k2),
                forall|i: int|
                    0 <= i < faces_before.len() ==> (#[trigger] faces_before[i]).buffer < j
                        && face_parse_ok(
                        bufs[faces_before[i].buffer as int]@,
                        faces_before[i].face,
                    ),
            decreases count - k,
        {
            if !face_parses(&font_files[j], k) {
                proof {
                    assert(some_face_invalid(font_files@));
                }
                return Err(FontFailure::InvalidFont);
            }
            faces.push(FontFace { buffer: j, face: k });
            proof {
                assert(faces@ =~= faces_before + faces_of_buffer(j as int, bufs[j as int]@).take(
                    k as int + 1,
                ));
            }
            k += 1;
        }
        proof {
            assert(faces_of_buffer(j as int, bufs[j as int]@).take(count as int)
                =~= faces_of_buffer(j as int, bufs[j as int]@));
            assert(bufs.take(j as int + 1).drop_last() =~= bufs.take(j as int));
            assert(bufs.take(j as int + 1).last() == bufs[j as int]);
            assert(faces@ =~= faces_of_buffers(bufs.take(j as int + 1)));
        }
        j += 1;
    }
    proof {
        assert(bufs.take(j as int) =~= bufs);
        assert(!some_face_invalid(font_files@));
    }
    let book_faces = faces.len();
    Ok(FontCatalog { buffers: font_files, faces, book_faces })
}

} // verus!
