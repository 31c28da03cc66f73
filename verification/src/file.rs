//! The whole file: a header followed by the chunks of the grid, row by row.

use vstd::prelude::*;
use vstd::slice::{slice_subrange, slice_to_vec};
use crate::bigendian::{lemma_be_bytes_len, lemma_bytes_of_value};
use crate::checksum::checksum_of;
use crate::chunk::{chunk_wire, decode_chunk, Chunk};
use crate::error::{ChunkError, ErrorKind};
use crate::header::{decode_header, header_wire, Header};
use crate::rgb::RGB;

verus! {

/// What a file stands for: the dimensions that its header declares and the
/// colours of its chunks, in row-major order.
pub struct FileView {
    pub width: usize,
    pub height: usize,
    pub chunks: Seq<RGB>,
}

impl FileView {
    /// Whether the file holds exactly as many chunks as its dimensions ask
    /// for. Only such a file can be decoded again.
    pub open spec fn complete(&self) -> bool {
        self.chunks.len() == self.width * self.height
    }
}

/// The colours of a sequence of chunks.
pub open spec fn colours(chunks: Seq<Chunk>) -> Seq<RGB> {
    chunks.map_values(|chunk: Chunk| chunk@)
}

/// The encoded chunks of `chunks`, one after the other.
pub open spec fn payload(chunks: Seq<RGB>) -> Seq<u8>
    decreases chunks.len(),
{
    if chunks.len() == 0 {
        Seq::empty()
    } else {
        payload(chunks.drop_last()) + chunk_wire(chunks.last())
    }
}

/// The bytes of a whole file: its header, then its payload.
pub open spec fn file_wire(file: FileView) -> Seq<u8> {
    header_wire(file.width, file.height) + payload(file.chunks)
}

/// The number of records that `len` bytes split into, the last of which may
/// be short.
pub open spec fn record_count(len: nat) -> nat {
    (len + 4) / 5
}

/// The record of `bytes` with index `j`: five bytes, or fewer at the end.
pub open spec fn record(bytes: Seq<u8>, j: int) -> Seq<u8> {
    bytes.subrange(5 * j, if 5 * j + 5 <= bytes.len() { 5 * j + 5 } else { bytes.len() as int })
}

/// What decoding the first `k` records of `bytes` gives: their colours, or
/// the error of the first record that is no chunk.
pub open spec fn scan(bytes: Seq<u8>, k: nat) -> Result<Seq<RGB>, ErrorKind>
    decreases k,
{
    if k == 0 {
        Ok(Seq::empty())
    } else {
        match scan(bytes, (k - 1) as nat) {
            Err(e) => Err(e),
            Ok(front) => match decode_chunk(record(bytes, k - 1)) {
                Err(e) => Err(e),
                Ok(rgb) => Ok(front.push(rgb)),
            },
        }
    }
}

/// What decoding `bytes` as a whole file gives.
pub open spec fn decode_file(bytes: Seq<u8>) -> Result<FileView, ErrorKind> {
    if bytes.len() < 30 {
        Err(ErrorKind::InvalidLen)
    } else {
        match decode_header(bytes.subrange(0, 30)) {
            Err(e) => Err(e),
            Ok(dimensions) => match scan(bytes.skip(30), record_count((bytes.len() - 30) as nat)) {
                Err(e) => Err(e),
                Ok(chunks) => if chunks.len() != dimensions.0 * dimensions.1 {
                    Err(ErrorKind::DimensionMismatch)
                } else {
                    Ok(FileView { width: dimensions.0, height: dimensions.1, chunks })
                },
            },
        }
    }
}

/// The payload of `n` chunks is `5 * n` bytes long.
pub proof fn lemma_payload_len(chunks: Seq<RGB>)
    ensures
        payload(chunks).len() == 5 * chunks.len(),
    decreases chunks.len(),
{
    if chunks.len() > 0 {
        lemma_payload_len(chunks.drop_last());
        lemma_be_bytes_len(checksum_of(chunks.last().bytes()) as nat, 2);
    }
}

/// Bytes that decode as a chunk are the encoding of that chunk.
pub proof fn lemma_decoded_chunk_wire(bytes: Seq<u8>)
    requires
        decode_chunk(bytes) is Ok,
    ensures
        bytes == chunk_wire(decode_chunk(bytes)->Ok_0),
{
    let rgb = decode_chunk(bytes)->Ok_0;
    assert(bytes.subrange(0, 3) =~= rgb.bytes());
    lemma_bytes_of_value(bytes.subrange(3, 5));
    assert(bytes =~= bytes.subrange(0, 3) + bytes.subrange(3, 5));
}

/// Once a record is no chunk, reading further records leaves the error as
/// it is.
pub proof fn lemma_scan_stops(bytes: Seq<u8>, k: nat, m: nat)
    requires
        k <= m,
        scan(bytes, k) is Err,
    ensures
        scan(bytes, m) == scan(bytes, k),
    decreases m,
{
    if k < m {
        lemma_scan_stops(bytes, k, (m - 1) as nat);
    }
}

/// Encodes `chunks` one after the other.
fn encode_chunks(chunks: &Vec<Chunk>) -> (out: Vec<u8>)
    ensures
        out@ == payload(colours(chunks@)),
{
    let mut out: Vec<u8> = Vec::new();
    let mut i: usize = 0;
    while i < chunks.len()
        invariant
            0 <= i <= chunks.len(),
            out@ == payload(colours(chunks@).take(i as int)),
        decreases chunks.len() - i,
    {
        let mut piece = chunks[i].as_bytes();
        proof {
            let all = colours(chunks@);
            assert(all.take(i + 1).drop_last() =~= all.take(i as int));
            assert(all.take(i + 1).last() == chunks@[i as int]@);
        }
        out.append(&mut piece);
        i += 1;
    }
    proof {
        assert(colours(chunks@).take(chunks@.len() as int) =~= colours(chunks@));
    }
    out
}

/// A file: a header, the chunks of the grid and their encoded bytes.
#[allow(clippy::upper_case_acronyms)]
#[derive(Debug, PartialEq, Eq)]
pub struct CIEBIIFILE {
    chunks: Vec<Chunk>,
    bytes: Vec<u8>,
    header: Header,
}

impl View for CIEBIIFILE {
    type V = FileView;

    closed spec fn view(&self) -> FileView {
        FileView {
            width: self.header@.0,
            height: self.header@.1,
            chunks: colours(self.chunks@),
        }
    }
}

impl CIEBIIFILE {
    /// Magic bytes spelling "CIEBIIFILE": the constant that the header
    /// writes and checks.
    pub const MAGIC_BYTES: [u8; 10] = crate::header::MAGIC_BYTES;

    #[verifier::type_invariant]
    spec fn sound(&self) -> bool {
        self.bytes@ == payload(colours(self.chunks@))
    }

    /// Moves the chunks, the payload and the header out of this file, which
    /// is left empty until its caller has put the edited parts back.
    fn take_apart(&mut self) -> (parts: (Vec<Chunk>, Vec<u8>, Header))
        ensures
            parts.0@ == old(self).chunks@,
            parts.1@ == old(self).bytes@,
            parts.2 == old(self).header,
            parts.1@ == payload(colours(parts.0@)),
            final(self).header == old(self).header,
    {
        proof {
            use_type_invariant(&*self);
        }
        let mut blank = CIEBIIFILE { chunks: Vec::new(), bytes: Vec::new(), header: self.header };
        core::mem::swap(self, &mut blank);
        let CIEBIIFILE { chunks, bytes, header } = blank;
        (chunks, bytes, header)
    }

    /// Create a new empty file whose header declares `x` by `y` pixels.
    pub fn new(x: usize, y: usize) -> (file: CIEBIIFILE)
        ensures
            file@ == (FileView { width: x, height: y, chunks: Seq::empty() }),
    {
        let header = Header::new(x, y);
        let file = Self { chunks: Vec::new(), bytes: Vec::new(), header };
        assert(file@.chunks =~= Seq::empty());
        file
    }

    /// Attempts to construct a file from its dimensions and its chunks.
    pub fn try_from_chunks(x: usize, y: usize, chunks: Vec<Chunk>) -> (r: Result<Self, ChunkError>)
        ensures
            match r {
                Ok(file) => chunks@.len() == x * y && file@ == (FileView {
                    width: x,
                    height: y,
                    chunks: colours(chunks@),
                }),
                Err(e) => chunks@.len() != x * y && e.kind() == ErrorKind::DimensionMismatch,
            },
    {
        let count = chunks.len();
        let fits = match x.checked_mul(y) {
            Some(product) => product == count,
            None => false,
        };
        if !fits {
            return Err(ChunkError::DimensionMismatch);
        }
        let header = Header::new(x, y);
        let bytes = encode_chunks(&chunks);
        Ok(Self { chunks, bytes, header })
    }

    /// Returns the dimensions of the file.
    pub fn dimensions(&self) -> (d: (usize, usize))
        ensures
            d == (self@.width, self@.height),
    {
        self.header.dimensions()
    }

    /// Returns the chunks of the file.
    pub fn chunks(&self) -> (chunks: &Vec<Chunk>)
        ensures
            colours(chunks@) == self@.chunks,
    {
        &self.chunks
    }

    /// Get a chunk at a given index.
    pub fn get_at_index(&self, index: usize) -> (r: Option<&Chunk>)
        ensures
            match r {
                Some(chunk) => index < self@.chunks.len() && chunk@ == self@.chunks[index as int],
                None => index >= self@.chunks.len(),
            },
    {
        if index < self.chunks.len() {
            Some(&self.chunks[index])
        } else {
            None
        }
    }

    /// Pushes a chunk and its bytes. The header is left as it is.
    pub fn push_chunk(&mut self, chunk: Chunk)
        ensures
            final(self)@ == (FileView { chunks: old(self)@.chunks.push(chunk@), ..old(self)@ }),
    {
        let mut piece = chunk.as_bytes();
        let (mut chunks, mut bytes, header) = self.take_apart();
        proof {
            let after = colours(chunks@.push(chunk));
            assert(after.drop_last() =~= colours(chunks@));
            assert(after =~= colours(chunks@).push(chunk@));
        }
        chunks.push(chunk);
        bytes.append(&mut piece);
        *self = CIEBIIFILE { chunks, bytes, header };
    }

    /// Remove a chunk at a given index and hand it back. The chunks behind
    /// it move one place to the front.
    pub fn remove_at_index(&mut self, index: usize) -> (r: Result<Chunk, ChunkError>)
        ensures
            match r {
                Ok(removed) => index < old(self)@.chunks.len() && removed@ == old(
                    self,
                )@.chunks[index as int] && final(self)@ == (FileView {
                    chunks: old(self)@.chunks.remove(index as int),
                    ..old(self)@
                }),
                Err(e) => index >= old(self)@.chunks.len() && e.kind()
                    == ErrorKind::NonExistentChunk && final(self)@ == old(self)@,
            },
    {
        if index >= self.chunks.len() {
            return Err(ChunkError::NonExistentChunk);
        }
        let (mut chunks, _, header) = self.take_apart();
        let removed = chunks.remove(index);
        let bytes = encode_chunks(&chunks);
        proof {
            assert(colours(chunks@) =~= colours(old(self).chunks@).remove(index as int));
        }
        *self = CIEBIIFILE { chunks, bytes, header };
        Ok(removed)
    }

    /// Modify a chunk at a given index.
    pub fn modify(&mut self, index: usize, new_chunk: Chunk) -> (r: Result<(), ChunkError>)
        ensures
            match r {
                Ok(_) => index < old(self)@.chunks.len() && final(self)@ == (FileView {
                    chunks: old(self)@.chunks.update(index as int, new_chunk@),
                    ..old(self)@
                }),
                Err(e) => index >= old(self)@.chunks.len() && e.kind()
                    == ErrorKind::NonExistentChunk && final(self)@ == old(self)@,
            },
    {
        if index >= self.chunks.len() {
            return Err(ChunkError::NonExistentChunk);
        }
        let (mut chunks, _, header) = self.take_apart();
        chunks[index] = new_chunk;
        let bytes = encode_chunks(&chunks);
        proof {
            assert(colours(chunks@) =~= colours(old(self).chunks@).update(
                index as int,
                new_chunk@,
            ));
        }
        *self = CIEBIIFILE { chunks, bytes, header };
        Ok(())
    }

    /// Turns this file into a raw byte format.
    pub fn as_bytes(&self) -> (out: Vec<u8>)
        ensures
            out@ == file_wire(self@),
    {
        proof {
            use_type_invariant(self);
        }
        let mut out = self.header.as_bytes();
        out.extend_from_slice(self.bytes.as_slice());
        out
    }
}

impl Clone for CIEBIIFILE {
    /// A copy with the same header and the same chunks.
    fn clone(&self) -> (copy: Self)
        ensures
            copy@ == self@,
    {
        proof {
            use_type_invariant(self);
        }
        let chunks = slice_to_vec(self.chunks.as_slice());
        let bytes = slice_to_vec(self.bytes.as_slice());
        CIEBIIFILE { chunks, bytes, header: self.header }
    }
}

impl TryFrom<Vec<u8>> for CIEBIIFILE {
    type Error = ChunkError;

    /// Decodes a whole file: the header from the first thirty bytes, then one
    /// chunk from every five bytes that follow.
    fn try_from(bytes: Vec<u8>) -> (r: Result<Self, Self::Error>)
        ensures
            match r {
                Ok(file) => decode_file(bytes@) == Ok::<FileView, ErrorKind>(file@),
                Err(e) => decode_file(bytes@) == Err::<FileView, ErrorKind>(e.kind()),
            },
            bytes@.len() < 30 ==> r is Err && r->Err_0.kind() == ErrorKind::InvalidLen,
    {
        let all = bytes.as_slice();
        if all.len() < 30 {
            return Err(ChunkError::InvalidLen);
        }
        let header = match Header::try_from(slice_to_vec(slice_subrange(all, 0, 30))) {
            Ok(header) => header,
            Err(e) => {
                return Err(e);
            },
        };
        let dimensions = header.dimensions();
        let rest = slice_subrange(all, 30, all.len());
        assert(rest@ =~= bytes@.skip(30));
        let mut chunks: Vec<Chunk> = Vec::new();
        let mut done: usize = 0;
        assert(colours(chunks@) =~= Seq::empty());
        while done < rest.len()
            invariant
                0 <= done <= rest.len(),
                bytes@.len() >= 30,
                rest@ == bytes@.skip(30),
                decode_header(bytes@.subrange(0, 30)) == Ok::<(usize, usize), ErrorKind>(header@),
                done == 5 * chunks@.len(),
                scan(rest@, chunks@.len()) == Ok::<Seq<RGB>, ErrorKind>(colours(chunks@)),
                rest@.take(done as int) == payload(colours(chunks@)),
            decreases rest.len() - done,
        {
            let end: usize = if rest.len() - done >= 5 {
                done + 5
            } else {
                rest.len()
            };
            let piece = slice_subrange(rest, done, end);
            let ghost k = chunks@.len();
            assert(piece@ == record(rest@, k as int));
            match Chunk::try_from(piece) {
                Ok(chunk) => {
                    proof {
                        lemma_decoded_chunk_wire(piece@);
                        let after = colours(chunks@.push(chunk));
                        assert(after =~= colours(chunks@).push(chunk@));
                        assert(after.drop_last() =~= colours(chunks@));
                        assert(rest@.take(done + 5) =~= rest@.take(done as int) + piece@);
                    }
                    chunks.push(chunk);
                    done = end;
                },
                Err(e) => {
                    proof {
                        lemma_scan_stops(rest@, (k + 1) as nat, record_count(rest@.len()));
                    }
                    return Err(e);
                },
            }
        }
        proof {
            assert(rest@.take(done as int) =~= rest@);
            assert(chunks@.len() == record_count(rest@.len()));
        }
        let count = chunks.len();
        let fits = match dimensions.0.checked_mul(dimensions.1) {
            Some(product) => product == count,
            None => false,
        };
        if !fits {
            return Err(ChunkError::DimensionMismatch);
        }
        let file = Self { chunks, bytes: slice_to_vec(rest), header };
        assert(file@.chunks == colours(file.chunks@));
        Ok(file)
    }
}

/// What `try_from` returns is stated in its own contract, over the decoded
/// view and the kind of the error; the generic statement of the conversion
/// is not used, because an error may carry a detail that no view shows.
impl vstd::std_specs::convert::TryFromSpecImpl<Vec<u8>> for CIEBIIFILE {
    open spec fn obeys_try_from_spec() -> bool {
        false
    }

    open spec fn try_from_spec(bytes: Vec<u8>) -> Result<Self, Self::Error> {
        arbitrary()
    }
}

} // verus!
