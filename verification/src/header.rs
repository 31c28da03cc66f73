//! The fixed preamble of a file: magic bytes, dimensions and their checksum.

use vstd::prelude::*;
use vstd::slice::slice_subrange;
use crate::bigendian::{be_bytes, be_value, lemma_bytes_of_value, push_be, read_be};
use crate::checksum::checksum_of;
use crate::error::{ChunkError, ErrorKind};

verus! {

/// The number of bytes that encode a header.
pub const HEADER_LEN: usize = 30;

/// Magic bytes spelling "CIEBIIFILE".
pub const MAGIC_BYTES: [u8; 10] = [67, 73, 69, 66, 73, 73, 70, 73, 76, 69];

/// The magic bytes as a sequence.
pub open spec fn magic() -> Seq<u8> {
    seq![67u8, 73u8, 69u8, 66u8, 73u8, 73u8, 70u8, 73u8, 76u8, 69u8]
}

/// The sixteen bytes that the checksum of a header covers: the width and
/// then the height, each as eight bytes, most significant first.
pub open spec fn dimension_bytes(x: usize, y: usize) -> Seq<u8> {
    be_bytes(x as nat, 8) + be_bytes(y as nat, 8)
}

/// The checksum of the header of a file of `x` by `y` pixels.
pub open spec fn header_checksum(x: usize, y: usize) -> u32 {
    checksum_of(dimension_bytes(x, y)) as u32
}

/// The thirty bytes that encode the header of a file of `x` by `y` pixels.
pub open spec fn header_wire(x: usize, y: usize) -> Seq<u8> {
    magic() + dimension_bytes(x, y) + be_bytes(header_checksum(x, y) as nat, 4)
}

/// What decoding `bytes` as a header gives: the dimensions, or the reason
/// why the bytes are no header. The checks come in this order: length, magic
/// bytes, range of the dimensions, checksum.
pub open spec fn decode_header(bytes: Seq<u8>) -> Result<(usize, usize), ErrorKind> {
    if bytes.len() != 30 {
        Err(ErrorKind::InvalidLen)
    } else if bytes.subrange(0, 10) != magic() {
        Err(ErrorKind::IllegalHeader)
    } else if be_value(bytes.subrange(10, 18)) > usize::MAX || be_value(bytes.subrange(18, 26))
        > usize::MAX {
        Err(ErrorKind::ByteParseFail)
    } else if be_value(bytes.subrange(26, 30)) != checksum_of(bytes.subrange(10, 26)) {
        Err(ErrorKind::ChecksumFail)
    } else {
        Ok((be_value(bytes.subrange(10, 18)) as usize, be_value(bytes.subrange(18, 26)) as usize))
    }
}

/// A header: the dimensions of the file and a checksum of the dimensions.
#[derive(Debug, Clone, Copy, PartialEq, Eq)]
pub struct Header {
    x: usize,
    y: usize,
    checksum: u32,
}

impl View for Header {
    type V = (usize, usize);

    /// A header stands for its dimensions; the checksum follows from them.
    closed spec fn view(&self) -> (usize, usize) {
        (self.x, self.y)
    }
}

/// Whether the first ten bytes of `bytes` are the magic bytes.
fn starts_with_magic(bytes: &[u8]) -> (yes: bool)
    requires
        bytes.len() >= 10,
    ensures
        yes == (bytes@.subrange(0, 10) == magic()),
{
    let mut i: usize = 0;
    while i < 10
        invariant
            0 <= i <= 10,
            bytes.len() >= 10,
            forall|j: int| 0 <= j < i ==> bytes@[j] == magic()[j],
        decreases 10 - i,
    {
        if bytes[i] != MAGIC_BYTES[i] {
            assert(bytes@.subrange(0, 10)[i as int] != magic()[i as int]);
            return false;
        }
        i += 1;
    }
    assert(bytes@.subrange(0, 10) =~= magic());
    true
}

impl Header {
    #[verifier::type_invariant]
    spec fn sound(&self) -> bool {
        self.checksum == header_checksum(self.x, self.y)
    }

    /// Builds the header of a file of `x` by `y` pixels.
    pub fn new(x: usize, y: usize) -> (header: Self)
        ensures
            header@ == (x, y),
    {
        let mut bytes: Vec<u8> = Vec::new();
        push_be(&mut bytes, x as u64, 8);
        push_be(&mut bytes, y as u64, 8);
        assert(bytes@ =~= dimension_bytes(x, y));
        let checksum = crate::checksum::checksum(bytes.as_slice()) as u32;
        Self { x, y, checksum }
    }

    /// Returns the checksum of this header.
    pub fn checksum(&self) -> (sum: u32)
        ensures
            sum == header_checksum(self@.0, self@.1),
    {
        proof {
            use_type_invariant(self);
        }
        self.checksum
    }

    /// Returns the dimensions of this header.
    pub fn dimensions(&self) -> (d: (usize, usize))
        ensures
            d == self@,
    {
        (self.x, self.y)
    }

    /// Returns the header as bytes: the magic bytes, the width, the height,
    /// then the checksum.
    pub fn as_bytes(&self) -> (out: Vec<u8>)
        ensures
            out@ == header_wire(self@.0, self@.1),
    {
        proof {
            use_type_invariant(self);
        }
        let mut out: Vec<u8> = Vec::new();
        let mut i: usize = 0;
        while i < 10
            invariant
                0 <= i <= 10,
                out@ == magic().take(i as int),
            decreases 10 - i,
        {
            out.push(MAGIC_BYTES[i]);
            assert(out@ =~= magic().take(i + 1));
            i += 1;
        }
        assert(out@ =~= magic());
        push_be(&mut out, self.x as u64, 8);
        push_be(&mut out, self.y as u64, 8);
        push_be(&mut out, self.checksum as u64, 4);
        assert(out@ =~= header_wire(self.x, self.y));
        out
    }
}

impl TryFrom<Vec<u8>> for Header {
    type Error = ChunkError;

    /// Decodes a header from exactly thirty bytes.
    fn try_from(bytes: Vec<u8>) -> (r: Result<Self, Self::Error>)
        ensures
            match r {
                Ok(header) => decode_header(bytes@) == Ok::<(usize, usize), ErrorKind>(header@),
                Err(e) => decode_header(bytes@) == Err::<(usize, usize), ErrorKind>(e.kind()),
            },
            bytes@.len() != 30 ==> r is Err && r->Err_0.kind() == ErrorKind::InvalidLen,
    {
        let bytes = bytes.as_slice();
        if bytes.len() != 30 {
            return Err(ChunkError::InvalidLen);
        }
        if !starts_with_magic(bytes) {
            return Err(ChunkError::IllegalHeader);
        }
        let wide_x: u64 = read_be(bytes, 10, 8);
        let wide_y: u64 = read_be(bytes, 18, 8);
        let stored_checksum: u64 = read_be(bytes, 26, 4);
        let x: usize = match usize::try_from(wide_x) {
            Ok(x) => x,
            Err(e) => {
                return Err(ChunkError::ByteParseFail(e));
            },
        };
        let y: usize = match usize::try_from(wide_y) {
            Ok(y) => y,
            Err(e) => {
                return Err(ChunkError::ByteParseFail(e));
            },
        };
        let new_checksum = crate::checksum::checksum(slice_subrange(bytes, 10, 26));
        if stored_checksum != new_checksum as u64 {
            return Err(ChunkError::ChecksumFail);
        }
        proof {
            lemma_bytes_of_value(bytes@.subrange(10, 18));
            lemma_bytes_of_value(bytes@.subrange(18, 26));
            assert(bytes@.subrange(10, 26) =~= bytes@.subrange(10, 18) + bytes@.subrange(18, 26));
        }
        Ok(Self { x, y, checksum: new_checksum as u32 })
    }
}

/// What `try_from` returns is stated in its own contract, over the decoded
/// view and the kind of the error; the generic statement of the conversion
/// is not used, because an error may carry a detail that no view shows.
impl vstd::std_specs::convert::TryFromSpecImpl<Vec<u8>> for Header {
    open spec fn obeys_try_from_spec() -> bool {
        false
    }

    open spec fn try_from_spec(bytes: Vec<u8>) -> Result<Self, Self::Error> {
        arbitrary()
    }
}

} // verus!
