//! One pixel on the wire: a colour and the checksum that guards it.

use vstd::prelude::*;
use crate::bigendian::{be_bytes, be_value, push_be, read_be};
use crate::checksum::checksum_of;
use crate::error::{ChunkError, ErrorKind};
use crate::rgb::RGB;

verus! {

/// The number of bytes that encode one chunk.
pub const CHUNK_LEN: usize = 5;

/// The five bytes that encode a chunk of colour `rgb`: the three colour
/// bytes, then their checksum, most significant byte first.
pub open spec fn chunk_wire(rgb: RGB) -> Seq<u8> {
    rgb.bytes() + be_bytes(checksum_of(rgb.bytes()) as nat, 2)
}

/// What decoding `bytes` as one chunk gives: the colour, or the reason why
/// the bytes are no chunk.
pub open spec fn decode_chunk(bytes: Seq<u8>) -> Result<RGB, ErrorKind> {
    if bytes.len() != 5 {
        Err(ErrorKind::InvalidLen)
    } else if be_value(bytes.subrange(3, 5)) != checksum_of(bytes.subrange(0, 3)) {
        Err(ErrorKind::ChecksumFail)
    } else {
        Ok(RGB(bytes[0], bytes[1], bytes[2]))
    }
}

/// A chunk consisting of an RGB code along with a checksum.
#[derive(Debug, Copy, Clone, PartialEq, Eq)]
pub struct Chunk {
    rgb: RGB,
    checksum: u16,
}

impl View for Chunk {
    type V = RGB;

    /// A chunk stands for its colour; the checksum follows from it.
    closed spec fn view(&self) -> RGB {
        self.rgb
    }
}

impl Chunk {
    #[verifier::type_invariant]
    spec fn sound(&self) -> bool {
        self.checksum == checksum_of(self.rgb.bytes())
    }

    /// Builds the chunk of the colour `(r, g, b)`.
    pub fn new(r: u8, g: u8, b: u8) -> (chunk: Self)
        ensures
            chunk@ == RGB(r, g, b),
    {
        let rgb = RGB::new(r, g, b);
        let bytes = rgb.as_bytes();
        let checksum = crate::checksum::checksum(bytes.as_slice());
        Self { rgb, checksum }
    }

    /// Returns the RGB code of this chunk.
    pub fn rgb(&self) -> (rgb: RGB)
        ensures
            rgb == self@,
    {
        self.rgb
    }

    /// Returns the checksum of this chunk.
    pub fn checksum(&self) -> (sum: u16)
        ensures
            sum == checksum_of(self@.bytes()),
    {
        proof {
            use_type_invariant(self);
        }
        self.checksum
    }

    /// Returns this chunk as a vector of bytes, in the format
    /// \[RGB | CHECKSUM].
    pub fn as_bytes(&self) -> (out: Vec<u8>)
        ensures
            out@ == chunk_wire(self@),
    {
        proof {
            use_type_invariant(self);
        }
        let mut out = self.rgb.as_bytes();
        push_be(&mut out, self.checksum as u64, 2);
        out
    }
}

impl TryFrom<&[u8]> for Chunk {
    type Error = ChunkError;

    /// Decodes one chunk from exactly five bytes.
    fn try_from(bytes: &[u8]) -> (r: Result<Self, Self::Error>)
        ensures
            match r {
                Ok(chunk) => decode_chunk(bytes@) == Ok::<RGB, ErrorKind>(chunk@),
                Err(e) => decode_chunk(bytes@) == Err::<RGB, ErrorKind>(e.kind()),
            },
            bytes@.len() != 5 ==> r is Err && r->Err_0.kind() == ErrorKind::InvalidLen,
    {
        if bytes.len() != 5 {
            return Err(ChunkError::InvalidLen);
        }
        let rgb = RGB::new(bytes[0], bytes[1], bytes[2]);
        let colour = rgb.as_bytes();
        let new_checksum = crate::checksum::checksum(colour.as_slice());
        let stored_checksum = read_be(bytes, 3, 2);
        proof {
            assert(bytes@.subrange(0, 3) =~= rgb.bytes());
        }
        if stored_checksum != new_checksum as u64 {
            return Err(ChunkError::ChecksumFail);
        }
        Ok(Chunk { rgb, checksum: new_checksum })
    }
}

/// What `try_from` returns is stated in its own contract, over the decoded
/// view and the kind of the error; the generic statement of the conversion
/// is not used, because an error may carry a detail that no view shows.
impl vstd::std_specs::convert::TryFromSpecImpl<&[u8]> for Chunk {
    open spec fn obeys_try_from_spec() -> bool {
        false
    }

    open spec fn try_from_spec(bytes: &[u8]) -> Result<Self, Self::Error> {
        arbitrary()
    }
}

} // verus!
