//! What holds of the format as a whole: what was encoded decodes to itself,
//! and what was damaged is turned away.

use vstd::prelude::*;
use crate::bigendian::{
    be_bytes, be_value, lemma_be_bytes_len, lemma_bytes_of_value, lemma_value_of_bytes, pow256,
};
use crate::checksum::{checksum_of, rolling};
use crate::chunk::{chunk_wire, decode_chunk};
use crate::error::ErrorKind;
use crate::file::{
    decode_file, file_wire, lemma_decoded_chunk_wire, lemma_payload_len, payload, record,
    record_count, scan, FileView,
};
use crate::header::{decode_header, dimension_bytes, header_checksum, header_wire, magic};
use crate::rgb::RGB;

verus! {

/// The checksum depends on nothing but the bytes: two sequences that hold
/// the same bytes in the same order have the same checksum.
pub proof fn lemma_checksum_deterministic(a: Seq<u8>, b: Seq<u8>)
    requires
        a.len() == b.len(),
        forall|i: int| 0 <= i < a.len() ==> a[i] == b[i],
    ensures
        checksum_of(a) == checksum_of(b),
{
    assert(a =~= b);
}

/// Changing the last byte of a sequence always changes its checksum.
pub proof fn lemma_last_byte_moves_checksum(data: Seq<u8>, b: u8)
    requires
        data.len() > 0,
        b != data.last(),
    ensures
        checksum_of(data.drop_last().push(b)) != checksum_of(data),
{
    let front = data.drop_last();
    let changed = front.push(b);
    assert(changed.drop_last() =~= front);
    let before = rolling(front);
    let m = before.carried;
    let a = data.last();
    assert((a ^ m) != (b ^ m)) by (bit_vector)
        requires
            a != b,
    ;
    let p = before.total + (a ^ m);
    let q = before.total + (b ^ m);
    lemma_near_numbers_differ(p as nat, q as nat);
}

/// Two different numbers less than 65536 apart differ modulo 65536.
proof fn lemma_near_numbers_differ(u: nat, v: nat)
    requires
        u != v,
        u - v < 0x1_0000,
        v - u < 0x1_0000,
    ensures
        u % 0x1_0000 != v % 0x1_0000,
{
    if u % 0x1_0000 == v % 0x1_0000 {
        vstd::arithmetic::div_mod::lemma_fundamental_div_mod(u as int, 0x1_0000);
        vstd::arithmetic::div_mod::lemma_fundamental_div_mod(v as int, 0x1_0000);
        assert(u - v == 0x1_0000 * (u as int / 0x1_0000 - v as int / 0x1_0000));
    }
}

/// The encoding of a chunk is five bytes long.
pub proof fn lemma_chunk_wire_len(rgb: RGB)
    ensures
        chunk_wire(rgb).len() == 5,
{
    lemma_be_bytes_len(checksum_of(rgb.bytes()) as nat, 2);
}

/// What decoding makes of five bytes whose last two are the stored checksum
/// of the colour `rgb`: the checksum of the first three is held against
/// that of `rgb`.
proof fn lemma_chunk_with_stored_checksum(rgb: RGB, colour: Seq<u8>)
    requires
        colour.len() == 3,
    ensures
        decode_chunk(colour + be_bytes(checksum_of(rgb.bytes()) as nat, 2)) == if checksum_of(
            colour,
        ) == checksum_of(rgb.bytes()) {
            Ok::<RGB, ErrorKind>(RGB(colour[0], colour[1], colour[2]))
        } else {
            Err::<RGB, ErrorKind>(ErrorKind::ChecksumFail)
        },
{
    let sum = checksum_of(rgb.bytes()) as nat;
    let wire = colour + be_bytes(sum, 2);
    lemma_be_bytes_len(sum, 2);
    assert(wire.subrange(0, 3) =~= colour);
    assert(wire.subrange(3, 5) =~= be_bytes(sum, 2));
    lemma_value_of_bytes(sum, 2);
    reveal_with_fuel(pow256, 3);
    assert(pow256(2) == 0x1_0000);
    assert(sum % 0x1_0000 == sum);
    assert(wire[0] == colour[0] && wire[1] == colour[1] && wire[2] == colour[2]);
}

/// An encoded chunk decodes to the colour that it was made of.
pub proof fn lemma_chunk_round_trip(rgb: RGB)
    ensures
        decode_chunk(chunk_wire(rgb)) == Ok::<RGB, ErrorKind>(rgb),
{
    lemma_chunk_with_stored_checksum(rgb, rgb.bytes());
}

/// A chunk of which one colour byte was changed, with the stored checksum
/// left as it was, is turned away with a checksum failure whenever the
/// change moves the checksum of the colour bytes.
pub proof fn lemma_tampered_chunk_rejected(rgb: RGB, i: int, b: u8)
    requires
        0 <= i < 3,
        b != rgb.bytes()[i],
        checksum_of(rgb.bytes().update(i, b)) != checksum_of(rgb.bytes()),
    ensures
        decode_chunk(chunk_wire(rgb).update(i, b)) == Err::<RGB, ErrorKind>(ErrorKind::ChecksumFail),
{
    let colour = rgb.bytes().update(i, b);
    lemma_chunk_with_stored_checksum(rgb, colour);
    assert(chunk_wire(rgb).update(i, b) =~= colour + be_bytes(
        checksum_of(rgb.bytes()) as nat,
        2,
    ));
}

/// A change of a colour byte that leaves the checksum of the colour bytes
/// where it was goes unnoticed: the chunk decodes to the changed colour.
pub proof fn lemma_tampered_chunk_accepted(rgb: RGB, i: int, b: u8)
    requires
        0 <= i < 3,
        checksum_of(rgb.bytes().update(i, b)) == checksum_of(rgb.bytes()),
    ensures
        decode_chunk(chunk_wire(rgb).update(i, b)) == Ok::<RGB, ErrorKind>(
            RGB(rgb.bytes().update(i, b)[0], rgb.bytes().update(i, b)[1], rgb.bytes().update(i, b)[2]),
        ),
{
    let colour = rgb.bytes().update(i, b);
    lemma_chunk_with_stored_checksum(rgb, colour);
    assert(chunk_wire(rgb).update(i, b) =~= colour + be_bytes(
        checksum_of(rgb.bytes()) as nat,
        2,
    ));
}

/// A chunk whose last colour byte was changed, with the stored checksum left
/// as it was, is always turned away with a checksum failure.
pub proof fn lemma_tampered_blue_rejected(rgb: RGB, b: u8)
    requires
        b != rgb.2,
    ensures
        decode_chunk(chunk_wire(rgb).update(2, b)) == Err::<RGB, ErrorKind>(ErrorKind::ChecksumFail),
{
    lemma_last_byte_moves_checksum(rgb.bytes(), b);
    assert(rgb.bytes().drop_last().push(b) =~= rgb.bytes().update(2, b));
    lemma_tampered_chunk_rejected(rgb, 2, b);
}

/// The encoding of a header is thirty bytes long.
pub proof fn lemma_header_wire_len(x: usize, y: usize)
    ensures
        header_wire(x, y).len() == 30,
        dimension_bytes(x, y).len() == 16,
{
    lemma_be_bytes_len(x as nat, 8);
    lemma_be_bytes_len(y as nat, 8);
    lemma_be_bytes_len(header_checksum(x, y) as nat, 4);
}

/// The parts of an encoded header, each where the format puts it.
proof fn lemma_header_parts(x: usize, y: usize)
    ensures
        header_wire(x, y).len() == 30,
        header_wire(x, y).subrange(0, 10) == magic(),
        header_wire(x, y).subrange(10, 18) == be_bytes(x as nat, 8),
        header_wire(x, y).subrange(18, 26) == be_bytes(y as nat, 8),
        header_wire(x, y).subrange(10, 26) == dimension_bytes(x, y),
        header_wire(x, y).subrange(26, 30) == be_bytes(header_checksum(x, y) as nat, 4),
        be_value(be_bytes(x as nat, 8)) == x,
        be_value(be_bytes(y as nat, 8)) == y,
        be_value(be_bytes(header_checksum(x, y) as nat, 4)) == checksum_of(dimension_bytes(x, y)),
{
    let wire = header_wire(x, y);
    let sum = header_checksum(x, y) as nat;
    lemma_header_wire_len(x, y);
    lemma_be_bytes_len(x as nat, 8);
    lemma_be_bytes_len(y as nat, 8);
    lemma_be_bytes_len(sum, 4);
    assert(wire.subrange(0, 10) =~= magic());
    assert(wire.subrange(10, 18) =~= be_bytes(x as nat, 8));
    assert(wire.subrange(18, 26) =~= be_bytes(y as nat, 8));
    assert(wire.subrange(10, 26) =~= dimension_bytes(x, y));
    assert(wire.subrange(26, 30) =~= be_bytes(sum, 4));
    lemma_value_of_bytes(x as nat, 8);
    lemma_value_of_bytes(y as nat, 8);
    lemma_value_of_bytes(sum, 4);
    reveal_with_fuel(pow256, 9);
    assert(pow256(8) == 0x1_0000_0000_0000_0000);
    assert(pow256(4) == 0x1_0000_0000);
    assert((x as nat) % 0x1_0000_0000_0000_0000 == x);
    assert((y as nat) % 0x1_0000_0000_0000_0000 == y);
    assert(sum % 0x1_0000_0000 == sum);
}

/// An encoded header decodes to the dimensions that it was made of.
pub proof fn lemma_header_round_trip(x: usize, y: usize)
    ensures
        decode_header(header_wire(x, y)) == Ok::<(usize, usize), ErrorKind>((x, y)),
{
    lemma_header_parts(x, y);
}

/// A header of which one of the sixteen dimension bytes was changed, with
/// the stored checksum left as it was, is turned away with a checksum
/// failure whenever the change moves the checksum of the dimension bytes and
/// both dimensions still fit the machine's word.
pub proof fn lemma_tampered_header_rejected(x: usize, y: usize, i: int, b: u8)
    requires
        10 <= i < 26,
        b != header_wire(x, y)[i],
        be_value(header_wire(x, y).update(i, b).subrange(10, 18)) <= usize::MAX,
        be_value(header_wire(x, y).update(i, b).subrange(18, 26)) <= usize::MAX,
        checksum_of(header_wire(x, y).update(i, b).subrange(10, 26)) != checksum_of(
            dimension_bytes(x, y),
        ),
    ensures
        decode_header(header_wire(x, y).update(i, b)) == Err::<(usize, usize), ErrorKind>(
            ErrorKind::ChecksumFail,
        ),
{
    let wire = header_wire(x, y);
    let bad = wire.update(i, b);
    lemma_header_parts(x, y);
    assert(bad.subrange(0, 10) =~= wire.subrange(0, 10));
    assert(bad.subrange(26, 30) =~= wire.subrange(26, 30));
}

/// A header whose last dimension byte was changed, with the stored checksum
/// left as it was, is always turned away with a checksum failure.
pub proof fn lemma_tampered_last_dimension_byte_rejected(x: usize, y: usize, b: u8)
    requires
        b != header_wire(x, y)[25],
    ensures
        decode_header(header_wire(x, y).update(25, b)) == Err::<(usize, usize), ErrorKind>(
            ErrorKind::ChecksumFail,
        ),
{
    let wire = header_wire(x, y);
    let bad = wire.update(25, b);
    let dims = dimension_bytes(x, y);
    lemma_header_parts(x, y);
    assert(dims.last() == wire[25]);
    lemma_last_byte_moves_checksum(dims, b);
    assert(bad.subrange(10, 26) =~= dims.drop_last().push(b));
    assert(bad.subrange(10, 18) =~= wire.subrange(10, 18));
    // The height keeps its seven leading bytes, so it cannot outgrow the word.
    let tall = bad.subrange(18, 26);
    assert(tall.drop_last() =~= be_bytes(y as nat, 8).drop_last());
    assert(be_value(tall) == be_value(be_bytes(y as nat, 8).drop_last()) * 256 + b);
    assert(be_value(be_bytes(y as nat, 8)) == be_value(be_bytes(y as nat, 8).drop_last()) * 256
        + be_bytes(y as nat, 8).last());
    lemma_whole_blocks_fit(be_value(be_bytes(y as nat, 8).drop_last()), y as nat, b as nat);
    lemma_tampered_header_rejected(x, y, 25, b);
}

/// If 256 times `hi` is at most `y`, and `y` fits the machine's word, then
/// 256 times `hi` plus any byte fits it too.
proof fn lemma_whole_blocks_fit(hi: nat, y: nat, b: nat)
    requires
        hi * 256 <= y,
        y <= usize::MAX,
        b < 256,
    ensures
        hi * 256 + b <= usize::MAX,
{
    assert(usize::MAX == 0xffff_ffff || usize::MAX == 0xffff_ffff_ffff_ffff) by {
        assert(usize::BITS == 32 || usize::BITS == 64);
    }
}

/// Decoding the first `k` records looks at the first `5 * k` bytes only.
pub proof fn lemma_scan_reads_prefix(a: Seq<u8>, b: Seq<u8>, k: nat)
    requires
        5 * k <= a.len(),
        5 * k <= b.len(),
        a.take(5 * k as int) == b.take(5 * k as int),
    ensures
        scan(a, k) == scan(b, k),
    decreases k,
{
    if k > 0 {
        let j = (k - 1) as nat;
        assert(a.take(5 * j as int) =~= a.take(5 * k as int).take(5 * j as int));
        assert(b.take(5 * j as int) =~= b.take(5 * k as int).take(5 * j as int));
        lemma_scan_reads_prefix(a, b, j);
        assert(record(a, j as int) =~= a.take(5 * k as int).subrange(5 * j as int, 5 * j as int + 5));
        assert(record(b, j as int) =~= b.take(5 * k as int).subrange(5 * j as int, 5 * j as int + 5));
    }
}

/// An encoded payload decodes to the colours that it was made of, in their
/// order.
pub proof fn lemma_payload_round_trip(chunks: Seq<RGB>)
    ensures
        payload(chunks).len() == 5 * chunks.len(),
        record_count(payload(chunks).len()) == chunks.len(),
        scan(payload(chunks), chunks.len()) == Ok::<Seq<RGB>, ErrorKind>(chunks),
    decreases chunks.len(),
{
    lemma_payload_len(chunks);
    if chunks.len() > 0 {
        let front = chunks.drop_last();
        let n = front.len();
        lemma_payload_round_trip(front);
        lemma_payload_len(front);
        lemma_chunk_wire_len(chunks.last());
        lemma_chunk_round_trip(chunks.last());
        assert(payload(chunks).take(5 * n as int) =~= payload(front).take(5 * n as int));
        lemma_scan_reads_prefix(payload(chunks), payload(front), n);
        assert(record(payload(chunks), n as int) =~= chunk_wire(chunks.last()));
        assert(front.push(chunks.last()) =~= chunks);
        assert(scan(payload(chunks), n) == Ok::<Seq<RGB>, ErrorKind>(front));
        assert(decode_chunk(record(payload(chunks), n as int)) == Ok::<RGB, ErrorKind>(
            chunks.last(),
        ));
    } else {
        assert(chunks =~= Seq::empty());
    }
}

/// In the bytes of a file the header and every chunk decode, whatever the
/// number of chunks: what is left to decide is whether that number fits
/// the dimensions.
proof fn lemma_file_wire_parts(file: FileView)
    ensures
        file_wire(file).len() >= 30,
        decode_header(file_wire(file).subrange(0, 30)) == Ok::<(usize, usize), ErrorKind>(
            (file.width, file.height),
        ),
        scan(file_wire(file).skip(30), record_count((file_wire(file).len() - 30) as nat)) == Ok::<
            Seq<RGB>,
            ErrorKind,
        >(file.chunks),
{
    let wire = file_wire(file);
    lemma_header_wire_len(file.width, file.height);
    lemma_header_round_trip(file.width, file.height);
    lemma_payload_round_trip(file.chunks);
    assert(wire.subrange(0, 30) =~= header_wire(file.width, file.height));
    assert(wire.skip(30) =~= payload(file.chunks));
}

/// What was encoded decodes to itself: the bytes of a file that holds as
/// many chunks as its dimensions ask for decode to the same dimensions and
/// the same colours in the same order.
pub proof fn lemma_file_round_trip(file: FileView)
    requires
        file.complete(),
    ensures
        decode_file(file_wire(file)) == Ok::<FileView, ErrorKind>(file),
{
    lemma_file_wire_parts(file);
}

/// The bytes of a file whose number of chunks is not the product of its
/// dimensions are turned away with a dimension mismatch.
pub proof fn lemma_incomplete_file_rejected(file: FileView)
    requires
        !file.complete(),
    ensures
        decode_file(file_wire(file)) == Err::<FileView, ErrorKind>(ErrorKind::DimensionMismatch),
{
    lemma_file_wire_parts(file);
}

/// Splitting what follows the header into records gives the records of the
/// whole buffer from the seventh on, because the header is exactly six
/// records long.
pub proof fn lemma_records_after_header(bytes: Seq<u8>, j: int)
    requires
        bytes.len() >= 30,
        0 <= j,
        5 * j < bytes.len() - 30,
    ensures
        record(bytes.skip(30), j) == record(bytes, j + 6),
        record_count((bytes.len() - 30) as nat) + 6 == record_count(bytes.len()),
{
    assert(record(bytes.skip(30), j) =~= record(bytes, j + 6));
}

/// Bytes that decode as a header are the encoding of that header.
pub proof fn lemma_decoded_header_wire(bytes: Seq<u8>)
    requires
        decode_header(bytes) is Ok,
    ensures
        bytes == header_wire(decode_header(bytes)->Ok_0.0, decode_header(bytes)->Ok_0.1),
{
    let x = decode_header(bytes)->Ok_0.0;
    let y = decode_header(bytes)->Ok_0.1;
    lemma_bytes_of_value(bytes.subrange(10, 18));
    lemma_bytes_of_value(bytes.subrange(18, 26));
    lemma_bytes_of_value(bytes.subrange(26, 30));
    assert(dimension_bytes(x, y) =~= bytes.subrange(10, 26));
    assert(header_checksum(x, y) as nat == be_value(bytes.subrange(26, 30)));
    assert(bytes =~= bytes.subrange(0, 10) + bytes.subrange(10, 26) + bytes.subrange(26, 30));
}

/// Records that decode are the encodings of their colours, one after the
/// other.
pub proof fn lemma_scanned_payload(bytes: Seq<u8>, k: nat)
    requires
        scan(bytes, k) is Ok,
    ensures
        5 * k <= bytes.len(),
        scan(bytes, k)->Ok_0.len() == k,
        bytes.take(5 * k as int) == payload(scan(bytes, k)->Ok_0),
    decreases k,
{
    if k > 0 {
        let j = (k - 1) as nat;
        lemma_scanned_payload(bytes, j);
        let front = scan(bytes, j)->Ok_0;
        let piece = record(bytes, j as int);
        lemma_decoded_chunk_wire(piece);
        let all = scan(bytes, k)->Ok_0;
        assert(all.drop_last() =~= front);
        assert(bytes.take(5 * k as int) =~= bytes.take(5 * j as int) + piece);
    } else {
        assert(bytes.take(0) =~= payload(scan(bytes, k)->Ok_0));
    }
}

/// Bytes that decode as a file are the encoding of that file: no two
/// different byte sequences decode to the same file.
pub proof fn lemma_decoded_file_wire(bytes: Seq<u8>)
    requires
        decode_file(bytes) is Ok,
    ensures
        file_wire(decode_file(bytes)->Ok_0) == bytes,
        decode_file(bytes)->Ok_0.complete(),
{
    let rest = bytes.skip(30);
    let k = record_count(rest.len());
    lemma_decoded_header_wire(bytes.subrange(0, 30));
    lemma_scanned_payload(rest, k);
    assert(rest.take(5 * k as int) =~= rest);
    assert(bytes =~= bytes.subrange(0, 30) + rest);
}

} // verus!
