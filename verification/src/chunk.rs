//! A chunk: a type code, a payload, and the CRC-32 of both, with its form on
//! the wire: length, type, payload, checksum.
use crate::chunk_type::{is_type_code, ChunkType};
use crate::crc::{crc32, lemma_crc32_detects_byte_change, lemma_feed_concat, update};
use crate::error::Error;
use crate::wire::{
    be_bytes, be_value, lemma_bytes_of_value, lemma_value_of_bytes, read_u32, write_u32,
};
use vstd::prelude::*;
use vstd::slice::{slice_subrange, slice_to_vec};
use vstd::utf8::{decode_utf8, encode_utf8, encode_utf8_decode_utf8, valid_utf8};

verus! {

/// What a chunk is: the four bytes of its type and its payload.
pub struct ChunkView {
    pub chunk_type: Seq<u8>,
    pub data: Seq<u8>,
}

impl ChunkView {
    /// The type is four ASCII letters and the payload's length fits the
    /// 32-bit length field.
    pub open spec fn valid(self) -> bool {
        &&& is_type_code(self.chunk_type)
        &&& self.data.len() <= u32::MAX
    }

    /// The chunk's checksum: the CRC-32 of its type followed by its payload.
    pub open spec fn crc(self) -> u32 {
        crc32(self.chunk_type + self.data)
    }

    /// The chunk on the wire: the payload's length, the type, the payload,
    /// the checksum.
    #[verifier::opaque]
    pub open spec fn bytes(self) -> Seq<u8> {
        be_bytes(self.data.len() as u32) + self.chunk_type + self.data + be_bytes(self.crc())
    }
}

/// What reading one chunk from the front of `bytes` gives: the chunk and the
/// number of bytes that it takes up, or the reason why there is none.
///
/// The length and the type are read first, and the type is judged before
/// the payload is looked for.
#[verifier::opaque]
pub open spec fn parse_chunk(bytes: Seq<u8>) -> Result<(ChunkView, nat), Error> {
    if bytes.len() < 8 {
        Err(Error::UnexpectedEof)
    } else {
        let length = be_value(bytes.subrange(0, 4));
        let chunk = ChunkView {
            chunk_type: bytes.subrange(4, 8),
            data: bytes.subrange(8, 8 + length),
        };
        if !is_type_code(chunk.chunk_type) {
            Err(Error::InvalidFormat)
        } else if bytes.len() < 12 + length {
            Err(Error::UnexpectedEof)
        } else if be_value(bytes.subrange(8 + length, 12 + length)) != chunk.crc() {
            Err(Error::CrcMismatch)
        } else {
            Ok((chunk, (12 + length) as nat))
        }
    }
}

/// A valid chunk takes up twelve bytes more than its payload.
pub proof fn lemma_bytes_len(chunk: ChunkView)
    requires
        chunk.valid(),
    ensures
        chunk.bytes().len() == 12 + chunk.data.len(),
{
    reveal(ChunkView::bytes);
}

/// Reading a valid chunk's bytes, whatever follows them, gives the chunk
/// back, and with it its checksum.
pub proof fn lemma_parse_bytes(chunk: ChunkView, rest: Seq<u8>)
    requires
        chunk.valid(),
    ensures
        parse_chunk(chunk.bytes() + rest) == Ok::<(ChunkView, nat), Error>(
            (chunk, chunk.bytes().len()),
        ),
{
    reveal(ChunkView::bytes);
    reveal(parse_chunk);
    let bytes = chunk.bytes() + rest;
    let length = chunk.data.len() as int;
    lemma_value_of_bytes(length as u32);
    lemma_value_of_bytes(chunk.crc());
    assert(bytes.subrange(0, 4) =~= be_bytes(length as u32));
    assert(bytes.subrange(4, 8) =~= chunk.chunk_type);
    assert(bytes.subrange(8, 8 + length) =~= chunk.data);
    assert(bytes.subrange(8 + length, 12 + length) =~= be_bytes(chunk.crc()));
}

/// Whatever reads as a chunk is the wire form of that chunk: the chunk is
/// valid, and its bytes are the ones that were read.
pub proof fn lemma_bytes_of_parsed(bytes: Seq<u8>)
    requires
        parse_chunk(bytes) is Ok,
    ensures
        ({
            let (chunk, used) = parse_chunk(bytes)->Ok_0;
            &&& chunk.valid()
            &&& 12 <= used <= bytes.len()
            &&& chunk.bytes() == bytes.take(used as int)
        }),
{
    reveal(ChunkView::bytes);
    reveal(parse_chunk);
    let (chunk, used) = parse_chunk(bytes)->Ok_0;
    let length = be_value(bytes.subrange(0, 4));
    lemma_bytes_of_value(bytes.subrange(0, 4));
    lemma_bytes_of_value(bytes.subrange(8 + length, 12 + length));
    assert(chunk.bytes() =~= bytes.take(used as int));
}

/// A chunk on the wire in which one byte of the payload was replaced by a
/// different one does not read as a chunk: its checksum no longer fits.
pub proof fn lemma_corrupted_payload(chunk: ChunkView, i: int, b: u8)
    requires
        chunk.valid(),
        0 <= i < chunk.data.len(),
        b != chunk.data[i],
    ensures
        parse_chunk(chunk.bytes().update(8 + i, b)) == Err::<(ChunkView, nat), Error>(
            Error::CrcMismatch,
        ),
{
    reveal(ChunkView::bytes);
    reveal(parse_chunk);
    let bytes = chunk.bytes().update(8 + i, b);
    let length = chunk.data.len() as int;
    let changed = ChunkView { chunk_type: chunk.chunk_type, data: chunk.data.update(i, b) };
    lemma_value_of_bytes(length as u32);
    lemma_value_of_bytes(chunk.crc());
    assert(bytes.subrange(0, 4) =~= be_bytes(length as u32));
    assert(bytes.subrange(4, 8) =~= chunk.chunk_type);
    assert(bytes.subrange(8, 8 + length) =~= changed.data);
    assert(bytes.subrange(8 + length, 12 + length) =~= be_bytes(chunk.crc()));
    assert(changed.chunk_type + changed.data =~= (chunk.chunk_type + chunk.data).update(4 + i, b));
    lemma_crc32_detects_byte_change(chunk.chunk_type + chunk.data, 4 + i, b);
}

/// A chunk of a PNG file.
#[derive(Debug)]
pub struct Chunk {
    chunk_type: ChunkType,
    data: Vec<u8>,
    crc: u32,
}

impl View for Chunk {
    type V = ChunkView;

    closed spec fn view(&self) -> ChunkView {
        ChunkView { chunk_type: self.chunk_type@, data: self.data@ }
    }
}

impl Clone for Chunk {
    fn clone(&self) -> (copy: Chunk)
        ensures
            copy@ == self@,
    {
        proof {
            use_type_invariant(self);
        }
        Chunk {
            chunk_type: self.chunk_type,
            data: slice_to_vec(self.data.as_slice()),
            crc: self.crc,
        }
    }
}

/// `std::string::FromUtf8Error`, the error of `String::from_utf8`. Nothing
/// is known of what it holds.
#[verifier::external_type_specification]
#[verifier::external_body]
pub struct ExFromUtf8Error(std::string::FromUtf8Error);

/// `String::from_utf8`: a `String` with exactly these bytes where they are
/// valid UTF-8, and an error where they are not.
#[verifier::external_body]
fn text_of(bytes: Vec<u8>) -> (res: Result<String, std::string::FromUtf8Error>)
    ensures
        res is Ok <==> valid_utf8(bytes@),
        res matches Ok(text) ==> encode_utf8(text@) == bytes@,
{
    String::from_utf8(bytes)
}

fn checksum(chunk_type: &ChunkType, data: &[u8]) -> (crc: u32)
    ensures
        crc == crc32(chunk_type@ + data@),
        is_type_code(chunk_type@),
{
    let code = chunk_type.bytes();
    proof {
        lemma_feed_concat(0xFFFF_FFFFu32, code@, data@);
    }
    update(update(0xFFFF_FFFFu32, code.as_slice()), data) ^ 0xFFFF_FFFFu32
}

impl Chunk {
    #[verifier::type_invariant]
    spec fn well_formed(self) -> bool {
        &&& self.data@.len() <= u32::MAX
        &&& self.crc == crc32(self.chunk_type@ + self.data@)
    }

    /// Makes a chunk of a type and a payload, and computes its checksum.
    pub fn new(chunk_type: ChunkType, data: Vec<u8>) -> (chunk: Chunk)
        requires
            data@.len() <= u32::MAX,
        ensures
            chunk@ == (ChunkView { chunk_type: chunk_type@, data: data@ }),
            chunk@.valid(),
    {
        let crc: u32 = checksum(&chunk_type, data.as_slice());
        Chunk { chunk_type, data, crc }
    }

    /// The length of the payload, as the length field holds it.
    pub fn length(&self) -> (length: u32)
        ensures
            length == self@.data.len(),
    {
        proof {
            use_type_invariant(self);
        }
        self.data.len() as u32
    }

    /// The chunk's type.
    pub fn chunk_type(&self) -> (chunk_type: &ChunkType)
        ensures
            chunk_type@ == self@.chunk_type,
            is_type_code(chunk_type@),
    {
        let _ = self.chunk_type.bytes();
        &self.chunk_type
    }

    /// The payload.
    pub fn data(&self) -> (data: &[u8])
        ensures
            data@ == self@.data,
    {
        self.data.as_slice()
    }

    /// The checksum: the CRC-32 of the type followed by the payload.
    pub fn crc(&self) -> (crc: u32)
        ensures
            crc == self@.crc(),
    {
        proof {
            use_type_invariant(self);
        }
        self.crc
    }

    /// The payload as text, where it is valid UTF-8.
    pub fn data_as_string(&self) -> (res: Result<String, Error>)
        ensures
            match res {
                Ok(text) => valid_utf8(self@.data) && text@ == decode_utf8(self@.data)
                    && encode_utf8(text@) == self@.data,
                Err(e) => !valid_utf8(self@.data) && e == Error::EncodingError,
            },
    {
        match text_of(slice_to_vec(self.data.as_slice())) {
            Ok(text) => {
                proof {
                    encode_utf8_decode_utf8(text@);
                }
                Ok(text)
            },
            Err(_) => Err(Error::EncodingError),
        }
    }

    /// The chunk on the wire.
    pub fn as_bytes(&self) -> (bytes: Vec<u8>)
        ensures
            bytes@ == self@.bytes(),
            self@.valid(),
    {
        proof {
            use_type_invariant(self);
            reveal(ChunkView::bytes);
        }
        let code = self.chunk_type.bytes();
        let mut bytes: Vec<u8> = Vec::new();
        write_u32(&mut bytes, self.data.len() as u32);
        bytes.extend_from_slice(code.as_slice());
        bytes.extend_from_slice(self.data.as_slice());
        write_u32(&mut bytes, self.crc);
        assert(bytes@ =~= self@.bytes());
        bytes
    }

    /// Reads one chunk from the front of `bytes` and says how many bytes it
    /// took up.
    pub fn parse(bytes: &[u8]) -> (res: Result<(Chunk, usize), Error>)
        ensures
            match res {
                Ok((chunk, used)) => parse_chunk(bytes@) == Ok::<(ChunkView, nat), Error>(
                    (chunk@, used as nat),
                ),
                Err(e) => parse_chunk(bytes@) == Err::<(ChunkView, nat), Error>(e),
            },
    {
        proof {
            reveal(parse_chunk);
        }
        if bytes.len() < 8 {
            return Err(Error::UnexpectedEof);
        }
        let length: usize = read_u32(bytes, 0) as usize;
        let code: [u8; 4] = [bytes[4], bytes[5], bytes[6], bytes[7]];
        assert(code@ =~= bytes@.subrange(4, 8));
        let chunk_type = match ChunkType::from_bytes(code) {
            Ok(chunk_type) => chunk_type,
            Err(e) => {
                return Err(e);
            },
        };
        if bytes.len() < 12 || bytes.len() - 12 < length {
            return Err(Error::UnexpectedEof);
        }
        let data = slice_to_vec(slice_subrange(bytes, 8, 8 + length));
        let crc: u32 = checksum(&chunk_type, data.as_slice());
        if read_u32(bytes, 8 + length) != crc {
            return Err(Error::CrcMismatch);
        }
        Ok((Chunk { chunk_type, data, crc }, 12 + length))
    }
}

} // verus!
