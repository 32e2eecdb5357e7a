//! A PNG file as a sequence of chunks: what its bytes are, what reading bytes
//! gives, and how the two fit together.
use crate::chunk::{
    lemma_bytes_len, lemma_bytes_of_parsed, lemma_parse_bytes, parse_chunk, ChunkView,
};
use crate::error::Error;
use vstd::prelude::*;

verus! {

/// The eight bytes that every PNG file starts with.
pub open spec fn signature() -> Seq<u8> {
    seq![0x89u8, 0x50, 0x4E, 0x47, 0x0D, 0x0A, 0x1A, 0x0A]
}

/// The type code of the chunk that ends a file: `IEND`.
pub open spec fn terminator() -> Seq<u8> {
    seq![0x49u8, 0x45, 0x4E, 0x44]
}

/// Every chunk of the sequence is valid.
pub open spec fn all_valid(chunks: Seq<ChunkView>) -> bool {
    forall|i: int| 0 <= i < chunks.len() ==> (#[trigger] chunks[i]).valid()
}

/// The sequence is not empty and its last chunk has the terminal type.
pub open spec fn ends_with_terminator(chunks: Seq<ChunkView>) -> bool {
    chunks.len() > 0 && chunks.last().chunk_type == terminator()
}

/// The chunks on the wire, one after the other.
pub open spec fn chunks_bytes(chunks: Seq<ChunkView>) -> Seq<u8>
    decreases chunks.len(),
{
    if chunks.len() == 0 {
        Seq::empty()
    } else {
        chunks[0].bytes() + chunks_bytes(chunks.drop_first())
    }
}

/// The file that holds `chunks`: the signature, then the chunks.
pub open spec fn container_bytes(chunks: Seq<ChunkView>) -> Seq<u8> {
    signature() + chunks_bytes(chunks)
}

/// What reading chunks from `bytes` until none are left gives: the chunks,
/// or the first reason why a chunk could not be read.
pub open spec fn parse_chunks(bytes: Seq<u8>) -> Result<Seq<ChunkView>, Error>
    decreases bytes.len(),
    via parse_chunks_terminates
{
    if bytes.len() == 0 {
        Ok(Seq::empty())
    } else {
        match parse_chunk(bytes) {
            Err(e) => Err(e),
            Ok((chunk, used)) => match parse_chunks(bytes.skip(used as int)) {
                Err(e) => Err(e),
                Ok(rest) => Ok(seq![chunk] + rest),
            },
        }
    }
}

#[via_fn]
proof fn parse_chunks_terminates(bytes: Seq<u8>) {
    if parse_chunk(bytes) is Ok {
        lemma_bytes_of_parsed(bytes);
    }
}

/// What reading a file gives: its chunks, where the bytes start with the
/// signature, every chunk after it reads, and the last of them has the
/// terminal type.
pub open spec fn parse_container(bytes: Seq<u8>) -> Result<Seq<ChunkView>, Error> {
    if bytes.len() < 8 || bytes.take(8) != signature() {
        Err(Error::InvalidSignature)
    } else {
        match parse_chunks(bytes.skip(8)) {
            Err(e) => Err(e),
            Ok(chunks) => if ends_with_terminator(chunks) {
                Ok(chunks)
            } else {
                Err(Error::MissingTerminator)
            },
        }
    }
}

/// `i` is the place of the first chunk of type `code`.
pub open spec fn first_of_type(chunks: Seq<ChunkView>, code: Seq<u8>, i: int) -> bool {
    &&& 0 <= i < chunks.len()
    &&& chunks[i].chunk_type == code
    &&& forall|j: int| 0 <= j < i ==> (#[trigger] chunks[j]).chunk_type != code
}

/// No chunk has the type `code`.
pub open spec fn none_of_type(chunks: Seq<ChunkView>, code: Seq<u8>) -> bool {
    forall|j: int| 0 <= j < chunks.len() ==> (#[trigger] chunks[j]).chunk_type != code
}

/// Only one place is the place of the first chunk of a type.
pub proof fn lemma_first_of_type_unique(chunks: Seq<ChunkView>, code: Seq<u8>, i: int, j: int)
    requires
        first_of_type(chunks, code, i),
        first_of_type(chunks, code, j),
    ensures
        i == j,
{
    if i < j {
        assert(chunks[i].chunk_type != code);
    } else if j < i {
        assert(chunks[j].chunk_type != code);
    }
}

/// The bytes of two sequences of chunks joined are the bytes of the first
/// followed by the bytes of the second.
pub proof fn lemma_chunks_bytes_concat(front: Seq<ChunkView>, back: Seq<ChunkView>)
    ensures
        chunks_bytes(front + back) == chunks_bytes(front) + chunks_bytes(back),
    decreases front.len(),
{
    if front.len() == 0 {
        assert(front + back =~= back);
    } else {
        lemma_chunks_bytes_concat(front.drop_first(), back);
        assert((front + back).drop_first() =~= front.drop_first() + back);
        assert(chunks_bytes(front + back) =~= chunks_bytes(front) + chunks_bytes(back));
    }
}

/// The bytes of a single chunk as a sequence of chunks.
pub proof fn lemma_chunks_bytes_single(chunk: ChunkView)
    ensures
        chunks_bytes(seq![chunk]) == chunk.bytes(),
{
    assert(seq![chunk].drop_first() =~= Seq::<ChunkView>::empty());
    assert(chunks_bytes(Seq::<ChunkView>::empty()) =~= Seq::<u8>::empty());
    assert(chunks_bytes(seq![chunk]) =~= chunk.bytes());
}

/// The bytes of the first `i + 1` chunks are the bytes of the first `i`
/// followed by the bytes of the next, and they are all valid where the first
/// `i` and the next are.
pub proof fn lemma_chunks_bytes_next(chunks: Seq<ChunkView>, i: int)
    requires
        0 <= i < chunks.len(),
    ensures
        chunks_bytes(chunks.take(i + 1)) == chunks_bytes(chunks.take(i)) + chunks[i].bytes(),
        all_valid(chunks.take(i)) && chunks[i].valid() ==> all_valid(chunks.take(i + 1)),
{
    assert(chunks.take(i + 1) =~= chunks.take(i) + seq![chunks[i]]);
    lemma_chunks_bytes_concat(chunks.take(i), seq![chunks[i]]);
    lemma_chunks_bytes_single(chunks[i]);
    if all_valid(chunks.take(i)) && chunks[i].valid() {
        assert forall|j: int| 0 <= j < i + 1 implies (#[trigger] chunks.take(i + 1)[j]).valid() by {
            if j < i {
                assert(chunks.take(i)[j] == chunks.take(i + 1)[j]);
            }
        }
    }
}

/// Reading the bytes of valid chunks gives the chunks back.
pub proof fn lemma_parse_chunks_bytes(chunks: Seq<ChunkView>)
    requires
        all_valid(chunks),
    ensures
        parse_chunks(chunks_bytes(chunks)) == Ok::<Seq<ChunkView>, Error>(chunks),
    decreases chunks.len(),
{
    if chunks.len() > 0 {
        let first = chunks[0];
        let rest = chunks.drop_first();
        let bytes = chunks_bytes(chunks);
        assert(first.valid());
        lemma_bytes_len(first);
        lemma_parse_bytes(first, chunks_bytes(rest));
        assert(bytes.skip(first.bytes().len() as int) =~= chunks_bytes(rest));
        assert(all_valid(rest)) by {
            assert forall|i: int| 0 <= i < rest.len() implies (#[trigger] rest[i]).valid() by {
                assert(chunks[i + 1].valid());
            }
        }
        lemma_parse_chunks_bytes(rest);
        assert(seq![first] + rest =~= chunks);
    } else {
        assert(chunks =~= Seq::<ChunkView>::empty());
    }
}

/// Whatever reads as a sequence of chunks is the wire form of those chunks,
/// and each of them is valid.
pub proof fn lemma_bytes_of_parsed_chunks(bytes: Seq<u8>)
    requires
        parse_chunks(bytes) is Ok,
    ensures
        all_valid(parse_chunks(bytes)->Ok_0),
        chunks_bytes(parse_chunks(bytes)->Ok_0) == bytes,
    decreases bytes.len(),
{
    if bytes.len() > 0 {
        let (chunk, used) = parse_chunk(bytes)->Ok_0;
        let rest = parse_chunks(bytes.skip(used as int))->Ok_0;
        lemma_bytes_of_parsed(bytes);
        lemma_bytes_of_parsed_chunks(bytes.skip(used as int));
        let chunks = seq![chunk] + rest;
        assert(chunks.drop_first() =~= rest);
        assert(chunks_bytes(chunks) =~= bytes);
    }
}

/// Reading a file that was written gives its chunks back: for valid chunks
/// that end with the terminal chunk, the bytes of the file read as exactly
/// those chunks.
pub proof fn lemma_parse_container_bytes(chunks: Seq<ChunkView>)
    requires
        all_valid(chunks),
        ends_with_terminator(chunks),
    ensures
        parse_container(container_bytes(chunks)) == Ok::<Seq<ChunkView>, Error>(chunks),
{
    let bytes = container_bytes(chunks);
    assert(bytes.take(8) =~= signature());
    assert(bytes.skip(8) =~= chunks_bytes(chunks));
    lemma_parse_chunks_bytes(chunks);
}

/// Writing a file that was read gives its bytes back: whatever reads as a
/// file is, byte for byte, the file that holds the chunks read, and those
/// chunks are valid and end with the terminal chunk.
pub proof fn lemma_bytes_of_parsed_container(bytes: Seq<u8>)
    requires
        parse_container(bytes) is Ok,
    ensures
        all_valid(parse_container(bytes)->Ok_0),
        ends_with_terminator(parse_container(bytes)->Ok_0),
        container_bytes(parse_container(bytes)->Ok_0) == bytes,
{
    lemma_bytes_of_parsed_chunks(bytes.skip(8));
    assert(bytes =~= bytes.take(8) + bytes.skip(8));
}

/// A file whose chunks do not end with the terminal chunk does not read:
/// for valid chunks of which the last has another type, or of which there
/// are none, reading their file fails with `MissingTerminator`.
pub proof fn lemma_missing_terminator(chunks: Seq<ChunkView>)
    requires
        all_valid(chunks),
        !ends_with_terminator(chunks),
    ensures
        parse_container(container_bytes(chunks)) == Err::<Seq<ChunkView>, Error>(
            Error::MissingTerminator,
        ),
{
    let bytes = container_bytes(chunks);
    assert(bytes.take(8) =~= signature());
    assert(bytes.skip(8) =~= chunks_bytes(chunks));
    lemma_parse_chunks_bytes(chunks);
}

/// Where a chunk is put into a sequence, its bytes are put into the bytes
/// of the sequence: between the bytes of the chunks before it and the bytes
/// of the chunks after it.
pub proof fn lemma_insert_bytes(chunks: Seq<ChunkView>, i: int, chunk: ChunkView)
    requires
        0 <= i <= chunks.len(),
    ensures
        chunks_bytes(chunks) == chunks_bytes(chunks.take(i)) + chunks_bytes(chunks.skip(i)),
        chunks_bytes(chunks.insert(i, chunk)) == chunks_bytes(chunks.take(i)) + chunk.bytes()
            + chunks_bytes(chunks.skip(i)),
{
    assert(chunks =~= chunks.take(i) + chunks.skip(i));
    assert(chunks.insert(i, chunk) =~= (chunks.take(i) + seq![chunk]) + chunks.skip(i));
    lemma_chunks_bytes_concat(chunks.take(i), chunks.skip(i));
    lemma_chunks_bytes_concat(chunks.take(i) + seq![chunk], chunks.skip(i));
    lemma_chunks_bytes_concat(chunks.take(i), seq![chunk]);
    lemma_chunks_bytes_single(chunk);
}

/// Where a chunk is taken out of a sequence, its bytes are cut out of the
/// bytes of the sequence, and the bytes before and after them stay.
pub proof fn lemma_remove_bytes(chunks: Seq<ChunkView>, i: int)
    requires
        0 <= i < chunks.len(),
    ensures
        chunks_bytes(chunks) == chunks_bytes(chunks.take(i)) + chunks[i].bytes() + chunks_bytes(
            chunks.skip(i + 1),
        ),
        chunks_bytes(chunks.remove(i)) == chunks_bytes(chunks.take(i)) + chunks_bytes(
            chunks.skip(i + 1),
        ),
{
    assert(chunks.remove(i) =~= chunks.take(i) + chunks.skip(i + 1));
    assert(chunks =~= chunks.remove(i).insert(i, chunks[i]));
    assert(chunks.remove(i).take(i) =~= chunks.take(i));
    assert(chunks.remove(i).skip(i) =~= chunks.skip(i + 1));
    lemma_insert_bytes(chunks.remove(i), i, chunks[i]);
}

/// A chunk that is put in before the last chunk stands, in the bytes of the
/// file, directly before the bytes of the last chunk and behind all that
/// came before them.
pub proof fn lemma_appended_bytes(chunks: Seq<ChunkView>, chunk: ChunkView)
    requires
        chunks.len() > 0,
    ensures
        container_bytes(chunks) == signature() + chunks_bytes(chunks.drop_last())
            + chunks.last().bytes(),
        container_bytes(chunks.insert(chunks.len() - 1, chunk)) == signature() + chunks_bytes(
            chunks.drop_last(),
        ) + chunk.bytes() + chunks.last().bytes(),
{
    let at = chunks.len() - 1;
    lemma_insert_bytes(chunks, at, chunk);
    assert(chunks.take(at) =~= chunks.drop_last());
    assert(chunks.skip(at) =~= seq![chunks.last()]);
    lemma_chunks_bytes_single(chunks.last());
    assert(container_bytes(chunks) =~= signature() + chunks_bytes(chunks.drop_last())
        + chunks.last().bytes());
    assert(container_bytes(chunks.insert(at, chunk)) =~= signature() + chunks_bytes(
        chunks.drop_last(),
    ) + chunk.bytes() + chunks.last().bytes());
}

/// A chunk that stood in a sequence once does not stand in it after it was
/// taken out.
pub proof fn lemma_removed_is_gone(chunks: Seq<ChunkView>, i: int)
    requires
        0 <= i < chunks.len(),
        forall|j: int| 0 <= j < chunks.len() && j != i ==> chunks[j] != chunks[i],
    ensures
        !chunks.remove(i).contains(chunks[i]),
{
    let rest = chunks.remove(i);
    if rest.contains(chunks[i]) {
        let k = choose|k: int| 0 <= k < rest.len() && rest[k] == chunks[i];
        if k < i {
            assert(rest[k] == chunks[k]);
        } else {
            assert(rest[k] == chunks[k + 1]);
        }
    }
}

/// Once the only chunk of a type is taken out, no chunk of that type is
/// left.
pub proof fn lemma_removed_type_is_gone(chunks: Seq<ChunkView>, code: Seq<u8>, i: int)
    requires
        0 <= i < chunks.len(),
        forall|j: int| 0 <= j < chunks.len() && j != i ==> chunks[j].chunk_type != code,
    ensures
        none_of_type(chunks.remove(i), code),
{
    let rest = chunks.remove(i);
    assert forall|k: int| 0 <= k < rest.len() implies (#[trigger] rest[k]).chunk_type != code by {
        if k < i {
            assert(rest[k] == chunks[k]);
        } else {
            assert(rest[k] == chunks[k + 1]);
        }
    }
}

} // verus!
