//! A PNG file in memory: its chunks in order, the last of them always the
//! terminal chunk.
use crate::chunk::{lemma_bytes_of_parsed, Chunk, ChunkView};
use crate::chunk_type::{is_type_code, ChunkType};
use crate::container::{
    all_valid, chunks_bytes, container_bytes, ends_with_terminator, first_of_type,
    lemma_chunks_bytes_next, lemma_parse_container_bytes, none_of_type, parse_chunks,
    parse_container, signature, terminator,
};
use crate::error::Error;
use vstd::prelude::*;
use vstd::slice::slice_subrange;
use vstd::string::StringSliceAdditionalSpecFns;

verus! {

/// What each chunk of a sequence is.
pub open spec fn views(chunks: Seq<Chunk>) -> Seq<ChunkView> {
    Seq::new(chunks.len(), |i: int| chunks[i]@)
}

/// The chunks `front`, followed by what was read after them.
spec fn read_after(front: Seq<ChunkView>, rest: Result<Seq<ChunkView>, Error>) -> Result<
    Seq<ChunkView>,
    Error,
> {
    match rest {
        Ok(back) => Ok(front + back),
        Err(e) => Err(e),
    }
}

/// What each of the chunks referred to is.
pub open spec fn views_of(chunks: Seq<&Chunk>) -> Seq<ChunkView> {
    Seq::new(chunks.len(), |i: int| chunks[i]@)
}

/// A PNG file: the signature and a sequence of chunks that ends with the
/// terminal chunk. The terminal chunk is held apart from the chunks before
/// it, so that no operation on those can touch it.
#[derive(Debug)]
pub struct Png {
    body: Vec<Chunk>,
    end: Chunk,
}

impl View for Png {
    type V = Seq<ChunkView>;

    closed spec fn view(&self) -> Seq<ChunkView> {
        views(self.body@).push(self.end@)
    }
}

fn is_signature(bytes: &[u8]) -> (res: bool)
    requires
        bytes@.len() >= 8,
    ensures
        res == (bytes@.take(8) == signature()),
{
    let res = bytes[0] == 0x89 && bytes[1] == 0x50 && bytes[2] == 0x4E && bytes[3] == 0x47
        && bytes[4] == 0x0D && bytes[5] == 0x0A && bytes[6] == 0x1A && bytes[7] == 0x0A;
    proof {
        if res {
            assert(bytes@.take(8) =~= signature());
        } else {
            assert(bytes@.take(8)[0] == bytes@[0]);
            assert(bytes@.take(8)[1] == bytes@[1]);
            assert(bytes@.take(8)[2] == bytes@[2]);
            assert(bytes@.take(8)[3] == bytes@[3]);
            assert(bytes@.take(8)[4] == bytes@[4]);
            assert(bytes@.take(8)[5] == bytes@[5]);
            assert(bytes@.take(8)[6] == bytes@[6]);
            assert(bytes@.take(8)[7] == bytes@[7]);
        }
    }
    res
}

fn is_terminator(code: &ChunkType) -> (res: bool)
    ensures
        res == (code@ == terminator()),
{
    let bytes = code.bytes();
    let res = bytes[0] == 0x49 && bytes[1] == 0x45 && bytes[2] == 0x4E && bytes[3] == 0x44;
    proof {
        if res {
            assert(code@ =~= terminator());
        }
    }
    res
}

fn position(chunks: &Vec<Chunk>, code: &ChunkType) -> (res: Option<usize>)
    ensures
        match res {
            Some(i) => first_of_type(views(chunks@), code@, i as int),
            None => none_of_type(views(chunks@), code@),
        },
{
    let mut i: usize = 0;
    while i < chunks.len()
        invariant
            i <= chunks.len(),
            forall|j: int| 0 <= j < i ==> (#[trigger] views(chunks@)[j]).chunk_type != code@,
        decreases chunks.len() - i,
    {
        if *chunks[i].chunk_type() == *code {
            return Some(i);
        }
        i = i + 1;
    }
    None
}

impl Png {
    #[verifier::type_invariant]
    spec fn well_formed(self) -> bool {
        self.end@.chunk_type == terminator()
    }

    /// Makes a file of `chunks`, which must end with the terminal chunk.
    pub fn from_chunks(chunks: Vec<Chunk>) -> (res: Result<Png, Error>)
        ensures
            match res {
                Ok(png) => ends_with_terminator(views(chunks@)) && png@ == views(chunks@),
                Err(e) => !ends_with_terminator(views(chunks@)) && e == Error::MissingTerminator,
            },
    {
        let mut body = chunks;
        match body.pop() {
            None => Err(Error::MissingTerminator),
            Some(end) => {
                if is_terminator(end.chunk_type()) {
                    assert(views(body@).push(end@) =~= views(chunks@));
                    Ok(Png { body, end })
                } else {
                    Err(Error::MissingTerminator)
                }
            },
        }
    }

    /// Reads a file: the signature, then chunks until no byte is left.
    pub fn parse(bytes: &[u8]) -> (res: Result<Png, Error>)
        ensures
            match res {
                Ok(png) => parse_container(bytes@) == Ok::<Seq<ChunkView>, Error>(png@),
                Err(e) => parse_container(bytes@) == Err::<Seq<ChunkView>, Error>(e),
            },
    {
        if bytes.len() < 8 || !is_signature(bytes) {
            return Err(Error::InvalidSignature);
        }
        let mut chunks: Vec<Chunk> = Vec::new();
        let mut at: usize = 8;
        proof {
            assert(views(chunks@) =~= Seq::<ChunkView>::empty());
            if let Ok(back) = parse_chunks(bytes@.skip(8)) {
                assert(views(chunks@) + back =~= back);
            }
        }
        while at < bytes.len()
            invariant
                8 <= at <= bytes.len(),
                bytes@.take(8) == signature(),
                parse_chunks(bytes@.skip(8)) == read_after(
                    views(chunks@),
                    parse_chunks(bytes@.skip(at as int)),
                ),
            decreases bytes.len() - at,
        {
            let rest = slice_subrange(bytes, at, bytes.len());
            assert(rest@ =~= bytes@.skip(at as int));
            match Chunk::parse(rest) {
                Err(e) => {
                    return Err(e);
                },
                Ok((chunk, used)) => {
                    proof {
                        lemma_bytes_of_parsed(rest@);
                        assert(rest@.skip(used as int) =~= bytes@.skip(at + used));
                        let before = views(chunks@);
                        let after = views(chunks@.push(chunk));
                        assert(after =~= before + seq![chunk@]);
                        if let Ok(back) = parse_chunks(bytes@.skip(at + used)) {
                            assert(before + (seq![chunk@] + back) =~= after + back);
                        }
                    }
                    chunks.push(chunk);
                    at = at + used;
                },
            }
        }
        proof {
            assert(bytes@.skip(at as int) =~= Seq::<u8>::empty());
            assert(views(chunks@) + Seq::<ChunkView>::empty() =~= views(chunks@));
        }
        Png::from_chunks(chunks)
    }

    /// The eight bytes that the file starts with.
    pub fn header(&self) -> (header: [u8; 8])
        ensures
            header@ == signature(),
    {
        let header: [u8; 8] = [0x89, 0x50, 0x4E, 0x47, 0x0D, 0x0A, 0x1A, 0x0A];
        assert(header@ =~= signature());
        header
    }

    /// The chunks, in the order in which they stand in the file. The last of
    /// them is the terminal chunk.
    pub fn chunks(&self) -> (chunks: Vec<&Chunk>)
        ensures
            views_of(chunks@) == self@,
            ends_with_terminator(self@),
    {
        proof {
            use_type_invariant(self);
        }
        let mut chunks: Vec<&Chunk> = Vec::new();
        let mut i: usize = 0;
        while i < self.body.len()
            invariant
                i <= self.body.len(),
                chunks@.len() == i,
                forall|j: int| 0 <= j < i ==> (#[trigger] chunks@[j])@ == self.body@[j]@,
            decreases self.body.len() - i,
        {
            chunks.push(&self.body[i]);
            i = i + 1;
        }
        chunks.push(&self.end);
        assert(views_of(chunks@) =~= self@);
        chunks
    }

    /// Puts `chunk` into the file, directly before the terminal chunk.
    pub fn append_chunk(&mut self, chunk: Chunk)
        ensures
            final(self)@ == old(self)@.insert(old(self)@.len() - 1, chunk@),
            ends_with_terminator(final(self)@),
    {
        proof {
            use_type_invariant(&*self);
        }
        let mut body: Vec<Chunk> = Vec::new();
        std::mem::swap(&mut body, &mut self.body);
        body.push(chunk);
        self.body = body;
        proof {
            assert(self@ =~= old(self)@.insert(old(self)@.len() - 1, chunk@));
        }
    }

    /// The first chunk of type `code`, if there is one.
    pub fn chunk_by_code(&self, code: &ChunkType) -> (res: Option<&Chunk>)
        ensures
            match res {
                Some(chunk) => exists|i: int|
                    first_of_type(self@, code@, i) && chunk@ == #[trigger] self@[i],
                None => none_of_type(self@, code@),
            },
    {
        match position(&self.body, code) {
            Some(i) => {
                proof {
                    assert(self@[i as int] == views(self.body@)[i as int]);
                    assert forall|j: int| 0 <= j < i implies (#[trigger] self@[j]).chunk_type
                        != code@ by {
                        assert(self@[j] == views(self.body@)[j]);
                    }
                }
                Some(&self.body[i])
            },
            None => {
                proof {
                    assert forall|j: int| 0 <= j < self.body.len() implies (
                    #[trigger] self@[j]).chunk_type != code@ by {
                        assert(self@[j] == views(self.body@)[j]);
                    }
                }
                if *self.end.chunk_type() == *code {
                    assert(self@[self.body.len() as int] == self.end@);
                    Some(&self.end)
                } else {
                    None
                }
            },
        }
    }

    /// The first chunk whose type is spelled by `chunk_type`, if there is
    /// one. There is none where the text spells no type code, and none where
    /// no chunk has that type.
    pub fn chunk_by_type(&self, chunk_type: &str) -> (res: Option<&Chunk>)
        ensures
            match res {
                Some(chunk) => is_type_code(chunk_type.spec_bytes()) && exists|i: int|
                    first_of_type(self@, chunk_type.spec_bytes(), i) && chunk@
                        == #[trigger] self@[i],
                None => !is_type_code(chunk_type.spec_bytes()) || none_of_type(
                    self@,
                    chunk_type.spec_bytes(),
                ),
            },
    {
        match ChunkType::from_text(chunk_type) {
            Ok(code) => self.chunk_by_code(&code),
            Err(_) => None,
        }
    }

    /// Takes the first chunk of type `code` out of the file and returns it.
    /// The terminal chunk at the end of the file is never taken: where no
    /// chunk before it has the type, nothing changes and the call fails with
    /// `NotFound`.
    pub fn remove_chunk_by_code(&mut self, code: &ChunkType) -> (res: Result<Chunk, Error>)
        ensures
            match res {
                Ok(chunk) => exists|i: int|
                    first_of_type(old(self)@.drop_last(), code@, i) && chunk@
                        == #[trigger] old(self)@[i] && final(self)@ == old(self)@.remove(i),
                Err(e) => e == Error::NotFound && none_of_type(old(self)@.drop_last(), code@)
                    && final(self)@ == old(self)@,
            },
            ends_with_terminator(final(self)@),
    {
        proof {
            use_type_invariant(&*self);
            assert(self@.drop_last() =~= views(self.body@));
        }
        let i: usize = match position(&self.body, code) {
            Some(i) => i,
            None => {
                return Err(Error::NotFound);
            },
        };
        let mut body: Vec<Chunk> = Vec::new();
        std::mem::swap(&mut body, &mut self.body);
        let chunk = body.remove(i);
        self.body = body;
        proof {
            assert(self@ =~= old(self)@.remove(i as int));
        }
        Ok(chunk)
    }

    /// Takes the first chunk whose type is spelled by `chunk_type` out of the
    /// file and returns it. A text that spells no type code is refused with
    /// `InvalidFormat`; otherwise as `remove_chunk_by_code`.
    pub fn remove_chunk(&mut self, chunk_type: &str) -> (res: Result<Chunk, Error>)
        ensures
            match res {
                Ok(chunk) => is_type_code(chunk_type.spec_bytes()) && exists|i: int|
                    first_of_type(old(self)@.drop_last(), chunk_type.spec_bytes(), i) && chunk@
                        == #[trigger] old(self)@[i] && final(self)@ == old(self)@.remove(i),
                Err(e) => final(self)@ == old(self)@ && if is_type_code(chunk_type.spec_bytes()) {
                    e == Error::NotFound && none_of_type(
                        old(self)@.drop_last(),
                        chunk_type.spec_bytes(),
                    )
                } else {
                    e == Error::InvalidFormat
                },
            },
            ends_with_terminator(final(self)@),
    {
        match ChunkType::from_text(chunk_type) {
            Ok(code) => self.remove_chunk_by_code(&code),
            Err(e) => {
                proof {
                    use_type_invariant(&*self);
                }
                Err(e)
            },
        }
    }

    /// The file on the wire: the signature, then each chunk. Reading these
    /// bytes gives the same chunks back.
    pub fn as_bytes(&self) -> (bytes: Vec<u8>)
        ensures
            bytes@ == container_bytes(self@),
            all_valid(self@),
            ends_with_terminator(self@),
            parse_container(bytes@) == Ok::<Seq<ChunkView>, Error>(self@),
    {
        proof {
            use_type_invariant(self);
        }
        let mut bytes: Vec<u8> = Vec::new();
        let header = self.header();
        bytes.extend_from_slice(header.as_slice());
        let mut i: usize = 0;
        proof {
            assert(self@.take(0) =~= Seq::<ChunkView>::empty());
            assert(bytes@ =~= signature() + chunks_bytes(self@.take(0)));
        }
        while i < self.body.len()
            invariant
                i <= self.body.len(),
                self@.len() == self.body.len() + 1,
                bytes@ == signature() + chunks_bytes(self@.take(i as int)),
                all_valid(self@.take(i as int)),
            decreases self.body.len() - i,
        {
            let chunk = self.body[i].as_bytes();
            bytes.extend_from_slice(chunk.as_slice());
            proof {
                assert(self@[i as int] == self.body@[i as int]@);
                lemma_chunks_bytes_next(self@, i as int);
                assert(bytes@ =~= signature() + chunks_bytes(self@.take(i + 1)));
            }
            i = i + 1;
        }
        let chunk = self.end.as_bytes();
        bytes.extend_from_slice(chunk.as_slice());
        proof {
            assert(self@[i as int] == self.end@);
            lemma_chunks_bytes_next(self@, i as int);
            assert(self@.take(i + 1) =~= self@);
            assert(bytes@ =~= container_bytes(self@));
            lemma_parse_container_bytes(self@);
        }
        bytes
    }
}

} // verus!
