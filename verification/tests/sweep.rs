use pngme::chunk::Chunk;
use pngme::chunk_type::ChunkType;
use pngme::command::{decode, encode, remove};
use pngme::png::Png;

/// A small linear congruential generator, so that every run sees the same
/// inputs.
struct Numbers(u64);

impl Numbers {
    fn next(&mut self) -> u64 {
        self.0 = self.0.wrapping_mul(6364136223846793005).wrapping_add(1442695040888963407);
        self.0 >> 33
    }

    fn below(&mut self, limit: u64) -> u64 {
        self.next() % limit
    }

    fn bytes(&mut self, len: usize) -> Vec<u8> {
        (0..len).map(|_| self.next() as u8).collect()
    }

    fn code(&mut self) -> ChunkType {
        let letters = b"ABCDEFGHIJKLMNOPQRSTUVWXYZabcdefghijklmnopqrstuvwxyz";
        let mut bytes = [0u8; 4];
        for b in bytes.iter_mut() {
            *b = letters[self.below(52) as usize];
        }
        ChunkType::from_bytes(bytes).unwrap()
    }

    fn png(&mut self) -> Png {
        let mut chunks = Vec::new();
        for _ in 0..self.below(5) {
            let code = self.code();
            let len = self.below(40) as usize;
            chunks.push(Chunk::new(code, self.bytes(len)));
        }
        chunks.push(Chunk::new(ChunkType::from_text("IEND").unwrap(), Vec::new()));
        Png::from_chunks(chunks).unwrap()
    }
}

#[test]
fn whatever_is_written_reads_back() {
    let mut numbers = Numbers(1);
    for _ in 0..300 {
        let png = numbers.png();
        let bytes = png.as_bytes();
        let again = Png::parse(&bytes).unwrap();
        assert_eq!(again.chunks().len(), png.chunks().len());
        assert_eq!(again.as_bytes(), bytes);
    }
}

#[test]
fn whatever_reads_is_written_back_the_same() {
    let mut numbers = Numbers(2);
    let mut read = 0;
    for round in 0..3000 {
        let mut bytes = numbers.png().as_bytes();
        if round % 3 != 0 {
            let at = numbers.below(bytes.len() as u64) as usize;
            bytes[at] = numbers.next() as u8;
        }
        if round % 7 == 0 {
            let keep = numbers.below(bytes.len() as u64 + 1) as usize;
            bytes.truncate(keep);
        }
        if let Ok(png) = Png::parse(&bytes) {
            assert_eq!(png.as_bytes(), bytes);
            read += 1;
        }
    }
    assert!(read >= 500);
}

#[test]
fn any_bytes_are_read_or_refused() {
    let mut numbers = Numbers(3);
    for _ in 0..3000 {
        let len = numbers.below(48) as usize;
        let mut bytes = numbers.bytes(len);
        if numbers.below(2) == 0 && len >= 8 {
            bytes[..8].copy_from_slice(&[137, 80, 78, 71, 13, 10, 26, 10]);
        }
        if let Ok(png) = Png::parse(&bytes) {
            assert_eq!(png.as_bytes(), bytes);
        }
        if let Ok((chunk, used)) = Chunk::parse(&bytes) {
            assert_eq!(chunk.as_bytes(), &bytes[..used]);
        }
    }
}

#[test]
fn a_changed_payload_byte_is_always_noticed() {
    let mut numbers = Numbers(4);
    for _ in 0..300 {
        let len = 1 + numbers.below(40) as usize;
        let chunk = Chunk::new(numbers.code(), numbers.bytes(len));
        let bytes = chunk.as_bytes();
        let at = 8 + numbers.below(len as u64) as usize;
        let mut other = bytes.clone();
        other[at] = other[at].wrapping_add(1 + numbers.below(255) as u8);
        assert_eq!(Chunk::parse(&other).err(), Some(pngme::error::Error::CrcMismatch));
    }
}

#[test]
fn a_message_put_in_is_read_and_taken_out_again() {
    let mut numbers = Numbers(5);
    for _ in 0..200 {
        let file = numbers.png().as_bytes();
        let code = numbers.code().to_string();
        if remove(&file, &code).is_ok() {
            continue;
        }
        let message: String =
            (0..numbers.below(20)).map(|_| (b'a' + numbers.below(26) as u8) as char).collect();
        let with = encode(&file, &code, &message).unwrap();
        assert_eq!(decode(&with, &code), Ok(message));
        assert_eq!(remove(&with, &code), Ok(file));
    }
}
