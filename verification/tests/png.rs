use pngme::chunk::Chunk;
use pngme::chunk_type::ChunkType;
use pngme::error::Error;
use pngme::png::Png;

const HEADER: [u8; 8] = [137, 80, 78, 71, 13, 10, 26, 10];

fn chunk(chunk_type: &str, data: &str) -> Chunk {
    Chunk::new(ChunkType::from_text(chunk_type).unwrap(), data.as_bytes().to_vec())
}

fn end() -> Chunk {
    chunk("IEND", "")
}

fn testing_chunks() -> Vec<Chunk> {
    vec![
        chunk("FrSt", "I am the first chunk"),
        chunk("miDl", "I am another chunk"),
        chunk("LASt", "I am the last chunk"),
        end(),
    ]
}

fn testing_png() -> Png {
    Png::from_chunks(testing_chunks()).unwrap()
}

fn file(chunks: &[Chunk]) -> Vec<u8> {
    let mut bytes = HEADER.to_vec();
    for chunk in chunks {
        bytes.extend_from_slice(&chunk.as_bytes());
    }
    bytes
}

fn types(png: &Png) -> Vec<String> {
    png.chunks().iter().map(|chunk| chunk.chunk_type().to_string()).collect()
}

fn find(haystack: &[u8], needle: &[u8]) -> Option<usize> {
    haystack.windows(needle.len()).position(|window| window == needle)
}

#[test]
fn from_chunks_keeps_the_chunks_in_order() {
    let png = testing_png();
    assert_eq!(types(&png), ["FrSt", "miDl", "LASt", "IEND"]);
    assert_eq!(png.chunks().len(), 4);
    assert_eq!(png.chunks()[1].data_as_string().unwrap(), "I am another chunk");
}

#[test]
fn from_chunks_wants_the_terminal_chunk_last() {
    assert_eq!(Png::from_chunks(Vec::new()).err(), Some(Error::MissingTerminator));
    assert_eq!(
        Png::from_chunks(vec![chunk("FrSt", "x")]).err(),
        Some(Error::MissingTerminator)
    );
    assert_eq!(
        Png::from_chunks(vec![end(), chunk("FrSt", "x")]).err(),
        Some(Error::MissingTerminator)
    );
    assert!(Png::from_chunks(vec![end()]).is_ok());
    assert!(Png::from_chunks(vec![end(), end()]).is_ok());
}

#[test]
fn header_is_the_signature() {
    assert_eq!(testing_png().header(), HEADER);
}

#[test]
fn as_bytes_is_signature_then_chunks() {
    assert_eq!(testing_png().as_bytes(), file(&testing_chunks()));
    assert_eq!(
        Png::from_chunks(vec![end()]).unwrap().as_bytes(),
        vec![137, 80, 78, 71, 13, 10, 26, 10, 0, 0, 0, 0, 73, 69, 78, 68, 174, 66, 96, 130]
    );
}

#[test]
fn parse_reads_what_was_written() {
    let bytes = testing_png().as_bytes();
    let png = Png::parse(&bytes).unwrap();
    assert_eq!(types(&png), ["FrSt", "miDl", "LASt", "IEND"]);
    assert_eq!(png.as_bytes(), bytes);
}

#[test]
fn parse_reads_the_smallest_file() {
    let bytes = file(&[end()]);
    let png = Png::parse(&bytes).unwrap();
    assert_eq!(types(&png), ["IEND"]);
    assert_eq!(png.as_bytes(), bytes);
}

#[test]
fn parse_refuses_a_wrong_signature() {
    let mut bytes = testing_png().as_bytes();
    bytes[0] = 13;
    assert_eq!(Png::parse(&bytes).err(), Some(Error::InvalidSignature));
    let mut bytes = testing_png().as_bytes();
    bytes[7] = 11;
    assert_eq!(Png::parse(&bytes).err(), Some(Error::InvalidSignature));
}

#[test]
fn parse_refuses_input_shorter_than_the_signature() {
    for len in 0..8 {
        assert_eq!(Png::parse(&HEADER[..len]).err(), Some(Error::InvalidSignature));
    }
}

#[test]
fn parse_refuses_a_file_without_chunks() {
    assert_eq!(Png::parse(&HEADER).err(), Some(Error::MissingTerminator));
}

#[test]
fn parse_refuses_a_file_that_does_not_end_with_the_terminal_chunk() {
    let chunks = vec![chunk("FrSt", "first"), chunk("LASt", "last")];
    assert_eq!(Png::parse(&file(&chunks)).err(), Some(Error::MissingTerminator));
    let chunks = vec![end(), chunk("LASt", "last")];
    assert_eq!(Png::parse(&file(&chunks)).err(), Some(Error::MissingTerminator));
}

#[test]
fn parse_hands_on_the_errors_of_chunks() {
    let good = testing_png().as_bytes();

    let mut bytes = good.clone();
    bytes[8 + 5] = b'1';
    assert_eq!(Png::parse(&bytes).err(), Some(Error::InvalidFormat));

    let mut bytes = good.clone();
    bytes[8 + 8] ^= 0x20;
    assert_eq!(Png::parse(&bytes).err(), Some(Error::CrcMismatch));

    for cut in 1..12 {
        assert_eq!(Png::parse(&good[..good.len() - cut]).err(), Some(Error::UnexpectedEof));
    }
}

#[test]
fn parse_reports_the_first_chunk_that_fails() {
    // The first chunk has a wrong checksum, the second a bad type.
    let mut bytes = testing_png().as_bytes();
    let first = 12 + "I am the first chunk".len();
    bytes[8 + first - 1] ^= 1;
    bytes[8 + first + 4] = b'!';
    assert_eq!(Png::parse(&bytes).err(), Some(Error::CrcMismatch));
}

#[test]
fn append_chunk_puts_the_chunk_before_the_terminal_chunk() {
    let mut png = testing_png();
    png.append_chunk(chunk("TeSt", "Message"));
    assert_eq!(types(&png), ["FrSt", "miDl", "LASt", "TeSt", "IEND"]);

    let bytes = png.as_bytes();
    let new = chunk("TeSt", "Message").as_bytes();
    let before = testing_png().as_bytes();
    let split = before.len() - 12;
    assert_eq!(&bytes[..split], &before[..split]);
    assert_eq!(&bytes[split..split + new.len()], &new[..]);
    assert_eq!(&bytes[split + new.len()..], &end().as_bytes()[..]);
}

#[test]
fn append_chunk_of_the_terminal_type_keeps_the_end() {
    let mut png = Png::from_chunks(vec![end()]).unwrap();
    png.append_chunk(chunk("IEND", "not the end"));
    assert_eq!(types(&png), ["IEND", "IEND"]);
    assert_eq!(png.chunks()[0].length(), 11);
    assert_eq!(png.chunks()[1].length(), 0);
    assert!(Png::parse(&png.as_bytes()).is_ok());
}

#[test]
fn chunk_by_type_finds_the_first() {
    let mut png = testing_png();
    png.append_chunk(chunk("miDl", "again"));
    let found = png.chunk_by_type("miDl").unwrap();
    assert_eq!(found.chunk_type().to_string(), "miDl");
    assert_eq!(found.data_as_string().unwrap(), "I am another chunk");
    assert_eq!(png.chunk_by_type("FrSt").unwrap().data_as_string().unwrap(), "I am the first chunk");
    assert_eq!(png.chunk_by_type("IEND").unwrap().length(), 0);
}

#[test]
fn chunk_by_type_is_exact_about_case() {
    let png = testing_png();
    assert!(png.chunk_by_type("midl").is_none());
    assert!(png.chunk_by_type("MIDL").is_none());
    assert!(png.chunk_by_type("miDL").is_none());
}

#[test]
fn chunk_by_type_finds_nothing_for_a_text_that_is_no_type() {
    let png = testing_png();
    assert!(png.chunk_by_type("").is_none());
    assert!(png.chunk_by_type("mi1l").is_none());
    assert!(png.chunk_by_type("miDll").is_none());
    assert!(png.chunk_by_type("unknown").is_none());
}

#[test]
fn chunk_by_code_agrees_with_chunk_by_type() {
    let png = testing_png();
    let code = ChunkType::from_text("LASt").unwrap();
    assert_eq!(png.chunk_by_code(&code).unwrap().as_bytes(), chunk("LASt", "I am the last chunk").as_bytes());
    assert!(png.chunk_by_code(&ChunkType::from_text("none").unwrap()).is_none());
}

#[test]
fn remove_chunk_takes_the_first_of_the_type() {
    let mut png = testing_png();
    png.append_chunk(chunk("miDl", "again"));
    let removed = png.remove_chunk("miDl").unwrap();
    assert_eq!(removed.data_as_string().unwrap(), "I am another chunk");
    assert_eq!(types(&png), ["FrSt", "LASt", "miDl", "IEND"]);
    assert_eq!(png.chunk_by_type("miDl").unwrap().data_as_string().unwrap(), "again");
}

#[test]
fn remove_chunk_cuts_the_bytes_out() {
    let mut png = testing_png();
    let before = png.as_bytes();
    let removed = png.remove_chunk("miDl").unwrap().as_bytes();
    let after = png.as_bytes();
    let at = find(&before, &removed).unwrap();
    assert_eq!(&after[..at], &before[..at]);
    assert_eq!(&after[at..], &before[at + removed.len()..]);
    assert_eq!(find(&after, &removed), None);
    assert!(png.chunk_by_type("miDl").is_none());
}

#[test]
fn remove_chunk_of_an_absent_type_is_not_found() {
    let mut png = testing_png();
    let before = png.as_bytes();
    assert_eq!(png.remove_chunk("none").err(), Some(Error::NotFound));
    assert_eq!(png.as_bytes(), before);
    let code = ChunkType::from_text("none").unwrap();
    assert_eq!(png.remove_chunk_by_code(&code).err(), Some(Error::NotFound));
}

#[test]
fn remove_chunk_refuses_a_text_that_is_no_type() {
    let mut png = testing_png();
    let before = png.as_bytes();
    assert_eq!(png.remove_chunk("mi1l").err(), Some(Error::InvalidFormat));
    assert_eq!(png.remove_chunk("").err(), Some(Error::InvalidFormat));
    assert_eq!(png.as_bytes(), before);
}

#[test]
fn remove_chunk_never_takes_the_terminal_chunk() {
    let mut png = testing_png();
    assert_eq!(png.remove_chunk("IEND").err(), Some(Error::NotFound));
    assert_eq!(types(&png), ["FrSt", "miDl", "LASt", "IEND"]);

    let mut small = Png::from_chunks(vec![end()]).unwrap();
    assert_eq!(small.remove_chunk("IEND").err(), Some(Error::NotFound));
    assert_eq!(types(&small), ["IEND"]);
}

#[test]
fn remove_chunk_takes_an_earlier_chunk_of_the_terminal_type() {
    let mut png = Png::from_chunks(vec![chunk("IEND", "early"), end()]).unwrap();
    let removed = png.remove_chunk("IEND").unwrap();
    assert_eq!(removed.data_as_string().unwrap(), "early");
    assert_eq!(types(&png), ["IEND"]);
    assert_eq!(png.remove_chunk("IEND").err(), Some(Error::NotFound));
}

#[test]
fn a_message_survives_the_round_trip() {
    let mut png = Png::parse(&file(&[end()])).unwrap();
    png.append_chunk(chunk("ruSt", "hello"));
    let bytes = png.as_bytes();
    assert_eq!(
        bytes,
        vec![
            137, 80, 78, 71, 13, 10, 26, 10, 0, 0, 0, 5, 114, 117, 83, 116, 104, 101, 108, 108,
            111, 174, 80, 141, 111, 0, 0, 0, 0, 73, 69, 78, 68, 174, 66, 96, 130
        ]
    );
    let again = Png::parse(&bytes).unwrap();
    let found = again.chunk_by_type("ruSt").unwrap();
    assert_eq!(found.data(), b"hello");
    assert_eq!(found.data_as_string().unwrap(), "hello");
}

#[test]
fn writing_and_reading_again_changes_nothing() {
    let mut png = testing_png();
    png.append_chunk(chunk("ruSt", ""));
    png.append_chunk(Chunk::new(ChunkType::from_text("biNa").unwrap(), vec![0, 255, 137, 80]));
    let first = png.as_bytes();
    let second = Png::parse(&first).unwrap().as_bytes();
    assert_eq!(first, second);
    let third = Png::parse(&second).unwrap().as_bytes();
    assert_eq!(second, third);
}

#[test]
fn a_terminal_chunk_with_a_payload_still_ends_a_file() {
    let chunks = vec![chunk("FrSt", "x"), chunk("IEND", "tail")];
    let png = Png::parse(&file(&chunks)).unwrap();
    assert_eq!(types(&png), ["FrSt", "IEND"]);
    assert_eq!(png.as_bytes(), file(&chunks));
}
