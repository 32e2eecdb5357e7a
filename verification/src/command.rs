//! The commands of the command line, worked out on bytes: what each of them
//! makes of the contents of a file, and what is then left to do with the
//! result.
use crate::chunk::{Chunk, ChunkView};
use crate::chunk_type::{is_type_code, ChunkType};
use crate::container::{
    all_valid, container_bytes, ends_with_terminator, first_of_type,
    lemma_bytes_of_parsed_container, lemma_first_of_type_unique, lemma_parse_container_bytes,
    none_of_type, parse_container,
};
use crate::error::Error;
use crate::png::Png;
use std::path::PathBuf;
use vstd::prelude::*;
use vstd::slice::slice_to_vec;
use vstd::string::StringSliceAdditionalSpecFns;
use vstd::utf8::{
    decode_utf8, encode_utf8, encode_utf8_decode_utf8, encode_utf8_valid_utf8, valid_utf8,
};

verus! {

/// `std::path::PathBuf`. A path is carried from the arguments to the action
/// as it is; nothing is known of what it holds.
#[verifier::external_type_specification]
#[verifier::external_body]
pub struct ExPathBuf(PathBuf);

/// The arguments of the program.
pub struct Cli {
    /// A name to operate on, if one was given.
    pub name: Option<String>,
    /// The command, if one was given.
    pub command: Option<Commands>,
}

/// The commands, each with its arguments.
pub enum Commands {
    /// Put a message into a file, in a chunk of the given type.
    Encode { file_path: PathBuf, chunk_type: String, message: String, output_file: Option<PathBuf> },
    /// Show the message that a file holds in a chunk of the given type.
    Decode { file_path: PathBuf, chunk_type: String },
    /// Take the chunk of the given type out of a file.
    Remove { file_path: PathBuf, chunk_type: String },
    /// Show a summary of a file.
    Print { file_path: PathBuf },
}

/// What is left to do once a command has been worked out.
pub enum Action {
    /// Replace the contents of the file at `path` with `contents`. Where
    /// `create` holds, the file is made if it is not there.
    Write { path: PathBuf, contents: Vec<u8>, create: bool },
    /// Print `text`.
    Print { text: String },
}

/// An `Action`, with its bytes and text as sequences.
pub enum ActionView {
    Write { path: PathBuf, contents: Seq<u8>, create: bool },
    Print { text: Seq<char> },
}

impl View for Action {
    type V = ActionView;

    open spec fn view(&self) -> ActionView {
        match *self {
            Action::Write { path, contents, create } => ActionView::Write {
                path,
                contents: contents@,
                create,
            },
            Action::Print { text } => ActionView::Print { text: text@ },
        }
    }
}

/// The file `input` with a chunk of type `code` and payload `payload` put
/// directly before its terminal chunk. `input` is read first, and its error
/// is the one reported; then `code` must be a type code.
pub open spec fn encoded(input: Seq<u8>, code: Seq<u8>, payload: Seq<u8>) -> Result<
    Seq<u8>,
    Error,
> {
    match parse_container(input) {
        Err(e) => Err(e),
        Ok(chunks) => if is_type_code(code) {
            Ok(
                container_bytes(
                    chunks.insert(chunks.len() - 1, ChunkView { chunk_type: code, data: payload }),
                ),
            )
        } else {
            Err(Error::InvalidFormat)
        },
    }
}

/// The payload, as text, of the first chunk of type `code` in the file
/// `input`. Where `code` is no type code, or no chunk has it, there is
/// nothing to be found; where the payload is not valid UTF-8 it has no text.
pub open spec fn decoded(input: Seq<u8>, code: Seq<u8>) -> Result<Seq<char>, Error> {
    match parse_container(input) {
        Err(e) => Err(e),
        Ok(chunks) => if !is_type_code(code) || none_of_type(chunks, code) {
            Err(Error::NotFound)
        } else {
            let i = choose|i: int| first_of_type(chunks, code, i);
            if valid_utf8(chunks[i].data) {
                Ok(decode_utf8(chunks[i].data))
            } else {
                Err(Error::EncodingError)
            }
        },
    }
}

/// The file `input` without the first of the chunks before its terminal
/// chunk that has the type `code`.
pub open spec fn removed(input: Seq<u8>, code: Seq<u8>) -> Result<Seq<u8>, Error> {
    match parse_container(input) {
        Err(e) => Err(e),
        Ok(chunks) => if !is_type_code(code) {
            Err(Error::InvalidFormat)
        } else if none_of_type(chunks.drop_last(), code) {
            Err(Error::NotFound)
        } else {
            Ok(
                container_bytes(
                    chunks.remove(choose|i: int| first_of_type(chunks.drop_last(), code, i)),
                ),
            )
        },
    }
}

/// What the summary of a file says.
pub open spec fn summary() -> Seq<char> {
    seq!['0', '0', '0']
}

/// What a command on a file with the contents `input` leaves to do.
pub open spec fn outcome(command: Commands, input: Seq<u8>) -> Result<ActionView, Error> {
    match command {
        Commands::Encode { file_path, chunk_type, message, output_file } => match encoded(
            input,
            encode_utf8(chunk_type@),
            encode_utf8(message@),
        ) {
            Ok(contents) => Ok(
                match output_file {
                    Some(path) => ActionView::Write { path, contents, create: true },
                    None => ActionView::Write { path: file_path, contents, create: false },
                },
            ),
            Err(e) => Err(e),
        },
        Commands::Decode { file_path, chunk_type } => match decoded(
            input,
            encode_utf8(chunk_type@),
        ) {
            Ok(text) => Ok(ActionView::Print { text }),
            Err(e) => Err(e),
        },
        Commands::Remove { file_path, chunk_type } => match removed(
            input,
            encode_utf8(chunk_type@),
        ) {
            Ok(contents) => Ok(ActionView::Write { path: file_path, contents, create: false }),
            Err(e) => Err(e),
        },
        Commands::Print { file_path } => Ok(ActionView::Print { text: summary() }),
    }
}

/// Whether a command can be worked out: the message of `Encode` must fit
/// the length field of a chunk.
pub open spec fn fits(command: Commands) -> bool {
    command matches Commands::Encode { message, .. } ==> encode_utf8(message@).len() <= u32::MAX
}

/// What `encoded` makes of a file that reads: a file that reads again, as the
/// chunks of the first with the new chunk before the last.
proof fn lemma_encoded_reads(input: Seq<u8>, code: Seq<u8>, payload: Seq<u8>)
    requires
        parse_container(input) is Ok,
        is_type_code(code),
        payload.len() <= u32::MAX,
    ensures
        ({
            let chunks = parse_container(input)->Ok_0;
            let chunk = ChunkView { chunk_type: code, data: payload };
            let after = chunks.insert(chunks.len() - 1, chunk);
            &&& chunks.len() > 0
            &&& container_bytes(chunks) == input
            &&& encoded(input, code, payload) == Ok::<Seq<u8>, Error>(container_bytes(after))
            &&& parse_container(container_bytes(after)) == Ok::<Seq<ChunkView>, Error>(after)
        }),
{
    let chunks = parse_container(input)->Ok_0;
    let chunk = ChunkView { chunk_type: code, data: payload };
    let at = chunks.len() - 1;
    let after = chunks.insert(at, chunk);
    lemma_bytes_of_parsed_container(input);
    assert(all_valid(after)) by {
        assert forall|i: int| 0 <= i < after.len() implies (#[trigger] after[i]).valid() by {
            if i < at {
                assert(after[i] == chunks[i]);
            } else if i > at {
                assert(after[i] == chunks[i - 1]);
            }
        }
    }
    assert(after.last() == chunks.last());
    lemma_parse_container_bytes(after);
}

/// A message that was put into a file is the message that is read from it:
/// where the file reads and holds no chunk of the type before its terminal
/// chunk, decoding what `encoded` gives for the type and a text gives the
/// text.
pub proof fn lemma_decode_encoded(input: Seq<u8>, code: Seq<u8>, message: Seq<char>)
    requires
        parse_container(input) is Ok,
        is_type_code(code),
        encode_utf8(message).len() <= u32::MAX,
        none_of_type(parse_container(input)->Ok_0.drop_last(), code),
    ensures
        encoded(input, code, encode_utf8(message)) is Ok,
        decoded(encoded(input, code, encode_utf8(message))->Ok_0, code) == Ok::<Seq<char>, Error>(
            message,
        ),
{
    let payload = encode_utf8(message);
    let chunks = parse_container(input)->Ok_0;
    let chunk = ChunkView { chunk_type: code, data: payload };
    let at = chunks.len() - 1;
    let after = chunks.insert(at, chunk);
    lemma_encoded_reads(input, code, payload);
    assert(first_of_type(after, code, at)) by {
        assert forall|j: int| 0 <= j < at implies (#[trigger] after[j]).chunk_type != code by {
            assert(after[j] == chunks.drop_last()[j]);
        }
    }
    lemma_first_of_type_unique(after, code, at, choose|i: int| first_of_type(after, code, i));
    encode_utf8_valid_utf8(message);
    encode_utf8_decode_utf8(message);
}

/// Taking out what was put in gives the file back, byte for byte: where the
/// file reads and holds no chunk of the type before its terminal chunk,
/// removing the type from what `encoded` gives is the file.
pub proof fn lemma_remove_encoded(input: Seq<u8>, code: Seq<u8>, payload: Seq<u8>)
    requires
        parse_container(input) is Ok,
        is_type_code(code),
        payload.len() <= u32::MAX,
        none_of_type(parse_container(input)->Ok_0.drop_last(), code),
    ensures
        encoded(input, code, payload) is Ok,
        removed(encoded(input, code, payload)->Ok_0, code) == Ok::<Seq<u8>, Error>(input),
{
    let chunks = parse_container(input)->Ok_0;
    let chunk = ChunkView { chunk_type: code, data: payload };
    let at = chunks.len() - 1;
    let after = chunks.insert(at, chunk);
    lemma_encoded_reads(input, code, payload);
    let body = after.drop_last();
    assert(first_of_type(body, code, at)) by {
        assert(body[at] == chunk);
        assert forall|j: int| 0 <= j < at implies (#[trigger] body[j]).chunk_type != code by {
            assert(body[j] == chunks.drop_last()[j]);
        }
    }
    lemma_first_of_type_unique(body, code, at, choose|i: int| first_of_type(body, code, i));
    assert(after.remove(at) =~= chunks);
}

/// Puts `message` into the file `input`, in a new chunk of type `chunk_type`
/// directly before the terminal chunk, and returns the new file.
pub fn encode(input: &[u8], chunk_type: &str, message: &str) -> (res: Result<Vec<u8>, Error>)
    requires
        message.spec_bytes().len() <= u32::MAX,
    ensures
        match res {
            Ok(bytes) => encoded(input@, chunk_type.spec_bytes(), message.spec_bytes()) == Ok::<
                Seq<u8>,
                Error,
            >(bytes@),
            Err(e) => encoded(input@, chunk_type.spec_bytes(), message.spec_bytes()) == Err::<
                Seq<u8>,
                Error,
            >(e),
        },
{
    let mut png = match Png::parse(input) {
        Ok(png) => png,
        Err(e) => {
            return Err(e);
        },
    };
    let code = match ChunkType::from_text(chunk_type) {
        Ok(code) => code,
        Err(e) => {
            return Err(e);
        },
    };
    let chunk = Chunk::new(code, slice_to_vec(message.as_bytes()));
    png.append_chunk(chunk);
    Ok(png.as_bytes())
}

/// Finds the first chunk of type `chunk_type` in the file `input` and
/// returns its payload as text.
pub fn decode(input: &[u8], chunk_type: &str) -> (res: Result<String, Error>)
    ensures
        match res {
            Ok(text) => decoded(input@, chunk_type.spec_bytes()) == Ok::<Seq<char>, Error>(text@),
            Err(e) => decoded(input@, chunk_type.spec_bytes()) == Err::<Seq<char>, Error>(e),
        },
{
    let png = match Png::parse(input) {
        Ok(png) => png,
        Err(e) => {
            return Err(e);
        },
    };
    match png.chunk_by_type(chunk_type) {
        None => Err(Error::NotFound),
        Some(chunk) => {
            proof {
                let code = chunk_type.spec_bytes();
                let i = choose|i: int| first_of_type(png@, code, i) && chunk@ == png@[i];
                let j = choose|j: int| first_of_type(png@, code, j);
                lemma_first_of_type_unique(png@, code, i, j);
            }
            chunk.data_as_string()
        },
    }
}

/// Takes the first chunk of type `chunk_type` out of the file `input` and
/// returns the new file. The terminal chunk is not taken.
pub fn remove(input: &[u8], chunk_type: &str) -> (res: Result<Vec<u8>, Error>)
    ensures
        match res {
            Ok(bytes) => removed(input@, chunk_type.spec_bytes()) == Ok::<Seq<u8>, Error>(bytes@),
            Err(e) => removed(input@, chunk_type.spec_bytes()) == Err::<Seq<u8>, Error>(e),
        },
{
    let mut png = match Png::parse(input) {
        Ok(png) => png,
        Err(e) => {
            return Err(e);
        },
    };
    let ghost before = png@;
    match png.remove_chunk(chunk_type) {
        Err(e) => Err(e),
        Ok(chunk) => {
            proof {
                let code = chunk_type.spec_bytes();
                let i = choose|i: int|
                    first_of_type(before.drop_last(), code, i) && chunk@ == before[i] && png@
                        == before.remove(i);
                let j = choose|j: int| first_of_type(before.drop_last(), code, j);
                lemma_first_of_type_unique(before.drop_last(), code, i, j);
            }
            Ok(png.as_bytes())
        },
    }
}

impl Commands {
    /// The file whose contents the command works on. `Print` reads none.
    pub fn input_path(&self) -> (path: Option<&PathBuf>)
        ensures
            path == match *self {
                Commands::Encode { file_path, .. } => Some(&file_path),
                Commands::Decode { file_path, .. } => Some(&file_path),
                Commands::Remove { file_path, .. } => Some(&file_path),
                Commands::Print { .. } => None,
            },
    {
        match self {
            Commands::Encode { file_path, .. } => Some(file_path),
            Commands::Decode { file_path, .. } => Some(file_path),
            Commands::Remove { file_path, .. } => Some(file_path),
            Commands::Print { .. } => None,
        }
    }
}

/// Works out the command of `cli` on `input`, the contents of the file that
/// the command reads, and says what is left to do: `Encode` and `Remove`
/// leave a file to write, `Decode` and `Print` a text to print.
pub fn handle(cli: Cli, input: &[u8]) -> (res: Result<Action, Error>)
    requires
        cli.command is Some,
        fits(cli.command->Some_0),
    ensures
        match res {
            Ok(action) => outcome(cli.command->Some_0, input@) == Ok::<ActionView, Error>(action@),
            Err(e) => outcome(cli.command->Some_0, input@) == Err::<ActionView, Error>(e),
        },
{
    match cli.command {
        Some(Commands::Encode { file_path, chunk_type, message, output_file }) => {
            match encode(input, chunk_type.as_str(), message.as_str()) {
                Ok(contents) => Ok(
                    match output_file {
                        Some(path) => Action::Write { path, contents, create: true },
                        None => Action::Write { path: file_path, contents, create: false },
                    },
                ),
                Err(e) => Err(e),
            }
        },
        Some(Commands::Decode { file_path, chunk_type }) => {
            match decode(input, chunk_type.as_str()) {
                Ok(text) => Ok(Action::Print { text }),
                Err(e) => Err(e),
            }
        },
        Some(Commands::Remove { file_path, chunk_type }) => {
            match remove(input, chunk_type.as_str()) {
                Ok(contents) => Ok(Action::Write { path: file_path, contents, create: false }),
                Err(e) => Err(e),
            }
        },
        Some(Commands::Print { file_path }) => {
            let text = "000".to_owned();
            proof {
                reveal_strlit("000");
                assert(text@ =~= summary());
            }
            Ok(Action::Print { text })
        },
        None => unreached(),
    }
}

} // verus!
