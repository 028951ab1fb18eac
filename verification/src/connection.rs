//! One connection of the chat protocol, without its transport.
//!
//! A `Connection` holds the bytes that have arrived and not yet been read as
//! commands, and what is known of the transport under it. Whoever owns the
//! transport hands over what it reads (`feed`), says when the stream ends
//! (`close`) or breaks (`fail`), and writes out the frames that
//! `send_command` returns, each in one write.
//!
//! Lines are split and joined by `tokio_util`'s `LinesCodec`: a line ends
//! with a line feed, and a carriage return just before it is dropped.

use crate::command::{decoded, encoded, lemma_decode_encode, Command, CommandView};
use tokio_util::bytes::BytesMut;
use tokio_util::codec::{Decoder, Encoder, LinesCodec, LinesCodecError};
use vstd::prelude::*;
use vstd::utf8::*;

verus! {

/// The byte that ends a line.
pub const LINE_FEED: u8 = 0x0a;

/// The byte that may stand before the line feed, and is then no part of the
/// line.
pub const CARRIAGE_RETURN: u8 = 0x0d;

/// The error type of `tokio_util`'s `LinesCodec`.
#[verifier::external_type_specification]
#[verifier::external_body]
pub struct ExLinesCodecError(LinesCodecError);

/// The number of bytes before the first line feed in `bytes`; their number,
/// where there is none.
pub open spec fn line_length(bytes: Seq<u8>) -> nat
    decreases bytes.len(),
{
    if bytes.len() == 0 || bytes[0] == LINE_FEED {
        0
    } else {
        1 + line_length(bytes.drop_first())
    }
}

/// A line without the carriage return that may end it.
pub open spec fn without_carriage_return(line: Seq<u8>) -> Seq<u8> {
    if line.len() > 0 && line.last() == CARRIAGE_RETURN {
        line.drop_last()
    } else {
        line
    }
}

/// `LinesCodec::decode` of `tokio_util`, on a codec fresh from
/// `LinesCodec::new`, which sets no limit on a line's length. Where the
/// buffer holds no line feed, nothing is taken from it and there is no line
/// yet. Otherwise the bytes up to and including the first line feed leave the
/// buffer; without the line feed, and without a carriage return before it,
/// they are the line, which is returned as text where it is valid UTF-8 and
/// is an error where it is not.
#[verifier::external_body]
fn decode_line(buffer: &mut Vec<u8>) -> (line: Result<Option<String>, LinesCodecError>)
    ensures
        line_length(old(buffer)@) == old(buffer)@.len() ==> {
            &&& line matches Ok(None)
            &&& final(buffer)@ == old(buffer)@
        },
        line_length(old(buffer)@) < old(buffer)@.len() ==> {
            let n = line_length(old(buffer)@) as int;
            let text = without_carriage_return(old(buffer)@.take(n));
            &&& final(buffer)@ == old(buffer)@.skip(n + 1)
            &&& valid_utf8(text) ==> (line matches Ok(Some(s)) && s@ == decode_utf8(text))
            &&& !valid_utf8(text) ==> line is Err
        },
{
    let mut bytes = BytesMut::from(buffer.as_slice());
    let line = LinesCodec::new().decode(&mut bytes);
    *buffer = bytes.to_vec();
    line
}

/// `LinesCodec::encode` of `tokio_util`, into an empty buffer: the bytes of
/// the line, then one line feed. It has no error to give.
#[verifier::external_body]
fn encode_line(line: &str) -> (frame: Vec<u8>)
    ensures
        frame@ == encode_utf8(line@).push(LINE_FEED),
{
    let mut bytes = BytesMut::new();
    let _ = LinesCodec::new().encode(line, &mut bytes);
    bytes.to_vec()
}

/// What a connection knows of the transport under it.
#[derive(Debug, Clone, Copy, PartialEq, Eq, Structural)]
pub enum Transport {
    /// More bytes may arrive.
    Open,
    /// The peer has closed the stream: no more bytes will arrive.
    Closed,
    /// A read or a write has failed: the connection is dead.
    Failed,
}

/// Why a connection has no line to give, or no frame.
#[derive(Debug, Clone, Copy, PartialEq, Eq, Structural)]
pub enum ConnectionError {
    /// What was asked for has not arrived in full and the transport is
    /// open: hand over more bytes and ask again.
    WouldBlock,
    /// The transport has failed.
    Transport,
}

/// What one complete line of the stream holds.
#[derive(Debug, PartialEq, Eq)]
pub enum Line {
    /// The command that the line stands for.
    Command(Command),
    /// Text that stands for no command, or bytes that are no text at all.
    Noise,
}

impl View for Line {
    type V = Option<CommandView>;

    open spec fn view(&self) -> Option<CommandView> {
        match self {
            Line::Command(command) => Some(command@),
            Line::Noise => None,
        }
    }
}

/// What a connection without a complete line has to say, which depends on
/// the transport alone: open, more bytes are needed; closed, the stream has
/// ended; failed, the connection is dead.
pub open spec fn out_of_lines<T>(transport: Transport) -> Result<Option<T>, ConnectionError> {
    match transport {
        Transport::Open => Err(ConnectionError::WouldBlock),
        Transport::Closed => Ok(None),
        Transport::Failed => Err(ConnectionError::Transport),
    }
}

/// The command that one line stands for, the line taken without its line
/// feed. A line that is no valid UTF-8 stands for none.
pub open spec fn line_command(line: Seq<u8>) -> Option<CommandView> {
    let text = without_carriage_return(line);
    if valid_utf8(text) {
        decoded(decode_utf8(text))
    } else {
        None
    }
}

/// The first complete line of `bytes`, as the command it stands for, if
/// any, and the bytes that follow the line. There is none before the first
/// line feed has arrived.
pub open spec fn first_line(bytes: Seq<u8>) -> Option<(Option<CommandView>, Seq<u8>)> {
    let n = line_length(bytes) as int;
    if n >= bytes.len() {
        None
    } else {
        Some((line_command(bytes.take(n)), bytes.skip(n + 1)))
    }
}

/// The first command among the complete lines of `bytes`, and what stays
/// buffered once it is read: lines that stand for no command are passed
/// over, and so is everything where no complete line stands for one, but
/// for the bytes after the last line feed.
pub open spec fn first_command(bytes: Seq<u8>) -> (Option<CommandView>, Seq<u8>)
    decreases bytes.len(),
{
    match first_line(bytes) {
        None => (None, bytes),
        Some((Some(command), rest)) => (Some(command), rest),
        Some((None, rest)) => first_command(rest),
    }
}

/// The bytes that carry a command: its line as UTF-8, then a line feed.
pub open spec fn frame(command: CommandView) -> Seq<u8> {
    encode_utf8(encoded(command)).push(LINE_FEED)
}

/// What sending `command` gives on a transport in the given state: the
/// frame to write, or the error of a failed transport.
pub open spec fn sent(transport: Transport, command: CommandView) -> Result<
    Seq<u8>,
    ConnectionError,
> {
    if transport == Transport::Failed {
        Err(ConnectionError::Transport)
    } else {
        Ok(frame(command))
    }
}

/// The bytes of a frame that was to be sent, or the error in their place.
pub open spec fn bytes_of(sent: Result<Vec<u8>, ConnectionError>) -> Result<
    Seq<u8>,
    ConnectionError,
> {
    match sent {
        Ok(bytes) => Ok(bytes@),
        Err(error) => Err(error),
    }
}

/// A connection as contracts see it.
pub struct ConnectionView {
    /// The bytes that have arrived and have not been read as commands.
    pub buffered: Seq<u8>,
    /// What is known of the transport.
    pub transport: Transport,
}

/// The framing state of one connection.
#[derive(Debug)]
pub struct Connection {
    buffer: Vec<u8>,
    transport: Transport,
}

impl View for Connection {
    type V = ConnectionView;

    closed spec fn view(&self) -> ConnectionView {
        ConnectionView { buffered: self.buffer@, transport: self.transport }
    }
}

impl Connection {
    /// A connection on which nothing has arrived yet.
    pub fn new() -> (connection: Self)
        ensures
            connection@.buffered == Seq::<u8>::empty(),
            connection@.transport == Transport::Open,
    {
        Connection { buffer: Vec::new(), transport: Transport::Open }
    }

    /// Takes in bytes that the transport has read.
    pub fn feed(&mut self, bytes: &[u8])
        ensures
            final(self)@.buffered == old(self)@.buffered + bytes@,
            final(self)@.transport == old(self)@.transport,
    {
        self.buffer.extend_from_slice(bytes);
    }

    /// Notes that the peer has closed the stream. A failed transport stays
    /// failed.
    pub fn close(&mut self)
        ensures
            final(self)@.buffered == old(self)@.buffered,
            final(self)@.transport == (if old(self)@.transport == Transport::Failed {
                Transport::Failed
            } else {
                Transport::Closed
            }),
    {
        if self.transport != Transport::Failed {
            self.transport = Transport::Closed;
        }
    }

    /// Notes that a read or a write on the transport has failed.
    pub fn fail(&mut self)
        ensures
            final(self)@.buffered == old(self)@.buffered,
            final(self)@.transport == Transport::Failed,
    {
        self.transport = Transport::Failed;
    }

    /// What is known of the transport.
    pub fn transport(&self) -> (transport: Transport)
        ensures
            transport == self@.transport,
    {
        self.transport
    }

    /// The frame to write for `command`: its line and a line feed, to go out
    /// in one write. On a failed transport there is nothing to write to.
    /// The payload is not looked at: one that holds a line feed goes out as
    /// it is and arrives as more than one line (see `fits_one_line`).
    pub fn send_command(&self, command: Command) -> (framed: Result<Vec<u8>, ConnectionError>)
        ensures
            bytes_of(framed) == sent(self@.transport, command@),
    {
        if self.transport == Transport::Failed {
            return Err(ConnectionError::Transport);
        }
        let line = command.encode();
        Ok(encode_line(line.as_str()))
    }

    /// Takes the next complete line from what has arrived, whatever it
    /// holds. Without a complete line nothing is taken, and the answer
    /// depends on the transport: open, more bytes are needed; closed, the
    /// stream has ended (`Ok(None)`), whatever part of a line was left;
    /// failed, the connection is dead.
    pub fn read_line(&mut self) -> (read: Result<Option<Line>, ConnectionError>)
        ensures
            final(self)@.transport == old(self)@.transport,
            match first_line(old(self)@.buffered) {
                Some((command, rest)) => {
                    &&& final(self)@.buffered == rest
                    &&& read matches Ok(Some(line))
                    &&& line@ == command
                },
                None => {
                    &&& final(self)@.buffered == old(self)@.buffered
                    &&& read == out_of_lines::<Line>(old(self)@.transport)
                },
            },
    {
        proof {
            lemma_line_length(self.buffer@);
        }
        match decode_line(&mut self.buffer) {
            Ok(Some(text)) => {
                match Command::parse(text.as_str()) {
                    Some(command) => Ok(Some(Line::Command(command))),
                    None => Ok(Some(Line::Noise)),
                }
            },
            Ok(None) => {
                match self.transport {
                    Transport::Open => Err(ConnectionError::WouldBlock),
                    Transport::Closed => Ok(None),
                    Transport::Failed => Err(ConnectionError::Transport),
                }
            },
            Err(_) => Ok(Some(Line::Noise)),
        }
    }

    /// Reads the next command from what has arrived. Lines that stand for no
    /// command are passed over in silence. Where no complete line stands for
    /// a command, the answer depends on the transport as in `read_line`.
    pub fn read_command(&mut self) -> (read: Result<Option<Command>, ConnectionError>)
        ensures
            final(self)@.buffered == first_command(old(self)@.buffered).1,
            final(self)@.transport == old(self)@.transport,
            match first_command(old(self)@.buffered).0 {
                Some(command) => (read matches Ok(Some(c)) && c@ == command),
                None => read == out_of_lines::<Command>(old(self)@.transport),
            },
    {
        loop
            invariant
                first_command(self.buffer@) == first_command(old(self).buffer@),
                self.transport == old(self).transport,
            decreases self.buffer@.len(),
        {
            match self.read_line() {
                Ok(Some(Line::Command(command))) => {
                    return Ok(Some(command));
                },
                Ok(Some(Line::Noise)) => {},
                Ok(None) => {
                    return Ok(None);
                },
                Err(error) => {
                    return Err(error);
                },
            }
        }
    }
}

/// Reading a command uses up bytes, and reading nothing adds none.
pub proof fn lemma_first_command_shortens(bytes: Seq<u8>)
    ensures
        first_command(bytes).1.len() <= bytes.len(),
        first_command(bytes).0 is Some ==> first_command(bytes).1.len() < bytes.len(),
    decreases bytes.len(),
{
    let n = line_length(bytes) as int;
    lemma_line_length(bytes);
    if n < bytes.len() {
        lemma_first_command_shortens(bytes.skip(n + 1));
    }
}

/// How the stream is cut into reads does not matter. A command that was
/// read stays the same when more bytes arrive behind it, and where none
/// could be read yet, what was kept and what arrives read together as the
/// whole would have.
pub proof fn lemma_first_command_resumes(bytes: Seq<u8>, more: Seq<u8>)
    ensures
        first_line(bytes) matches Some((command, rest)) ==> first_line(bytes + more) == Some(
            (command, rest + more),
        ),
        first_command(bytes).0 is Some ==> first_command(bytes + more) == (
            first_command(bytes).0,
            first_command(bytes).1 + more,
        ),
        first_command(bytes).0 is None ==> first_command(bytes + more) == first_command(
            first_command(bytes).1 + more,
        ),
    decreases bytes.len(),
{
    let n = line_length(bytes) as int;
    lemma_line_length(bytes);
    if n < bytes.len() {
        lemma_line_length_is(bytes + more, n);
        assert((bytes + more).take(n) =~= bytes.take(n));
        assert((bytes + more).skip(n + 1) =~= bytes.skip(n + 1) + more);
        if line_command(bytes.take(n)) is None {
            lemma_first_command_resumes(bytes.skip(n + 1), more);
        }
    }
}

/// Whether a command fits the wire as one line and comes back whole: its
/// payload holds no line feed, and does not end with a carriage return,
/// which the reader would take for a part of the line ending.
pub open spec fn fits_one_line(command: CommandView) -> bool {
    let payload = command.payload();
    &&& !payload.contains('\n')
    &&& payload.len() > 0 ==> payload.last() != '\r'
}

/// Reading undoes sending: where a command fits one line, its frame is one
/// line, which ends with the frame, and with whatever bytes follow it the
/// frame reads back as that command and leaves those bytes buffered.
pub proof fn lemma_read_frame(command: CommandView, rest: Seq<u8>)
    requires
        fits_one_line(command),
    ensures
        line_length(frame(command)) + 1 == frame(command).len(),
        first_line(frame(command) + rest) == Some((Some(command), rest)),
        first_command(frame(command) + rest) == (Some(command), rest),
{
    let line = encoded(command);
    let text = encode_utf8(line);
    let bytes = frame(command) + rest;
    let n = text.len() as int;
    reveal_strlit("leave");
    reveal_strlit("username_taken");
    reveal_strlit("join");
    reveal_strlit("send");
    assert(!line.contains('\n') && line.len() > 0 && line.last() != '\r') by {
        match command {
            CommandView::Join(username) => {
                lemma_word_then_payload("join"@.push(' '), username);
            },
            CommandView::SendMessage(message) => {
                lemma_word_then_payload("send"@.push(' '), message);
            },
            CommandView::Leave => {
                lemma_word_then_payload("leave"@, Seq::empty());
            },
            CommandView::UsernameTaken => {
                lemma_word_then_payload("username_taken"@, Seq::empty());
            },
        }
    }
    lemma_ascii_byte_of_text(line, '\n', LINE_FEED);
    lemma_ascii_byte_of_text(line, '\r', CARRIAGE_RETURN);
    assert(bytes[n] == LINE_FEED);
    assert forall|i: int| 0 <= i < n implies bytes[i] != LINE_FEED by {
        assert(bytes[i] == text[i]);
    }
    lemma_line_length_is(bytes, n);
    lemma_line_length_is(frame(command), n);
    assert(bytes.take(n) =~= text);
    assert(bytes.skip(n + 1) =~= rest);
    encode_utf8_valid_utf8(line);
    encode_utf8_decode_utf8(line);
    lemma_decode_encode(command);
}

/// A word of the protocol followed by a payload that fits one line is a
/// line without a line feed that does not end with a carriage return.
proof fn lemma_word_then_payload(word: Seq<char>, payload: Seq<char>)
    requires
        word.len() > 0,
        !word.contains('\n'),
        word.last() != '\r',
        !payload.contains('\n'),
        payload.len() > 0 ==> payload.last() != '\r',
    ensures
        !(word + payload).contains('\n'),
        (word + payload).len() > 0,
        (word + payload).last() != '\r',
{
    let line = word + payload;
    if line.contains('\n') {
        let i = line.index_of('\n');
        assert(i < word.len() ==> word[i] == '\n');
    }
}

/// The bytes of one character in UTF-8: a character below 128 is one byte,
/// itself; every byte of any other character is 128 or more.
proof fn lemma_scalar_bytes(scalar: u32)
    ensures
        encode_scalar(scalar).len() > 0,
        scalar < 0x80 ==> encode_scalar(scalar) == seq![scalar as u8] && scalar as u8 == scalar,
        scalar >= 0x80 ==> forall|i: int|
            0 <= i < encode_scalar(scalar).len() ==> #[trigger] encode_scalar(scalar)[i] >= 0x80,
{
    let s = scalar;
    if s < 0x80 {
        assert((s & 0x7F) as u8 == s as u8 && s as u8 == s) by (bit_vector)
            requires
                s < 0x80,
        ;
    } else {
        assert(0xC0u8 | (((s >> 6) & 0x1F) as u8) >= 0x80) by (bit_vector);
        assert(0xE0u8 | (((s >> 12) & 0x0F) as u8) >= 0x80) by (bit_vector);
        assert(0xF0u8 | (((s >> 18) & 0x7) as u8) >= 0x80) by (bit_vector);
        assert(0x80u8 | ((s & 0x3F) as u8) >= 0x80) by (bit_vector);
        assert(0x80u8 | (((s >> 6) & 0x3F) as u8) >= 0x80) by (bit_vector);
        assert(0x80u8 | (((s >> 12) & 0x3F) as u8) >= 0x80) by (bit_vector);
    }
}

/// Where a text does not hold the character `c`, a character below 128,
/// its UTF-8 bytes do not hold `byte`, the byte of `c`; and where a text
/// does not end with `c`, its bytes do not end with that byte.
proof fn lemma_ascii_byte_of_text(text: Seq<char>, c: char, byte: u8)
    requires
        byte < 0x80,
        c as u32 == byte,
    ensures
        text.len() > 0 ==> encode_utf8(text).len() > 0,
        !text.contains(c) ==> !encode_utf8(text).contains(byte),
        text.len() > 0 && text.last() != c ==> encode_utf8(text).last() != byte,
    decreases text.len(),
{
    if text.len() > 0 {
        let scalar = text[0] as u32;
        let first = encode_scalar(scalar);
        let rest = text.drop_first();
        let bytes = encode_utf8(text);
        char_is_scalar(text[0]);
        lemma_scalar_bytes(scalar);
        lemma_ascii_byte_of_text(rest, c, byte);
        assert(bytes == first + encode_utf8(rest));
        if text[0] != c {
            assert(!first.contains(byte)) by {
                if first.contains(byte) {
                    let i = first.index_of(byte);
                    assert(first[i] == byte);
                    char_u32_cast(text[0], scalar);
                    char_u32_cast(c, scalar);
                }
            }
        }
        if !text.contains(c) {
            assert(text[0] != c);
            assert(!rest.contains(c)) by {
                if rest.contains(c) {
                    let i = rest.index_of(c);
                    assert(text[i + 1] == c);
                }
            }
            if bytes.contains(byte) {
                let i = bytes.index_of(byte);
                if i < first.len() {
                    assert(first[i] == byte);
                } else {
                    assert(encode_utf8(rest)[i - first.len()] == byte);
                }
            }
        }
        if text.last() != c {
            if rest.len() > 0 {
                assert(rest.last() == text.last());
                assert(bytes.last() == encode_utf8(rest).last());
            } else {
                assert(bytes =~= first);
                assert(first.contains(bytes.last()));
            }
        }
    }
}

/// The bytes before the first line feed are as many as its index.
proof fn lemma_line_length_is(bytes: Seq<u8>, n: int)
    requires
        0 <= n < bytes.len(),
        bytes[n] == LINE_FEED,
        forall|i: int| 0 <= i < n ==> bytes[i] != LINE_FEED,
    ensures
        line_length(bytes) == n,
    decreases n,
{
    if n > 0 {
        let rest = bytes.drop_first();
        assert forall|i: int| 0 <= i < n - 1 implies rest[i] != LINE_FEED by {
            assert(rest[i] == bytes[i + 1]);
        }
        lemma_line_length_is(rest, n - 1);
    }
}

/// `line_length` counts the bytes before the first line feed: it stays
/// within the sequence, no byte before it is a line feed, and the byte at
/// it, where there is one, is.
pub proof fn lemma_line_length(bytes: Seq<u8>)
    ensures
        line_length(bytes) <= bytes.len(),
        forall|i: int| 0 <= i < line_length(bytes) ==> bytes[i] != LINE_FEED,
        line_length(bytes) < bytes.len() ==> bytes[line_length(bytes) as int] == LINE_FEED,
    decreases bytes.len(),
{
    if bytes.len() == 0 || bytes[0] == LINE_FEED {
    } else {
        let rest = bytes.drop_first();
        lemma_line_length(rest);
        assert forall|i: int| 0 <= i < line_length(bytes) implies bytes[i] != LINE_FEED by {
            if i > 0 {
                assert(bytes[i] == rest[i - 1]);
            }
        }
        if line_length(bytes) < bytes.len() {
            assert(bytes[line_length(bytes) as int] == rest[line_length(rest) as int]);
        }
    }
}

} // verus!
