//! Framing on a byte stream: what a frame has to offer, and what a
//! connection makes of the frames it parses and of the bytes it reads.

use vstd::prelude::*;
use vstd::string::StringExecFns;

verus! {

/// A failure of the layer below the connection.
#[derive(Debug, Clone, PartialEq, Eq)]
pub enum NetError {
    Other(crate::net::NetError),
}

/// Why no frame was parsed.
#[derive(Debug, Clone, PartialEq, Eq)]
pub enum FrameError {
    /// The bytes are no frame; the text says why.
    ParseError(String),
    /// The bytes are the beginning of a frame, and more are needed.
    Incomplete,
    /// The peer ends the conversation.
    Exit,
    Other(crate::net::NetError),
}

/// Why a connection gave no frame.
#[derive(Debug, Clone, PartialEq, Eq)]
pub enum ConnectionError {
    /// More bytes are needed for a frame.
    FrameIncomplete,
    FrameError(FrameError),
    /// Reading or writing failed; the text says how.
    IoError(String),
    /// The conversation is finished.
    Fin,
    Other(crate::net::NetError),
}

impl ConnectionError {
    /// The text of the failure, which does not tell its detail.
    pub fn message(&self) -> (r: String)
        ensures
            r@ == "ConnectionError"@,
    {
        String::from_str("ConnectionError")
    }
}

/// A frame of a protocol on a byte stream.
pub trait Frame: Sized {
    /// Tries to parse one frame from the front of `buf`. Beside the frame
    /// or the failure stands the number of bytes that were looked at and
    /// are done with.
    fn read(&self, buf: &[u8]) -> (Result<Self, FrameError>, usize);

    /// Appends the bytes of the frame to `out`.
    fn write(&self, out: &mut Vec<u8>) -> Result<(), FrameError>;
}

/// What a connection does after it tried to parse a frame.
pub enum ReadStep<F> {
    /// Hand this on to the caller.
    Done(Result<Option<F>, ConnectionError>),
    /// Read more bytes from the stream, and try again.
    ReadMore,
}

/// What a connection makes of an attempt to parse a frame: the frame, or
/// the failure of the connection that the frame's failure stands for.
pub fn settle_frame<F>(outcome: Result<F, FrameError>) -> (r: Result<Option<F>, ConnectionError>)
    ensures
        r == match outcome {
            Ok(frame) => Ok::<Option<F>, ConnectionError>(Some(frame)),
            Err(FrameError::Incomplete) => Err(ConnectionError::FrameIncomplete),
            Err(FrameError::Exit) => Err(ConnectionError::Fin),
            Err(e) => Err(ConnectionError::FrameError(e)),
        },
{
    match outcome {
        Ok(frame) => Ok(Some(frame)),
        Err(FrameError::Incomplete) => Err(ConnectionError::FrameIncomplete),
        Err(FrameError::Exit) => Err(ConnectionError::Fin),
        Err(e) => Err(ConnectionError::FrameError(e)),
    }
}

/// Drops the first `count` bytes of the buffer, or all of them where it
/// holds fewer.
pub fn advance(buffer: &mut Vec<u8>, count: usize)
    ensures
        final(buffer)@ == if count <= old(buffer)@.len() {
            old(buffer)@.skip(count as int)
        } else {
            Seq::<u8>::empty()
        },
{
    if count >= buffer.len() {
        buffer.clear();
        assert(old(buffer)@.skip(old(buffer)@.len() as int) =~= Seq::<u8>::empty());
    } else {
        let rest = buffer.split_off(count);
        *buffer = rest;
    }
}

/// Tries to parse one frame from the front of the buffer, and drops from
/// the buffer what the attempt is done with. What is left in the buffer is
/// an end of what it held.
pub fn parse_frame<F: Frame>(frame: &F, buffer: &mut Vec<u8>) -> (r: Result<
    Option<F>,
    ConnectionError,
>)
    ensures
        exists|count: int|
            0 <= count <= old(buffer)@.len() && final(buffer)@ == #[trigger] old(buffer)@.skip(
                count,
            ),
        !(r matches Err(ConnectionError::IoError(_))),
        !(r matches Ok(None)),
{
    let (outcome, used) = frame.read(buffer.as_slice());
    let r = settle_frame(outcome);
    advance(buffer, used);
    proof {
        if used <= old(buffer)@.len() {
            assert(final(buffer)@ == old(buffer)@.skip(used as int));
        } else {
            assert(final(buffer)@ =~= old(buffer)@.skip(old(buffer)@.len() as int));
        }
    }
    r
}

/// What a connection does after an attempt to parse a frame: it reads more
/// where the frame is incomplete, and hands anything else on.
pub fn after_parse<F>(parsed: Result<Option<F>, ConnectionError>) -> (r: ReadStep<F>)
    ensures
        r == match parsed {
            Err(ConnectionError::FrameIncomplete) => ReadStep::<F>::ReadMore,
            other => ReadStep::Done(other),
        },
{
    match parsed {
        Err(ConnectionError::FrameIncomplete) => ReadStep::ReadMore,
        other => ReadStep::Done(other),
    }
}

/// What a connection does after it read from the stream: a failure is
/// handed on as an I/O error, the end of the stream as no frame, and after
/// anything else it tries to parse again.
pub fn after_read<F>(read: Result<usize, String>) -> (r: Option<Result<Option<F>, ConnectionError>>)
    ensures
        r == match read {
            Ok(count) => if count == 0 {
                Some(Ok::<Option<F>, ConnectionError>(None))
            } else {
                None
            },
            Err(text) => Some(Err(ConnectionError::IoError(text))),
        },
{
    match read {
        Ok(count) => if count == 0 {
            Some(Ok(None))
        } else {
            None
        },
        Err(text) => Some(Err(ConnectionError::IoError(text))),
    }
}

/// What a connection makes of an attempt to write a frame into a buffer:
/// the bytes that the buffer then holds where the frame was written, and
/// the failure of the frame as a frame error where it was not.
pub fn settle_write(outcome: Result<(), FrameError>, written: Vec<u8>) -> (r: Result<
    Vec<u8>,
    ConnectionError,
>)
    ensures
        r == match outcome {
            Ok(()) => Ok::<Vec<u8>, ConnectionError>(written),
            Err(e) => Err(ConnectionError::FrameError(e)),
        },
{
    match outcome {
        Ok(()) => Ok(written),
        Err(e) => Err(ConnectionError::FrameError(e)),
    }
}

/// The bytes to send for a frame: what the frame writes into an empty
/// buffer. Which bytes these are, and whether the frame can be written at
/// all, is for the frame to say; a frame that cannot be written is a frame
/// error.
pub fn write_frame<F: Frame>(frame: &F) -> (r: Result<Vec<u8>, ConnectionError>)
    ensures
        r matches Err(e) ==> e is FrameError,
{
    let mut out: Vec<u8> = Vec::new();
    let outcome = frame.write(&mut out);
    settle_write(outcome, out)
}

/// How a handler ends, given how its conversation ended: a finished
/// conversation is a good end, and so is a shutdown.
pub fn settle_handler(ended: Option<Result<(), ConnectionError>>) -> (r: Result<
    (),
    ConnectionError,
>)
    ensures
        r == match ended {
            Some(Err(ConnectionError::Fin)) => Ok::<(), ConnectionError>(()),
            Some(other) => other,
            None => Ok(()),
        },
{
    match ended {
        Some(Err(ConnectionError::Fin)) => Ok(()),
        Some(other) => other,
        None => Ok(()),
    }
}

} // verus!
