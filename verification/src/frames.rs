//! How the viewer reads an editor's requests off the socket: one frame per
//! line, at most a mebibyte, and a request only in an envelope of the
//! current protocol version that carries a request id. Reading the socket
//! and parsing JSON stay with the caller.
use vstd::prelude::*;

use crate::export::{decimal, push_decimal};
use crate::protocol::{IpcRequest, PROTOCOL_VERSION};
use crate::text::append_text;

verus! {

/// The longest frame read, in bytes, line break included.
pub const MAX_FRAME_BYTES: usize = 1048576;

/// What a frame read off the socket comes to.
#[derive(Debug)]
pub enum FrameCheck {
    /// The editor closed the connection.
    Closed,
    /// The connection is ended after this error is sent.
    Refused(String),
    /// The frame's text, without its line break.
    Payload(Vec<u8>),
}

/// A frame without its final `\n` and a `\r` before it.
pub open spec fn frame_text(frame: Seq<u8>) -> Seq<u8> {
    let line = frame.drop_last();
    if line.len() > 0 && line.last() == 13 {
        line.drop_last()
    } else {
        line
    }
}

/// The error for a frame that is too long.
pub open spec fn too_large_text() -> Seq<char> {
    "IPC frame exceeds 1 MiB"@
}

/// The error for a frame without a line break at its end.
pub open spec fn unterminated_text() -> Seq<char> {
    "IPC frame must end with a newline"@
}

/// Checks a frame read with at most `MAX_FRAME_BYTES + 1` bytes, up to and
/// including a line break: nothing read means the editor left; a frame too
/// long, or one that ends without a line break, ends the connection with an
/// error; otherwise its text is passed on without the line break.
pub fn check_frame(frame: &Vec<u8>, bytes_read: usize) -> (r: FrameCheck)
    ensures
        match r {
            FrameCheck::Closed => bytes_read == 0,
            FrameCheck::Refused(m) => bytes_read != 0 && if frame@.len() > MAX_FRAME_BYTES {
                m@ == too_large_text()
            } else {
                m@ == unterminated_text() && (frame@.len() == 0 || frame@.last() != 10)
            },
            FrameCheck::Payload(p) => {
                &&& bytes_read != 0
                &&& frame@.len() <= MAX_FRAME_BYTES
                &&& frame@.len() > 0 && frame@.last() == 10
                &&& p@ == frame_text(frame@)
            },
        },
{
    if bytes_read == 0 {
        return FrameCheck::Closed;
    }
    if frame.len() > MAX_FRAME_BYTES {
        return FrameCheck::Refused(String::from_str("IPC frame exceeds 1 MiB"));
    }
    if frame.len() == 0 || frame[frame.len() - 1] != 10 {
        return FrameCheck::Refused(String::from_str("IPC frame must end with a newline"));
    }
    let mut end = frame.len() - 1;
    if end > 0 && frame[end - 1] == 13 {
        end = end - 1;
    }
    let mut text: Vec<u8> = Vec::new();
    let mut i: usize = 0;
    while i < end
        invariant
            i <= end <= frame@.len(),
            text@ == frame@.subrange(0, i as int),
        decreases end - i,
    {
        text.push(frame[i]);
        i = i + 1;
        assert(text@ =~= frame@.subrange(0, i as int));
    }
    assert(frame_text(frame@) =~= frame@.subrange(0, end as int));
    FrameCheck::Payload(text)
}

/// The error for an envelope of another protocol version.
pub open spec fn version_text(version: u16) -> Seq<char> {
    "unsupported IPC protocol version "@ + decimal(version as nat) + "; expected "@ + decimal(PROTOCOL_VERSION as nat)
}

/// The error for an envelope without a request id.
pub open spec fn no_request_id_text() -> Seq<char> {
    "IPC requests require a request_id"@
}

/// What is done with an envelope whose payload was read as a request, or
/// failed to be (with the parser's message): an envelope of another version
/// is answered with an error under its request id; one without a request id
/// with an error under none; a payload that is no request with an error
/// under the request id; otherwise the request goes on under its id.
pub open spec fn request_verdict(
    version: u16,
    request_id: Option<u64>,
    payload: Result<IpcRequest, Seq<char>>,
) -> Result<(u64, IpcRequest), (Option<u64>, Seq<char>)> {
    if version != PROTOCOL_VERSION {
        Err((request_id, version_text(version)))
    } else {
        match request_id {
            None => Err((None, no_request_id_text())),
            Some(id) => match payload {
                Err(e) => Err((Some(id), "invalid IPC request: "@ + e)),
                Ok(request) => Ok((id, request)),
            },
        }
    }
}

/// Checks an envelope (see `request_verdict`).
pub fn check_request(version: u16, request_id: Option<u64>, payload: Result<IpcRequest, String>) -> (r: Result<
    (u64, IpcRequest),
    (Option<u64>, String),
>)
    ensures
        match r {
            Ok(x) => request_verdict(
                version,
                request_id,
                match payload {
                    Ok(q) => Ok(q),
                    Err(e) => Err(e@),
                },
            ) == Ok::<(u64, IpcRequest), (Option<u64>, Seq<char>)>(x),
            Err((id, m)) => request_verdict(
                version,
                request_id,
                match payload {
                    Ok(q) => Ok(q),
                    Err(e) => Err(e@),
                },
            ) == Err::<(u64, IpcRequest), (Option<u64>, Seq<char>)>((id, m@)),
        },
{
    if version != PROTOCOL_VERSION {
        let mut t = String::from_str("unsupported IPC protocol version ");
        push_decimal(&mut t, version as u64);
        let mut t = append_text(t, "; expected ");
        push_decimal(&mut t, PROTOCOL_VERSION as u64);
        return Err((request_id, t));
    }
    let id = match request_id {
        None => {
            return Err((None, String::from_str("IPC requests require a request_id")));
        },
        Some(id) => id,
    };
    match payload {
        Err(e) => Err((Some(id), append_text(String::from_str("invalid IPC request: "), e.as_str()))),
        Ok(request) => Ok((id, request)),
    }
}

} // verus!
