use vstd::prelude::*;
use vstd::utf8::encode_utf8;

use crate::port::{port_from_digits, port_of_digits};

verus! {

/// The name of the file, in the platform's temporary directory, where the
/// sidecar writes its port.
pub const PORT_FILE_NAME: &'static str = "tauri-sidecar.port";

/// Why no port could be read from the port file.
#[derive(Clone, Copy, Debug, PartialEq, Eq, Structural)]
pub enum PortFileError {
    /// There is no port file.
    NotFound,
    /// The port file exists but could not be read as text.
    Unreadable,
    /// The content is not a decimal number, or not a valid port.
    InvalidFormat,
}

/// Unicode's White_Space characters, which `str::trim` removes.
pub open spec fn is_white_space(c: char) -> bool {
    let u = c as u32;
    (9 <= u <= 13) || u == 32 || u == 0x85 || u == 0xa0 || u == 0x1680 || (0x2000 <= u
        <= 0x200a) || u == 0x2028 || u == 0x2029 || u == 0x202f || u == 0x205f || u == 0x3000
}

/// Drops the white space at the start of a text.
pub open spec fn trim_start(s: Seq<char>) -> Seq<char>
    decreases s.len(),
{
    if s.len() > 0 && is_white_space(s[0]) {
        trim_start(s.drop_first())
    } else {
        s
    }
}

/// Drops the white space at the end of a text.
pub open spec fn trim_end(s: Seq<char>) -> Seq<char>
    decreases s.len(),
{
    if s.len() > 0 && is_white_space(s.last()) {
        trim_end(s.drop_last())
    } else {
        s
    }
}

/// A text without the white space at either end.
pub open spec fn trimmed(s: Seq<char>) -> Seq<char> {
    trim_end(trim_start(s))
}

/// Relies on `str::trim`: the text with leading and trailing Unicode white
/// space removed.
#[verifier::external_body]
fn trim_text(s: &str) -> (r: &str)
    ensures
        r@ == trimmed(s@),
{
    s.trim()
}

/// The port that a trimmed file text stands for: an optional `+` and a run of
/// decimal digits whose value is a valid port.
pub open spec fn text_port(t: Seq<u8>) -> Option<u16> {
    if t.len() > 0 && t[0] == 43 {
        port_of_digits(t.drop_first())
    } else {
        port_of_digits(t)
    }
}

/// What the port file's content gives: its port, or why it gives none.
pub open spec fn file_content_result(content: Seq<char>) -> Result<u16, PortFileError> {
    match text_port(encode_utf8(trimmed(content))) {
        Some(p) => Ok(p),
        None => Err(PortFileError::InvalidFormat),
    }
}

/// Reads a port out of already trimmed text.
pub fn port_from_text(t: &[u8]) -> (r: Option<u16>)
    ensures
        r == text_port(t@),
{
    if t.len() > 0 && t[0] == 43 {
        let (_, rest) = t.split_at(1);
        assert(rest@ =~= t@.drop_first());
        port_from_digits(rest)
    } else {
        port_from_digits(t)
    }
}

/// Reads the port out of the port file's content, ignoring white space
/// around it.
pub fn port_from_file_content(content: &str) -> (r: Result<u16, PortFileError>)
    ensures
        r == file_content_result(content@),
{
    let t = trim_text(content);
    match port_from_text(t.as_bytes()) {
        Some(p) => Ok(p),
        None => Err(PortFileError::InvalidFormat),
    }
}

/// What a read of the port file gives: when the file could not be read, the
/// reason; otherwise what its content gives.
pub fn port_from_file_read(read: Result<&str, PortFileError>) -> (r: Result<u16, PortFileError>)
    ensures
        r == match read {
            Ok(content) => file_content_result(content@),
            Err(e) => Err(e),
        },
{
    match read {
        Ok(content) => port_from_file_content(content),
        Err(e) => Err(e),
    }
}

} // verus!
