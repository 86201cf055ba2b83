//! The byte stream of one connection. The session driver reads raw
//! bytes from a [`Stream`] and writes replies back to it; embedders
//! implement the trait for their socket or TLS types. [`Stdio`] is the
//! implementation over the process's standard input and output, for
//! running a session under inetd-style supervision.

use vstd::prelude::*;

verus! {

/// One connection's bytes, in and out. Nothing is assumed of an
/// implementation: the session logic states what holds for every
/// possible read result.
pub trait Stream {
    /// Reads a chunk of bytes; `None` reports end of stream or a
    /// transport error, either of which ends the session.
    fn read_some(&mut self) -> Option<Vec<u8>>;

    /// Writes the whole buffer; `false` reports a transport error.
    fn write_all_bytes(&mut self, buf: &[u8]) -> bool;

    /// Flushes buffered output; `false` reports a transport error.
    fn flush_stream(&mut self) -> bool;
}

/// Removes and returns the first newline-terminated line of the read
/// buffer: the driver reads chunks into the buffer and takes lines out.
pub fn take_line(buf: &mut Vec<u8>) -> (r: Option<Vec<u8>>)
    ensures
        match r {
            Some(l) => old(buf)@ == l@ + final(buf)@ && l@.len() >= 1 && l@[l@.len() - 1] == 10
                && (forall|j: int| 0 <= j < l@.len() - 1 ==> l@[j] != 10),
            None => final(buf)@ == old(buf)@ && (forall|j: int|
                0 <= j < final(buf)@.len() ==> final(buf)@[j] != 10),
        },
{
    let i = crate::parser::find_byte_x(buf.as_slice(), 10);
    proof {
        crate::parser::lemma_find_byte(buf@, 10);
    }
    if i < buf.len() {
        let line = crate::parser::subvec(buf.as_slice(), 0, i + 1);
        let rest = crate::parser::subvec(buf.as_slice(), i + 1, buf.len());
        let ghost before = buf@;
        *buf = rest;
        proof {
            assert(before =~= line@ + buf@);
        }
        Some(line)
    } else {
        None
    }
}

/// Standard input and output as a [`Stream`].
pub struct Stdio {
    _private: bool,
}

impl Stdio {
    /// The stream over the process's standard input and output.
    pub fn lock() -> (r: Stdio) {
        Stdio { _private: false }
    }
}

/// Relies on std::io::Read::read on standard input: a read of zero
/// bytes means end of input.
#[verifier::external_body]
fn stdin_read_some() -> Option<Vec<u8>> {
    let mut buf = [0u8; 1024];
    match std::io::Read::read(&mut std::io::stdin(), &mut buf) {
        Ok(0) => None,
        Ok(n) => Some(buf[..n].to_vec()),
        Err(_) => None,
    }
}

/// Relies on std::io::Write::write_all on standard output.
#[verifier::external_body]
fn stdout_write_all(buf: &[u8]) -> bool {
    std::io::Write::write_all(&mut std::io::stdout(), buf).is_ok()
}

/// Relies on std::io::Write::flush on standard output.
#[verifier::external_body]
fn stdout_flush() -> bool {
    std::io::Write::flush(&mut std::io::stdout()).is_ok()
}

impl Stream for Stdio {
    fn read_some(&mut self) -> Option<Vec<u8>> {
        stdin_read_some()
    }

    fn write_all_bytes(&mut self, buf: &[u8]) -> bool {
        stdout_write_all(buf)
    }

    fn flush_stream(&mut self) -> bool {
        stdout_flush()
    }
}

} // verus!
