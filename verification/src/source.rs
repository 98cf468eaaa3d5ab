//! The byte source: a slice that shrinks from the front as it is read.

use vstd::prelude::*;
use vstd::slice::slice_subrange;
use crate::error::Error;

verus! {

/// The error with which std's readers report that the input ended before a
/// read was complete: `std::io::Error::from` on
/// `std::io::ErrorKind::UnexpectedEof`. An `std::io::Error` is opaque here,
/// so nothing is stated of it.
#[verifier::external_body]
fn unexpected_eof() -> std::io::Error {
    std::io::Error::from(std::io::ErrorKind::UnexpectedEof)
}

/// Takes the next `count` bytes off the front of `reader`. Where fewer are
/// left, nothing is taken and the source failure is returned.
pub fn take<'a>(reader: &mut &'a [u8], count: usize) -> (taken: Result<&'a [u8], Error>)
    ensures
        match taken {
            Ok(bytes) => {
                &&& count <= old(reader)@.len()
                &&& bytes@ == old(reader)@.take(count as int)
                &&& final(reader)@ == old(reader)@.skip(count as int)
            },
            Err(error) => {
                &&& count > old(reader)@.len()
                &&& error is IO
                &&& final(reader)@ == old(reader)@
            },
        },
{
    let all: &'a [u8] = *reader;
    if count <= all.len() {
        *reader = slice_subrange(all, count, all.len());
        Ok(slice_subrange(all, 0, count))
    } else {
        Err(Error::IO(unexpected_eof()))
    }
}

} // verus!
