//! A character puller over a byte reader, with a push-back stack.
//!
//! The expression parser above it is sketched, deliberately empty; what
//! stands here is the character supply it would draw from.

use vstd::prelude::*;
use crate::lexer::is_whitespace;
use crate::lexer::spec_whitespace;

verus! {

/// Relies on std::io::Read::read with a one-byte buffer: at most one byte
/// comes back, and none on end of input or on an error.  Nothing is assumed
/// of which byte arrives.
#[verifier::external_body]
fn read_one_byte<T: std::io::Read>(reader: &mut T) -> (r: Option<u8>)
{
    let mut one_char_buffer = [0u8; 1];
    match reader.read(&mut one_char_buffer) {
        Ok(0) => None,
        Ok(_) => Some(one_char_buffer[0]),
        Err(_) => None,
    }
}

/// The character supply: bytes pulled from a reader, behind a stack of
/// characters pushed back by the caller.
pub struct Parser {
    unget_stack: Vec<char>,
}

impl Parser {
    /// The pushed-back characters, last to be yielded first.
    pub closed spec fn stack(self) -> Seq<char> {
        self.unget_stack@
    }

    /// A fresh supply with nothing pushed back.
    pub fn new() -> (r: Self)
        ensures
            r.stack() == Seq::<char>::empty(),
    {
        Self { unget_stack: Vec::new() }
    }

    /// Pushes a character back; it is yielded before anything further is
    /// read.
    pub fn unget(&mut self, c: char)
        ensures
            final(self).stack() == old(self).stack().push(c),
    {
        self.unget_stack.push(c);
    }

    /// Yields the next character, from the push-back stack first and then
    /// from the reader, skipping whitespace when asked to; `None` when the
    /// reader is exhausted.  The stack shrinks by exactly the characters
    /// yielded or skipped, newest first.
    pub fn get_char<T: std::io::Read>(&mut self, reader: &mut T, skip_whitespace: bool) -> (r:
        Option<char>)
        ensures
            final(self).stack().len() <= old(self).stack().len(),
            final(self).stack() == old(self).stack().take(final(self).stack().len() as int),
            skip_whitespace ==> (r matches Some(c) ==> !spec_whitespace(c)),
            (!skip_whitespace && old(self).stack().len() > 0) ==> (r matches Some(c) && c == old(
                self,
            ).stack().last() && final(self).stack() == old(self).stack().drop_last()),
    {
        let ghost s0 = self.stack();
        loop
            invariant_except_break
                self.stack().len() <= s0.len(),
                self.stack() == s0.take(self.stack().len() as int),
                s0 == old(self).stack(),
                !skip_whitespace ==> self.stack() == s0,
            ensures
                self.stack().len() == 0,
                s0 == old(self).stack(),
                !skip_whitespace ==> s0.len() == 0,
            decreases self.stack().len(),
        {
            let popped = self.unget_stack.pop();
            match popped {
                Some(e) => {
                    if !is_whitespace(e) || !skip_whitespace {
                        proof {
                            assert(self.stack() =~= s0.take(self.stack().len() as int));
                        }
                        return Some(e);
                    }
                },
                None => {
                    break;
                },
            }
            proof {
                assert(self.stack() =~= s0.take(self.stack().len() as int));
            }
        }
        // A loop here must shrink something; the budget stands far past any
        // input a reader could ever supply.
        let mut budget: u64 = u64::MAX;
        loop
            invariant
                self.stack().len() == 0,
                s0 == old(self).stack(),
                self.stack() == s0.take(0),
                skip_whitespace || s0.len() == 0,
            decreases budget,
        {
            if budget == 0 {
                return None;
            }
            budget = budget - 1;
            let b = match read_one_byte(reader) {
                None => {
                    return None;
                },
                Some(b) => b,
            };
            let ch = b as char;
            if !is_whitespace(ch) || !skip_whitespace {
                return Some(ch);
            }
        }
    }
}

} // verus!
