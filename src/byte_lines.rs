//! Cutting a stream of bytes into lines.

use vstd::prelude::*;

verus! {

/// Gathers the bytes of a stream, handed over one at a time, into lines.
/// A line break ends a line and is not part of it; the bytes after the last
/// line break form a last line, where there are any.
pub struct ByteLines {
    line: Vec<u8>,
}

impl View for ByteLines {
    type V = Seq<u8>;

    /// The bytes of the line that is not finished yet.
    closed spec fn view(&self) -> Seq<u8> {
        self.line@
    }
}

impl ByteLines {
    /// Nothing read yet.
    pub fn new() -> (r: ByteLines)
        ensures
            r@ == Seq::<u8>::empty(),
    {
        ByteLines { line: Vec::new() }
    }

    /// Takes the next byte of the stream. A line break finishes the line,
    /// which is returned.
    pub fn push(&mut self, byte: u8) -> (r: Option<Vec<u8>>)
        ensures
            byte == 10u8 ==> (r matches Some(l) && l@ == old(self)@),
            byte == 10u8 ==> final(self)@ == Seq::<u8>::empty(),
            byte != 10u8 ==> r is None && final(self)@ == old(self)@.push(byte),
    {
        if byte == 10u8 {
            let mut line = Vec::new();
            std::mem::swap(&mut line, &mut self.line);
            Some(line)
        } else {
            self.line.push(byte);
            None
        }
    }

    /// At the end of the stream: the last line, unless it is empty.
    pub fn finish(self) -> (r: Option<Vec<u8>>)
        ensures
            self@.len() == 0 ==> r is None,
            self@.len() > 0 ==> (r matches Some(l) && l@ == self@),
    {
        if self.line.len() == 0 {
            None
        } else {
            Some(self.line)
        }
    }
}

} // verus!
