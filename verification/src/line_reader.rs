//! Lines that arrive byte by byte, with a limit on their length.

use vstd::prelude::*;
use vstd::utf8::{encode_utf8, valid_utf8};

verus! {

/// `String::from_utf8`: succeeds exactly on well-formed utf-8, and the text
/// then encodes back to the bytes.
#[verifier::external_body]
pub(crate) fn decode_utf8(bytes: Vec<u8>) -> (text: Option<String>)
    ensures
        match text {
            Some(text) => valid_utf8(bytes@) && encode_utf8(text@) == bytes@,
            None => !valid_utf8(bytes@),
        },
{
    String::from_utf8(bytes).ok()
}

/// What one more byte makes of a line.
#[derive(Clone, Debug, PartialEq, Eq)]
pub enum LineStep {
    /// The line goes on.
    More,
    /// The line is complete, its line break included.
    Line(String),
    /// The line is complete and is not utf-8.
    NotUtf8,
    /// The line is longer than it may be.
    TooLong,
}

/// Whether bytes are within a limit and hold no line break.
pub open spec fn is_within_a_line(bytes: Seq<u8>, limit: nat) -> bool {
    &&& bytes.len() <= limit
    &&& forall|i: int| 0 <= i < bytes.len() ==> #[trigger] bytes[i] != 10
}

/// What one more byte makes of the bytes of a line so far.
pub open spec fn takes_byte(
    taken: Seq<u8>,
    limit: nat,
    byte: u8,
    after: Seq<u8>,
    step: LineStep,
) -> bool {
    &&& step is More ==> after == taken.push(byte)
    &&& step is More <==> byte != 10 && taken.len() < limit
    &&& step is TooLong <==> byte != 10 && taken.len() >= limit
    &&& step is NotUtf8 <==> byte == 10 && !valid_utf8(taken.push(byte))
    &&& step matches LineStep::Line(line) ==> encode_utf8(line@) == taken.push(byte)
}

/// A line in progress.
#[derive(Debug)]
pub struct LineReader {
    bytes: Vec<u8>,
    max_bytes: usize,
}

impl LineReader {
    pub closed spec fn taken(&self) -> Seq<u8> {
        self.bytes@
    }

    pub closed spec fn limit(&self) -> nat {
        self.max_bytes as nat
    }

    /// The bytes so far are within the limit and hold no line break.
    #[verifier::type_invariant]
    spec fn keeps(self) -> bool {
        is_within_a_line(self.bytes@, self.max_bytes as nat)
    }

    pub fn new(max_bytes: usize) -> (reader: LineReader)
        ensures
            reader.taken() == Seq::<u8>::empty(),
            reader.limit() == max_bytes,
    {
        let reader = LineReader { bytes: Vec::new(), max_bytes };
        assert(reader.taken() =~= Seq::<u8>::empty());
        reader
    }

    /// Take in one byte. A line break ends the line even where the line just
    /// reached its limit; without one, a line past the limit is refused.
    pub fn absorb(&mut self, byte: u8) -> (step: LineStep)
        ensures
            is_within_a_line(final(self).taken(), final(self).limit()),
            final(self).limit() == old(self).limit(),
            takes_byte(old(self).taken(), old(self).limit(), byte, final(self).taken(), step),
    {
        proof {
            use_type_invariant(&*self);
        }
        if byte != 10 && self.bytes.len() >= self.max_bytes {
            return LineStep::TooLong;
        }
        let mut bytes: Vec<u8> = Vec::new();
        std::mem::swap(&mut bytes, &mut self.bytes);
        bytes.push(byte);
        if byte == 10 {
            return match decode_utf8(bytes) {
                Some(line) => LineStep::Line(line),
                None => LineStep::NotUtf8,
            };
        }
        self.bytes = bytes;
        LineStep::More
    }
}

/// A line goes on up to its limit and no further; a line break ends it wherever
/// it stands, also right behind a line that is as long as it may be, and belongs
/// to it.
pub proof fn law_where_a_line_is_cut(
    taken: Seq<u8>,
    limit: nat,
    byte: u8,
    after: Seq<u8>,
    step: LineStep,
)
    requires
        takes_byte(taken, limit, byte, after, step),
    ensures
        byte != 10 && taken.len() < limit ==> step is More && after == taken.push(byte),
        byte != 10 && taken.len() == limit ==> step is TooLong,
        byte == 10 && valid_utf8(taken.push(10)) ==> (step matches LineStep::Line(line)
            && encode_utf8(line@) == taken.push(10)),
        byte == 10 && !valid_utf8(taken.push(10)) ==> step is NotUtf8,
{
}

} // verus!
