//! Reading a bounded amount from a source, one read at a time.

use vstd::prelude::*;

verus! {

/// What reading up to a limit came to.
#[derive(Clone, Debug, PartialEq, Eq)]
pub enum LimitedRead {
    Empty,
    Complete(Vec<u8>),
    Oversized,
}

/// The largest single read.
pub const READ_CHUNK: usize = 8192;

/// What one read brought.
#[derive(Clone, Debug, PartialEq, Eq)]
pub enum ReadEvent {
    /// These bytes; none at the end of the source.
    Data(Vec<u8>),
    /// The read was interrupted, and is tried again.
    Interrupted,
}

/// What a read makes of the bytes so far: an interruption changes nothing, the
/// end of the source is the outcome, and a byte beyond the limit is too much.
pub open spec fn takes_read(
    taken: Seq<u8>,
    limit: nat,
    event: ReadEvent,
    after: Seq<u8>,
    outcome: Option<LimitedRead>,
) -> bool {
    match event {
        ReadEvent::Interrupted => outcome is None && after == taken,
        ReadEvent::Data(data) => if data@.len() == 0 {
            if taken.len() == 0 {
                outcome matches Some(LimitedRead::Empty)
            } else {
                outcome matches Some(LimitedRead::Complete(bytes)) && bytes@ == taken
            }
        } else if taken.len() == limit {
            outcome matches Some(LimitedRead::Oversized)
        } else {
            outcome is None && after == taken + data@
        },
    }
}

/// A bounded read in progress.
#[derive(Debug)]
pub struct LimitedReader {
    bytes: Vec<u8>,
    max_bytes: usize,
}

impl LimitedReader {
    pub closed spec fn taken(&self) -> Seq<u8> {
        self.bytes@
    }

    pub closed spec fn limit(&self) -> nat {
        self.max_bytes as nat
    }

    /// No reader takes more than its limit.
    #[verifier::type_invariant]
    spec fn keeps(self) -> bool {
        self.bytes@.len() <= self.max_bytes
    }

    pub fn new(max_bytes: usize) -> (reader: LimitedReader)
        ensures
            reader.taken() == Seq::<u8>::empty(),
            reader.limit() == max_bytes,
    {
        let reader = LimitedReader { bytes: Vec::new(), max_bytes };
        assert(reader.taken() =~= Seq::<u8>::empty());
        reader
    }

    /// How many bytes to ask for next: as many as still fit, and one more
    /// where the limit is reached, to tell a source that ends there from one
    /// that goes on.
    pub fn wanted(&self) -> (count: usize)
        ensures
            self.taken().len() <= self.limit(),
            1 <= count <= READ_CHUNK,
            count == (if self.taken().len() == self.limit() {
                1
            } else if self.limit() - self.taken().len() < READ_CHUNK {
                self.limit() - self.taken().len()
            } else {
                READ_CHUNK as int
            }),
    {
        proof {
            use_type_invariant(self);
        }
        let remaining: usize = self.max_bytes - self.bytes.len();
        if remaining == 0 {
            1
        } else if remaining < READ_CHUNK {
            remaining
        } else {
            READ_CHUNK
        }
    }

    /// Take in what a read brought. `Some` is the outcome; `None` asks for
    /// another read.
    pub fn absorb(&mut self, event: ReadEvent) -> (outcome: Option<LimitedRead>)
        requires
            event matches ReadEvent::Data(data) ==> data@.len() <= (if old(self).taken().len()
                == old(self).limit() {
                1
            } else {
                old(self).limit() - old(self).taken().len()
            }),
        ensures
            final(self).taken().len() <= final(self).limit(),
            final(self).limit() == old(self).limit(),
            takes_read(
                old(self).taken(),
                old(self).limit(),
                event,
                final(self).taken(),
                outcome,
            ),
    {
        proof {
            use_type_invariant(&*self);
        }
        match event {
            ReadEvent::Interrupted => None,
            ReadEvent::Data(data) => {
                if data.len() == 0 {
                    if self.bytes.len() == 0 {
                        return Some(LimitedRead::Empty);
                    }
                    let mut bytes: Vec<u8> = Vec::new();
                    std::mem::swap(&mut bytes, &mut self.bytes);
                    return Some(LimitedRead::Complete(bytes));
                }
                if self.bytes.len() == self.max_bytes {
                    return Some(LimitedRead::Oversized);
                }
                let ghost before = self.bytes@;
                let mut bytes: Vec<u8> = Vec::new();
                std::mem::swap(&mut bytes, &mut self.bytes);
                let mut data = data;
                bytes.append(&mut data);
                self.bytes = bytes;
                None
            },
        }
    }
}

/// What reading a whole source to a limit comes to.
pub open spec fn limited_outcome(source: Seq<u8>, limit: nat, outcome: LimitedRead) -> bool {
    if source.len() > limit {
        outcome is Oversized
    } else if source.len() == 0 {
        outcome is Empty
    } else {
        outcome matches LimitedRead::Complete(bytes) && bytes@ == source
    }
}

/// Read a source that is already in memory, up to a limit: exactly the bytes
/// of a source that fits, nothing of one that does not.
pub fn read_limited(source: &[u8], max_bytes: usize) -> (outcome: LimitedRead)
    ensures
        limited_outcome(source@, max_bytes as nat, outcome),
{
    let mut reader = LimitedReader::new(max_bytes);
    let mut at: usize = 0;
    loop
        invariant
            reader.limit() == max_bytes,
            at <= source@.len(),
            reader.taken() == source@.take(at as int),
        decreases source@.len() - at,
    {
        let wanted: usize = reader.wanted();
        let remaining: usize = source.len() - at;
        let count: usize = if wanted < remaining {
            wanted
        } else {
            remaining
        };
        let mut chunk: Vec<u8> = Vec::new();
        chunk.extend_from_slice(vstd::slice::slice_subrange(source, at, at + count));
        proof {
            assert(chunk@ =~= source@.subrange(at as int, at + count));
            assert(source@.take(at as int) + chunk@ =~= source@.take(at + count));
            if remaining == 0 {
                assert(source@.take(at as int) =~= source@);
            }
        }
        if let Some(outcome) = reader.absorb(ReadEvent::Data(chunk)) {
            return outcome;
        }
        at += count;
    }
}

/// A source up to the limit is read whole, an empty one is told as empty, and
/// of one that goes on beyond the limit nothing is.
pub proof fn law_how_much_is_read(source: &[u8], max_bytes: usize, outcome: LimitedRead)
    requires
        call_ensures(read_limited, (source, max_bytes), outcome),
    ensures
        outcome is Oversized <==> source@.len() > max_bytes,
        outcome is Empty <==> source@.len() == 0,
        0 < source@.len() <= max_bytes ==> (outcome matches LimitedRead::Complete(bytes) && bytes@
            == source@),
{
}

/// A read asks for no more than 8192 bytes and no more than still fit, and for
/// one byte where nothing does.
pub proof fn law_how_much_is_asked_for(reader: LimitedReader, count: usize)
    requires
        call_ensures(LimitedReader::wanted, (&reader,), count),
    ensures
        reader.taken().len() == reader.limit() ==> count == 1,
        reader.taken().len() < reader.limit() <= reader.taken().len() + 8192 ==> count
            == reader.limit() - reader.taken().len(),
        reader.limit() > reader.taken().len() + 8192 ==> count == 8192,
{
}

/// A read goes on until the source ends or shows that it goes on beyond the
/// limit, and an interruption costs nothing of what was read.
pub proof fn law_when_a_bounded_read_ends(
    taken: Seq<u8>,
    limit: nat,
    event: ReadEvent,
    after: Seq<u8>,
    outcome: Option<LimitedRead>,
)
    requires
        takes_read(taken, limit, event, after, outcome),
    ensures
        event is Interrupted ==> outcome is None && after == taken,
        event matches ReadEvent::Data(data) ==> {
            &&& data@.len() > 0 && taken.len() < limit ==> outcome is None && after == taken
                + data@
            &&& data@.len() > 0 && taken.len() == limit ==> outcome == Some(LimitedRead::Oversized)
            &&& data@.len() == 0 && taken.len() == 0 ==> outcome == Some(LimitedRead::Empty)
            &&& data@.len() == 0 && taken.len() > 0 ==> (outcome matches Some(
                LimitedRead::Complete(bytes),
            ) && bytes@ == taken)
        },
{
}

} // verus!
