//! Reading a frame piece by piece.
//!
//! A `FrameReader` never touches a socket. It says how many bytes it wants
//! next, is fed exactly those, and so works its way through one frame. Who
//! owns the socket reads what the reader asks for and nothing more, so a
//! frame is never read past its end, nor past the field that spoils it.

use crate::common::{views, RecieveMessage};
use crate::wire::{args_size, failed, length_field, parse_args, parse_frame, Parsed, MAX_LEN};
use vstd::bytes::*;
use vstd::prelude::*;

verus! {

/// How far the reading of one frame has come.
pub enum Progress {
    /// Nothing is read yet: the total length comes next.
    Total,
    /// `words` are read and `left` bytes of the total are still to come; the
    /// length of the next argument comes next.
    ArgLength { words: Seq<Seq<u8>>, left: nat },
    /// As before, and the next argument is known to take `len` bytes, which
    /// come next.
    ArgBytes { words: Seq<Seq<u8>>, left: nat, len: nat },
    /// The frame is read, and these are its arguments.
    Done { words: Seq<Seq<u8>> },
    /// The frame is malformed, or a read came back short.
    Failed,
}

impl Progress {
    /// The number of bytes that the reader asks for next; none once the
    /// frame is read or has failed.
    pub open spec fn wanted(self) -> nat {
        match self {
            Progress::Total => 8,
            Progress::ArgLength { .. } => 8,
            Progress::ArgBytes { len, .. } => len,
            Progress::Done { .. } => 0,
            Progress::Failed => 0,
        }
    }

    /// What holds of every state that a reader gets into: while arguments
    /// are expected some of the total is left, and it is within `MAX_LEN`
    /// together with what was read; a payload that is waited for is not
    /// empty and not longer than `MAX_LEN`.
    pub open spec fn well_formed(self) -> bool {
        match self {
            Progress::Total => true,
            Progress::ArgLength { words, left } => 0 < left && args_size(words) + left <= MAX_LEN,
            Progress::ArgBytes { words, left, len } => {
                &&& 0 < left
                &&& args_size(words) + left <= MAX_LEN
                &&& 0 < len <= MAX_LEN
            },
            Progress::Done { words } => args_size(words) <= MAX_LEN,
            Progress::Failed => true,
        }
    }

    /// The state after the argument `arg` has come in whole: it is charged
    /// against what is left of the total, which it must not exceed.
    pub open spec fn after_arg(words: Seq<Seq<u8>>, left: nat, arg: Seq<u8>) -> Progress {
        if left < 8 + arg.len() {
            Progress::Failed
        } else if left == 8 + arg.len() {
            Progress::Done { words: words.push(arg) }
        } else {
            Progress::ArgLength { words: words.push(arg), left: (left - 8 - arg.len()) as nat }
        }
    }

    /// The state after `chunk` has been fed to a reader in this state.
    ///
    /// A chunk of another length than the reader asked for is a read that
    /// failed. A length above `MAX_LEN` fails the frame at once. An empty
    /// argument is complete with its length field.
    pub open spec fn step(self, chunk: Seq<u8>) -> Progress {
        match self {
            Progress::Done { .. } => self,
            Progress::Failed => self,
            _ => if chunk.len() != self.wanted() {
                Progress::Failed
            } else {
                match self {
                    Progress::Total => {
                        let total = length_field(chunk);
                        if total > MAX_LEN {
                            Progress::Failed
                        } else if total == 0 {
                            Progress::Done { words: Seq::empty() }
                        } else {
                            Progress::ArgLength { words: Seq::empty(), left: total as nat }
                        }
                    },
                    Progress::ArgLength { words, left } => {
                        let len = length_field(chunk);
                        if len > MAX_LEN {
                            Progress::Failed
                        } else if len == 0 {
                            Progress::after_arg(words, left, Seq::empty())
                        } else {
                            Progress::ArgBytes { words, left, len: len as nat }
                        }
                    },
                    Progress::ArgBytes { words, left, len } => Progress::after_arg(
                        words,
                        left,
                        chunk,
                    ),
                    _ => self,
                }
            },
        }
    }
}

/// `parsed`, with `words` read before it.
pub open spec fn prepend(words: Seq<Seq<u8>>, parsed: Parsed) -> Parsed {
    Parsed {
        words: match parsed.words {
            Some(more) => Some(words + more),
            None => None,
        },
        used: parsed.used,
    }
}

/// `parsed`, with `taken` bytes read before it.
pub open spec fn shift(taken: nat, parsed: Parsed) -> Parsed {
    Parsed { words: parsed.words, used: taken + parsed.used }
}

/// What a reader in state `from` gives when the stream goes on with `rest`:
/// the whole frame, or `None` where it fails, and how much of `rest` the
/// reading takes.
pub open spec fn resume(from: Progress, rest: Seq<u8>) -> Parsed {
    match from {
        Progress::Total => parse_frame(rest),
        Progress::ArgLength { words, left } => prepend(words, parse_args(rest, left)),
        Progress::ArgBytes { words, left, len } => {
            if rest.len() < len {
                failed(rest.len())
            } else if left < 8 + len {
                failed(len)
            } else {
                shift(
                    len,
                    prepend(
                        words.push(rest.take(len as int)),
                        parse_args(rest.skip(len as int), (left - 8 - len) as nat),
                    ),
                )
            }
        },
        Progress::Done { words } => Parsed { words: Some(words), used: 0 },
        Progress::Failed => failed(0),
    }
}

/// One step of a reader agrees with the wire format: where the stream holds
/// what the reader asks for, reading on after the step gives what reading on
/// before it gives; where it holds less, the frame fails and takes it all.
pub proof fn lemma_step_agrees(from: Progress, rest: Seq<u8>)
    requires
        from.well_formed(),
        from.wanted() > 0,
    ensures
        rest.len() < from.wanted() ==> resume(from, rest) == failed(rest.len()),
        rest.len() >= from.wanted() ==> {
            let chunk = rest.take(from.wanted() as int);
            &&& from.step(chunk).well_formed()
            &&& resume(from, rest) == shift(
                from.wanted(),
                resume(from.step(chunk), rest.skip(from.wanted() as int)),
            )
        },
{
    if rest.len() >= from.wanted() {
        let chunk = rest.take(from.wanted() as int);
        let after = rest.skip(from.wanted() as int);
        match from {
            Progress::Total => {
                assert(chunk.subrange(0, 8) =~= rest.subrange(0, 8));
                let total = length_field(rest);
                if 0 < total <= MAX_LEN {
                    assert(Seq::<Seq<u8>>::empty() + parse_args(after, total as nat).words->0
                        =~= parse_args(after, total as nat).words->0);
                }
            },
            Progress::ArgLength { words, left } => {
                assert(chunk.subrange(0, 8) =~= rest.subrange(0, 8));
                let len = length_field(rest);
                if len == 0 {
                    let arg = rest.subrange(8, 8);
                    assert(arg =~= Seq::<u8>::empty());
                    if left >= 8 {
                        crate::wire::lemma_args_size_push(words, arg);
                        let more = parse_args(after, (left - 8) as nat);
                        if more.words is Some {
                            assert(words + (seq![arg] + more.words->0) =~= words.push(arg)
                                + more.words->0);
                        }
                    }
                } else if len <= MAX_LEN {
                    if after.len() >= len && left >= 8 + len {
                        let arg = rest.subrange(8, 8 + len);
                        assert(after.take(len) =~= arg);
                        assert(after.skip(len) =~= rest.skip(8 + len));
                        let more = parse_args(rest.skip(8 + len), (left - 8 - len) as nat);
                        if more.words is Some {
                            assert(words + (seq![arg] + more.words->0) =~= words.push(arg)
                                + more.words->0);
                        }
                    }
                }
            },
            Progress::ArgBytes { words, left, len } => {
                if left >= 8 + len {
                    crate::wire::lemma_args_size_push(words, chunk);
                    if left == 8 + len {
                        assert(words.push(chunk) + Seq::<Seq<u8>>::empty() =~= words.push(chunk));
                    }
                }
            },
            _ => {},
        }
    }
}

/// A reader that meets a length above `MAX_LEN`, be it the total or that of
/// an argument, gives up on the spot, and asks for no more bytes.
pub proof fn law_reader_stops_at_oversized(from: Progress, chunk: Seq<u8>)
    requires
        from is Total || from is ArgLength,
        chunk.len() == 8,
        length_field(chunk) > MAX_LEN,
    ensures
        from.step(chunk) is Failed,
        from.step(chunk).wanted() == 0,
{
}

/// The state in which a reader ends that starts in `from` and is fed from
/// `bytes`, chunk by chunk, what it asks for. A stream that ends before the
/// reader has what it asked for is a read that failed.
pub open spec fn run(from: Progress, bytes: Seq<u8>) -> Progress
    decreases bytes.len(),
{
    if from.wanted() == 0 {
        from
    } else if bytes.len() < from.wanted() {
        Progress::Failed
    } else {
        run(from.step(bytes.take(from.wanted() as int)), bytes.skip(from.wanted() as int))
    }
}

/// A reader that is fed from a stream ends with the frame that the stream
/// starts with, and fails where the stream starts with none.
proof fn lemma_run_agrees(from: Progress, bytes: Seq<u8>)
    requires
        from.well_formed(),
    ensures
        match resume(from, bytes).words {
            Some(words) => run(from, bytes) == (Progress::Done { words }),
            None => run(from, bytes) is Failed,
        },
    decreases bytes.len(),
{
    if from.wanted() > 0 {
        lemma_step_agrees(from, bytes);
        if bytes.len() >= from.wanted() {
            lemma_run_agrees(
                from.step(bytes.take(from.wanted() as int)),
                bytes.skip(from.wanted() as int),
            );
        }
    }
}

/// Reading piece by piece reads the wire format: a reader that starts afresh
/// and is fed from a stream what it asks for ends with exactly the frame
/// that `parse_frame` finds at the front of the stream, and fails exactly
/// where `parse_frame` finds none.
pub proof fn law_reader_reads_the_frame(bytes: Seq<u8>)
    ensures
        match parse_frame(bytes).words {
            Some(words) => run(Progress::Total, bytes) == (Progress::Done { words }),
            None => run(Progress::Total, bytes) is Failed,
        },
{
    lemma_run_agrees(Progress::Total, bytes);
}

/// Where a reader stands, without the arguments read so far.
enum Phase {
    Total,
    ArgLength,
    ArgBytes,
    Done,
    Failed,
}

/// Reads one frame from the chunks that it is fed.
pub struct FrameReader {
    phase: Phase,
    /// What is left of the total length while arguments are read.
    left: u64,
    /// The length of the payload that is waited for.
    len: usize,
    /// The arguments read so far.
    words: Vec<Vec<u8>>,
}

impl View for FrameReader {
    type V = Progress;

    closed spec fn view(&self) -> Progress {
        match self.phase {
            Phase::Total => Progress::Total,
            Phase::ArgLength => Progress::ArgLength {
                words: views(self.words@),
                left: self.left as nat,
            },
            Phase::ArgBytes => Progress::ArgBytes {
                words: views(self.words@),
                left: self.left as nat,
                len: self.len as nat,
            },
            Phase::Done => Progress::Done { words: views(self.words@) },
            Phase::Failed => Progress::Failed,
        }
    }
}

impl FrameReader {
    #[verifier::type_invariant]
    spec fn well_formed(&self) -> bool {
        &&& self@.well_formed()
        &&& self.phase is Total ==> self.words@.len() == 0
    }

    /// A reader at the start of a frame.
    pub fn new() -> (reader: FrameReader)
        ensures
            reader@ == Progress::Total,
    {
        FrameReader { phase: Phase::Total, left: 0, len: 0, words: Vec::new() }
    }

    /// A reader that has given up on its frame.
    fn failed() -> (reader: FrameReader)
        ensures
            reader@ == Progress::Failed,
    {
        FrameReader { phase: Phase::Failed, left: 0, len: 0, words: Vec::new() }
    }

    /// The number of bytes to feed next. It is zero once the frame is read
    /// or has failed, and only then.
    pub fn wanted(&self) -> (n: usize)
        ensures
            n == self@.wanted(),
            self@.well_formed(),
    {
        proof {
            use_type_invariant(self);
        }
        match self.phase {
            Phase::Total => 8,
            Phase::ArgLength => 8,
            Phase::ArgBytes => self.len,
            Phase::Done => 0,
            Phase::Failed => 0,
        }
    }

    /// True once the frame is malformed or a read came back short.
    pub fn has_failed(&self) -> (failed: bool)
        ensures
            failed == (self@ is Failed),
    {
        match self.phase {
            Phase::Failed => true,
            _ => false,
        }
    }

    /// The reader after the argument `arg` has come in whole.
    fn after_arg(words: Vec<Vec<u8>>, left: u64, arg: Vec<u8>) -> (reader: FrameReader)
        requires
            0 < left,
            args_size(views(words@)) + left <= MAX_LEN,
        ensures
            reader@ == Progress::after_arg(views(words@), left as nat, arg@),
    {
        let mut words = words;
        if left < 8 || left - 8 < arg.len() as u64 {
            FrameReader::failed()
        } else {
            let rest: u64 = left - 8 - arg.len() as u64;
            proof {
                crate::wire::lemma_args_size_push(views(words@), arg@);
                assert(views(words@.push(arg)) =~= views(words@).push(arg@));
            }
            words.push(arg);
            if rest == 0 {
                FrameReader { phase: Phase::Done, left: 0, len: 0, words }
            } else {
                FrameReader { phase: Phase::ArgLength, left: rest, len: 0, words }
            }
        }
    }

    /// Feeds the reader the bytes that it asked for, and gives the reader
    /// for what comes next. A chunk of another length counts as a read that
    /// failed.
    pub fn feed(self, chunk: Vec<u8>) -> (next: FrameReader)
        ensures
            next@ == self@.step(chunk@),
    {
        proof {
            use_type_invariant(&self);
        }
        match self.phase {
            Phase::Done => self,
            Phase::Failed => self,
            Phase::Total => {
                if chunk.len() != 8 {
                    FrameReader::failed()
                } else {
                    let total = u64_from_le_bytes(chunk.as_slice());
                    proof {
                        assert(chunk@.subrange(0, 8) =~= chunk@);
                        assert(views(self.words@) =~= Seq::<Seq<u8>>::empty());
                    }
                    if total > MAX_LEN {
                        FrameReader::failed()
                    } else if total == 0 {
                        FrameReader { phase: Phase::Done, left: 0, len: 0, words: self.words }
                    } else {
                        FrameReader {
                            phase: Phase::ArgLength,
                            left: total,
                            len: 0,
                            words: self.words,
                        }
                    }
                }
            },
            Phase::ArgLength => {
                if chunk.len() != 8 {
                    FrameReader::failed()
                } else {
                    let len = u64_from_le_bytes(chunk.as_slice());
                    proof {
                        assert(chunk@.subrange(0, 8) =~= chunk@);
                    }
                    if len > MAX_LEN {
                        FrameReader::failed()
                    } else if len == 0 {
                        FrameReader::after_arg(self.words, self.left, Vec::new())
                    } else {
                        FrameReader {
                            phase: Phase::ArgBytes,
                            left: self.left,
                            len: len as usize,
                            words: self.words,
                        }
                    }
                }
            },
            Phase::ArgBytes => {
                if chunk.len() != self.len {
                    FrameReader::failed()
                } else {
                    FrameReader::after_arg(self.words, self.left, chunk)
                }
            },
        }
    }

    /// The frame, once it is read; `None` while it is not, and where it has
    /// failed.
    pub fn finish(self) -> (msg: Option<RecieveMessage>)
        ensures
            match msg {
                Some(m) => self@ == (Progress::Done { words: m@ }),
                None => !(self@ is Done),
            },
    {
        proof {
            use_type_invariant(&self);
        }
        match self.phase {
            Phase::Done => Some(RecieveMessage::from_words(self.words)),
            _ => None,
        }
    }
}

} // verus!
