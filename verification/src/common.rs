//! Messages as both sides of a conversation build and read them.

use crate::reader::{lemma_step_agrees, resume, shift, FrameReader};
use crate::stream::ByteStream;
use crate::wire::{
    args_size, encode_args, encode_frame, fits, lemma_args_size_push, lemma_args_size_split,
    lemma_encode_args_push, parse_frame, MAX_LEN,
};
use vstd::bytes::*;
use vstd::prelude::*;
use vstd::slice::slice_subrange;
use vstd::utf8::encode_utf8;

verus! {

/// The keyword `NICK`, in ASCII.
pub const NICK_WORD: [u8; 4] = [0x4e, 0x49, 0x43, 0x4b];

/// The keyword `MSG`, in ASCII.
pub const MSG_WORD: [u8; 3] = [0x4d, 0x53, 0x47];

/// The keyword `FAIL`, in ASCII: what stands for an action that is not known.
pub const FAIL_WORD: [u8; 4] = [0x46, 0x41, 0x49, 0x4c];

/// What a message asks for. It is the first argument of every frame.
#[derive(Clone, Copy, Debug, PartialEq, Eq, Structural)]
pub enum Action {
    /// The sender announces its display name.
    NICK,
    /// The sender says something to everybody.
    MSG,
    /// Anything else.
    UNKNOWN,
}

impl Action {
    /// The action that a first argument stands for: `NICK` and `MSG` for
    /// exactly their keywords, `UNKNOWN` for every other byte string.
    pub open spec fn parse(word: Seq<u8>) -> Action {
        if word == NICK_WORD@ {
            Action::NICK
        } else if word == MSG_WORD@ {
            Action::MSG
        } else {
            Action::UNKNOWN
        }
    }

    /// The keyword that stands for an action on the wire.
    pub open spec fn word(self) -> Seq<u8> {
        match self {
            Action::NICK => NICK_WORD@,
            Action::MSG => MSG_WORD@,
            Action::UNKNOWN => FAIL_WORD@,
        }
    }

    /// Classifies the first argument of a frame. Never fails: what is not a
    /// keyword is `UNKNOWN`.
    pub fn new(to_parse: &[u8]) -> (action: Action)
        ensures
            action == Action::parse(to_parse@),
    {
        if to_parse.len() == 4 && to_parse[0] == NICK_WORD[0] && to_parse[1] == NICK_WORD[1]
            && to_parse[2] == NICK_WORD[2] && to_parse[3] == NICK_WORD[3] {
            assert(to_parse@ =~= NICK_WORD@);
            Action::NICK
        } else if to_parse.len() == 3 && to_parse[0] == MSG_WORD[0] && to_parse[1] == MSG_WORD[1]
            && to_parse[2] == MSG_WORD[2] {
            assert(to_parse@ =~= MSG_WORD@);
            Action::MSG
        } else {
            Action::UNKNOWN
        }
    }

    /// The keyword of an action; `UNKNOWN` is written as `FAIL`.
    pub fn to_bytes(self) -> (bytes: &'static [u8])
        ensures
            bytes@ == self.word(),
    {
        match self {
            Action::NICK => &NICK_WORD,
            Action::MSG => &MSG_WORD,
            Action::UNKNOWN => &FAIL_WORD,
        }
    }
}

/// Reading back the keyword of an action gives the action, `UNKNOWN`
/// included: `FAIL` is no keyword.
pub proof fn law_action_of_its_word(action: Action)
    ensures
        Action::parse(action.word()) == action,
{
    assert(NICK_WORD@.len() == 4 && MSG_WORD@.len() == 3);
    assert(FAIL_WORD@[0] != NICK_WORD@[0]);
}

/// Appends `bytes` to `out`.
fn append_bytes(out: &mut Vec<u8>, bytes: &[u8])
    ensures
        final(out)@ == old(out)@ + bytes@,
{
    out.extend_from_slice(bytes);
    assert(out@ =~= old(out)@ + bytes@);
}

/// A message under construction: the arguments of one frame, in order.
pub struct SendMessage<'a> {
    pub words: Vec<&'a [u8]>,
}

impl<'a> View for SendMessage<'a> {
    type V = Seq<Seq<u8>>;

    /// The arguments, in order.
    open spec fn view(&self) -> Seq<Seq<u8>> {
        Seq::new(self.words@.len(), |i: int| self.words@[i]@)
    }
}

impl<'a> SendMessage<'a> {
    /// A message whose only argument is the keyword of `action`.
    pub fn new(action: Action) -> (msg: SendMessage<'a>)
        ensures
            msg@ == seq![action.word()],
    {
        let mut ret = SendMessage { words: Vec::new() };
        ret.add_argument(action.to_bytes());
        assert(ret@ =~= seq![action.word()]);
        ret
    }

    /// Appends one argument.
    pub fn add_argument(&mut self, data: &'a [u8])
        ensures
            final(self)@ == old(self)@.push(data@),
    {
        self.words.push(data);
        assert(self@ =~= old(self)@.push(data@));
    }

    /// The total length of the frame: the size of the arguments on the wire,
    /// or `None` where that size is too large for the length field.
    pub fn total_length(&self) -> (total: Option<u64>)
        ensures
            match total {
                Some(sum) => sum == args_size(self@),
                None => args_size(self@) > u64::MAX,
            },
    {
        let mut sum: u64 = 0;
        let mut i: usize = 0;
        while i < self.words.len()
            invariant
                0 <= i <= self.words.len(),
                sum == args_size(self@.take(i as int)),
            decreases self.words.len() - i,
        {
            proof {
                lemma_args_size_push(self@.take(i as int), self@[i as int]);
                assert(self@.take(i as int).push(self@[i as int]) =~= self@.take(i + 1));
                lemma_args_size_split(self@, i + 1);
            }
            let len = self.words[i].len() as u64;
            sum = match len.checked_add(8) {
                Some(size) => match sum.checked_add(size) {
                    Some(next) => next,
                    None => { return None; },
                },
                None => { return None; },
            };
            i = i + 1;
        }
        proof {
            assert(self@.take(i as int) =~= self@);
        }
        Some(sum)
    }

    /// Writes the message to `stream` as one frame: the total length, then
    /// each argument with its length before it.
    ///
    /// Returns `true` once the frame is written. That fails only for a
    /// message too large for the length field, of which nothing is written.
    /// A reader accepts the frame only where its size is within `MAX_LEN`.
    pub fn send(&self, stream: &mut Vec<u8>) -> (sent: bool)
        ensures
            sent <==> args_size(self@) <= u64::MAX,
            sent ==> final(stream)@ == old(stream)@ + encode_frame(self@),
            !sent ==> final(stream)@ == old(stream)@,
    {
        let sum = match self.total_length() {
            Some(sum) => sum,
            None => { return false; },
        };
        let total = u64_to_le_bytes(sum);
        append_bytes(stream, total.as_slice());
        let mut i: usize = 0;
        while i < self.words.len()
            invariant
                0 <= i <= self.words.len(),
                stream@ == old(stream)@ + spec_u64_to_le_bytes(sum) + encode_args(
                    self@.take(i as int),
                ),
            decreases self.words.len() - i,
        {
            let word = self.words[i];
            let len = u64_to_le_bytes(word.len() as u64);
            append_bytes(stream, len.as_slice());
            append_bytes(stream, word);
            proof {
                lemma_encode_args_push(self@.take(i as int), word@);
                assert(self@.take(i as int).push(word@) =~= self@.take(i + 1));
            }
            i = i + 1;
        }
        proof {
            assert(self@.take(i as int) =~= self@);
        }
        true
    }
}

/// The arguments of a chat message from `from` that says `message`.
pub open spec fn chat_frame(from: Seq<char>, message: Seq<u8>) -> Seq<Seq<u8>> {
    seq![MSG_WORD@, encode_utf8(from), message]
}

/// The size of a chat message on the wire.
pub proof fn lemma_chat_frame_size(from: Seq<char>, message: Seq<u8>)
    ensures
        args_size(chat_frame(from, message)) == 27 + encode_utf8(from).len() + message.len(),
{
    let frame = chat_frame(from, message);
    assert(frame.drop_first() =~= seq![encode_utf8(from), message]);
    assert(frame.drop_first().drop_first() =~= seq![message]);
    assert(frame.drop_first().drop_first().drop_first() =~= Seq::<Seq<u8>>::empty());
    assert(args_size(frame.drop_first().drop_first().drop_first()) == 0);
    assert(args_size(frame.drop_first().drop_first()) == 8 + message.len());
    assert(args_size(frame.drop_first()) == 16 + encode_utf8(from).len() + message.len());
}

/// A chat message that fits comes out of any reader as it went in: under
/// the keyword `MSG`, with its sender and what it says.
pub proof fn law_chat_frame_decodes(from: Seq<char>, message: Seq<u8>, tail: Seq<u8>)
    requires
        fits(chat_frame(from, message)),
    ensures
        parse_frame(encode_frame(chat_frame(from, message)) + tail).words == Some(
            chat_frame(from, message),
        ),
        Action::parse(chat_frame(from, message)[0]) == Action::MSG,
{
    let frame = chat_frame(from, message);
    assert forall|i: int| 0 <= i < frame.len() implies frame[i].len() <= MAX_LEN by {
        crate::wire::lemma_arg_within_size(frame, i);
    }
    crate::wire::law_decode_inverts_encode(frame, tail);
    assert(MSG_WORD@.len() == 3 && NICK_WORD@.len() == 4);
}

/// The arguments of the message by which a client announces `name`.
pub open spec fn nick_frame(name: Seq<char>) -> Seq<Seq<u8>> {
    seq![NICK_WORD@, encode_utf8(name)]
}

/// The size on the wire of the message that announces a name.
pub proof fn lemma_nick_frame_size(name: Seq<char>)
    ensures
        args_size(nick_frame(name)) == 20 + encode_utf8(name).len(),
{
    let frame = nick_frame(name);
    assert(frame.drop_first() =~= seq![encode_utf8(name)]);
    assert(frame.drop_first().drop_first() =~= Seq::<Seq<u8>>::empty());
    assert(args_size(frame.drop_first().drop_first()) == 0);
    assert(args_size(frame.drop_first()) == 8 + encode_utf8(name).len());
}

/// The byte strings that `words` hold.
pub open spec fn views(words: Seq<Vec<u8>>) -> Seq<Seq<u8>> {
    words.map_values(|word: Vec<u8>| word@)
}

/// A frame that was read: its arguments, in order.
///
/// Only reading makes one, so it always is a frame that a reader accepts:
/// its size on the wire is within `MAX_LEN`.
#[derive(Debug)]
pub struct RecieveMessage {
    words: Vec<Vec<u8>>,
}

impl View for RecieveMessage {
    type V = Seq<Seq<u8>>;

    /// The arguments, in order.
    closed spec fn view(&self) -> Seq<Seq<u8>> {
        views(self.words@)
    }
}

impl RecieveMessage {
    #[verifier::type_invariant]
    spec fn well_formed(&self) -> bool {
        fits(self@)
    }

    /// The frame with these arguments, which a reader has accepted.
    pub(crate) fn from_words(words: Vec<Vec<u8>>) -> (msg: RecieveMessage)
        requires
            fits(views(words@)),
        ensures
            msg@ == views(words@),
    {
        RecieveMessage { words }
    }

    /// The arguments, in order.
    pub fn words(&self) -> (words: &Vec<Vec<u8>>)
        ensures
            views(words@) == self@,
            fits(self@),
    {
        proof {
            use_type_invariant(self);
        }
        &self.words
    }
}

/// A received frame by its meaning: the action that its first argument
/// stands for, and the arguments after it.
pub struct ParsedMessage<'a> {
    pub action: Action,
    pub args: &'a [Vec<u8>],
}

impl<'a> ParsedMessage<'a> {
    /// Splits a frame into its action and the rest of its arguments. A frame
    /// without arguments has no action: it gives `None`.
    pub fn parse_msg(msg: &'a RecieveMessage) -> (parsed: Option<ParsedMessage<'a>>)
        ensures
            fits(msg@),
            match parsed {
                Some(p) => {
                    &&& msg@.len() > 0
                    &&& p.action == Action::parse(msg@[0])
                    &&& views(p.args@) == msg@.drop_first()
                },
                None => msg@.len() == 0,
            },
    {
        let words = msg.words();
        if words.len() == 0 {
            None
        } else {
            let action = Action::new(words[0].as_slice());
            let args = slice_subrange(words.as_slice(), 1, words.len());
            assert(views(args@) =~= msg@.drop_first());
            Some(ParsedMessage { action, args })
        }
    }
}

/// Reads one frame from the front of `stream`.
///
/// Gives the frame where the stream starts with a well-formed one, and
/// takes exactly that frame from the stream. Gives `None` where the stream
/// ends early, where the total length or the length of an argument exceeds
/// `MAX_LEN`, and where the arguments do not add up to the total length; the
/// stream is then read as far as `parse_frame` says and no further, and is of
/// no more use.
pub fn recieve_message(stream: &mut ByteStream) -> (msg: Option<RecieveMessage>)
    ensures
        ({
            let parsed = parse_frame(old(stream).remaining());
            &&& match msg {
                Some(m) => parsed.words == Some(m@),
                None => parsed.words is None,
            }
            &&& parsed.used <= old(stream).remaining().len()
            &&& final(stream).remaining() == old(stream).remaining().skip(parsed.used as int)
            &&& final(stream).consumed() == old(stream).consumed() + parsed.used
        }),
{
    let ghost all = stream.remaining();
    let ghost start = stream.consumed();
    let mut reader = FrameReader::new();
    proof {
        assert(all.skip(0) =~= all);
    }
    loop
        invariant
            all == old(stream).remaining(),
            start == old(stream).consumed(),
            start <= stream.consumed() <= start + all.len(),
            stream.remaining() == all.skip(stream.consumed() - start),
            reader@.well_formed(),
            parse_frame(all) == shift(
                (stream.consumed() - start) as nat,
                resume(reader@, stream.remaining()),
            ),
        ensures
            reader@.wanted() == 0,
            start <= stream.consumed() <= start + all.len(),
            stream.remaining() == all.skip(stream.consumed() - start),
            parse_frame(all) == shift(
                (stream.consumed() - start) as nat,
                resume(reader@, stream.remaining()),
            ),
        decreases stream.remaining().len(),
    {
        let n = reader.wanted();
        if n == 0 {
            break;
        }
        proof {
            lemma_step_agrees(reader@, stream.remaining());
        }
        let ghost rest = stream.remaining();
        let ghost taken = stream.consumed() - start;
        match stream.read_exact(n) {
            Some(chunk) => {
                reader = reader.feed(chunk);
                proof {
                    assert(rest.skip(n as int) =~= all.skip(taken + n));
                }
            },
            None => {
                proof {
                    assert(stream.remaining() =~= all.skip(all.len() as int));
                }
                return None;
            },
        }
    }
    reader.finish()
}

} // verus!
