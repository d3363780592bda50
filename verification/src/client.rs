//! The client's side of a conversation: the frames that it sends, the line
//! that its user is typing, and what it shows of the frames that come in.
//!
//! The terminal is the caller's: a key comes in as the number that ncurses
//! gave for it, and what is to be drawn goes out as a value.

use crate::common::{
    chat_frame, lemma_chat_frame_size, lemma_nick_frame_size, nick_frame, Action, ParsedMessage,
    RecieveMessage, SendMessage,
};
use crate::text::text_of;
use crate::wire::{args_size, encode_frame};
use vstd::prelude::*;
use vstd::string::*;
use vstd::utf8::*;

verus! {

/// The number of the line feed, which sends the line.
pub const LINE_FEED: i32 = 10;

/// The number of the ASCII delete character, which many terminals give for
/// the backspace key.
pub const ASCII_DEL: i32 = 127;

/// The number that ncurses gives for the backspace key.
pub const KEY_BACKSPACE: i32 = 0x107;

/// The number that ncurses gives for the delete-character key.
pub const KEY_DC: i32 = 0x14a;

/// The number for the backspace key, taken from ncurses: its constant
/// `KEY_BACKSPACE`, which its source sets to `0x107`.
#[verifier::external_body]
fn backspace_key() -> (code: i32)
    ensures
        code == KEY_BACKSPACE,
{
    ncurses::KEY_BACKSPACE
}

/// The number for the delete-character key, taken from ncurses: its constant
/// `KEY_DC`, which its source sets to `0x14a`.
#[verifier::external_body]
fn delete_key() -> (code: i32)
    ensures
        code == KEY_DC,
{
    ncurses::KEY_DC
}

/// True for the keys that erase: backspace and delete-character as ncurses
/// numbers them, and the ASCII delete character.
pub open spec fn erases(cur: i32) -> bool {
    cur == KEY_BACKSPACE || cur == KEY_DC || cur == ASCII_DEL
}

/// What the terminal is to show after a key.
#[derive(Clone, Copy, Debug, PartialEq, Eq)]
pub enum KeyAction {
    /// The line went out as a message: clear the input line.
    Sent,
    /// A character was taken off the end of the line: clear the input line
    /// from `column` on.
    Erased { column: usize },
    /// `c` was added to the line: show it at `column`.
    Typed { column: usize, c: char },
    /// The key means nothing.
    Ignored,
}

/// The character with the number `i`, where there is one.
pub fn int_to_char(i: i32) -> (c: Option<char>)
    ensures
        c == (if 0 <= i && is_scalar(i as u32) {
            Some(i as u32 as char)
        } else {
            None::<char>
        }),
{
    if i < 0 {
        None
    } else {
        char::from_u32(i as u32)
    }
}

/// The line that shows a message: the sender, a colon and a space, and what
/// was said.
pub open spec fn shown_line(from: Seq<char>, msg: Seq<char>) -> Seq<char> {
    from + ": "@ + msg
}

/// What a received frame shows: a `MSG` with exactly a sender and a text
/// after the keyword, both of them valid UTF-8, shows as one line; no other
/// frame shows.
pub open spec fn shown(frame: Seq<Seq<u8>>) -> Option<Seq<char>> {
    if frame.len() == 3 && Action::parse(frame[0]) == Action::MSG && valid_utf8(frame[1])
        && valid_utf8(frame[2]) {
        Some(shown_line(decode_utf8(frame[1]), decode_utf8(frame[2])))
    } else {
        None
    }
}

/// What a key does to the line that is being typed, in this order: the
/// line feed sends it and starts a new one; an erasing key takes its last
/// character off, if it has one; a key that is a character adds it; any
/// other key does nothing.
pub open spec fn line_after(line: Seq<char>, cur: i32) -> Seq<char> {
    if cur == LINE_FEED {
        Seq::empty()
    } else if erases(cur) {
        if line.len() > 0 {
            line.drop_last()
        } else {
            line
        }
    } else if 0 <= cur && is_scalar(cur as u32) {
        line.push(cur as u32 as char)
    } else {
        line
    }
}

/// A client: its display name, and the line that its user is typing.
pub struct Client {
    name: String,
    buf: String,
}

impl Client {
    /// The display name.
    pub closed spec fn nick(&self) -> Seq<char> {
        self.name@
    }

    /// The line that is being typed.
    pub closed spec fn line(&self) -> Seq<char> {
        self.buf@
    }

    /// A client that has not joined yet: its name is `none`, its line empty.
    pub fn new() -> (client: Client)
        ensures
            client.nick() == "none"@,
            client.line() == Seq::<char>::empty(),
    {
        Client { name: String::from_str("none"), buf: String::new() }
    }

    /// The display name.
    pub fn name(&self) -> (name: &str)
        ensures
            name@ == self.nick(),
    {
        self.name.as_str()
    }

    /// The line that is being typed.
    pub fn input(&self) -> (line: &str)
        ensures
            line@ == self.line(),
    {
        self.buf.as_str()
    }

    /// True where the message that announces `name` can be written: its size
    /// fits in its length field. Nothing that a machine can hold fails this.
    pub fn can_join(name: &str) -> (ok: bool)
        ensures
            ok == (args_size(nick_frame(name@)) <= u64::MAX),
    {
        proof {
            lemma_nick_frame_size(name@);
        }
        name.as_bytes().len() as u64 <= u64::MAX - 20
    }

    /// True where the line that is being typed can be sent: the size of the
    /// message that says it fits in its length field. Nothing that a machine
    /// can hold fails this.
    pub fn can_send(&self) -> (ok: bool)
        ensures
            ok == (args_size(chat_frame(Seq::empty(), encode_utf8(self.line()))) <= u64::MAX),
    {
        proof {
            lemma_chat_frame_size(Seq::empty(), encode_utf8(self.line()));
        }
        self.buf.as_str().as_bytes().len() as u64 <= u64::MAX - 27
    }

    /// Joins under `name`: writes the `NICK` message to `stream` and keeps the
    /// name. No answer is waited for.
    ///
    /// The size of the frame has to fit in its length field.
    pub fn join(&mut self, name: &str, stream: &mut Vec<u8>)
        requires
            args_size(nick_frame(name@)) <= u64::MAX,
        ensures
            final(self).nick() == name@,
            final(self).line() == old(self).line(),
            final(stream)@ == old(stream)@ + encode_frame(nick_frame(name@)),
    {
        let mut msg = SendMessage::new(Action::NICK);
        msg.add_argument(name.as_bytes());
        assert(msg@ =~= nick_frame(name@));
        msg.send(stream);
        self.name = String::from_str(name);
    }

    /// Writes to `stream` the message that says `msg` to everybody. The
    /// sender is left blank: the server knows who it is.
    ///
    /// The size of the frame has to fit in its length field.
    pub fn send_msg_to_all(stream: &mut Vec<u8>, msg: &str)
        requires
            args_size(chat_frame(Seq::empty(), encode_utf8(msg@))) <= u64::MAX,
        ensures
            final(stream)@ == old(stream)@ + encode_frame(
                chat_frame(Seq::empty(), encode_utf8(msg@)),
            ),
    {
        proof {
            reveal_strlit("");
        }
        let mut to_send = SendMessage::new(Action::MSG);
        to_send.add_argument("".as_bytes());
        to_send.add_argument(msg.as_bytes());
        assert(to_send@ =~= chat_frame(Seq::empty(), encode_utf8(msg@)));
        to_send.send(stream);
    }

    /// The line that shows what `from` said.
    pub fn print_message(from: &str, msg: &str) -> (line: String)
        ensures
            line@ == shown_line(from@, msg@),
    {
        let mut line = String::from_str(from);
        line.append(": ");
        line.append(msg);
        line
    }

    /// What to show of a received frame: the line for a chat message, and
    /// nothing for any other frame.
    pub fn handle_messages(msg: &RecieveMessage) -> (line: Option<String>)
        ensures
            match line {
                Some(text) => shown(msg@) == Some(text@),
                None => shown(msg@) is None,
            },
    {
        let parsed = match ParsedMessage::parse_msg(msg) {
            Some(parsed) => parsed,
            None => { return None; },
        };
        assert(parsed.args@.len() == msg@.drop_first().len());
        match parsed.action {
            Action::MSG => {
                if parsed.args.len() != 2 {
                    return None;
                }
                assert(parsed.args@[0]@ == msg@.drop_first()[0]);
                assert(parsed.args@[1]@ == msg@.drop_first()[1]);
                let from = match text_of(parsed.args[0].as_slice()) {
                    Some(from) => from,
                    None => { return None; },
                };
                let said = match text_of(parsed.args[1].as_slice()) {
                    Some(said) => said,
                    None => { return None; },
                };
                proof {
                    encode_utf8_decode_utf8(from@);
                    encode_utf8_decode_utf8(said@);
                }
                Some(Client::print_message(from, said))
            },
            _ => None,
        }
    }

    /// Takes one key. The line changes as `line_after` says. On the line
    /// feed, the message that says the line is written to `stream`, sender
    /// left blank; no other key writes anything.
    ///
    /// The columns in the answer count the bytes of the line, as the
    /// terminal's cursor is moved by them.
    ///
    /// Where a frame is written, its size has to fit in its length field.
    pub fn handle_input(&mut self, cur: i32, stream: &mut Vec<u8>) -> (action: KeyAction)
        requires
            cur == LINE_FEED ==> args_size(
                chat_frame(Seq::empty(), encode_utf8(old(self).line())),
            ) <= u64::MAX,
        ensures
            final(self).nick() == old(self).nick(),
            final(self).line() == line_after(old(self).line(), cur),
            final(stream)@ == (if cur == LINE_FEED {
                old(stream)@ + encode_frame(
                    chat_frame(Seq::empty(), encode_utf8(old(self).line())),
                )
            } else {
                old(stream)@
            }),
            action == (if cur == LINE_FEED {
                KeyAction::Sent
            } else if erases(cur) {
                KeyAction::Erased { column: encode_utf8(final(self).line()).len() as usize }
            } else if 0 <= cur && is_scalar(cur as u32) {
                KeyAction::Typed {
                    column: encode_utf8(old(self).line()).len() as usize,
                    c: cur as u32 as char,
                }
            } else {
                KeyAction::Ignored
            }),
    {
        if cur == LINE_FEED {
            Client::send_msg_to_all(stream, self.buf.as_str());
            self.buf = String::new();
            KeyAction::Sent
        } else if cur == backspace_key() || cur == delete_key() || cur == ASCII_DEL {
            self.buf.pop();
            KeyAction::Erased { column: self.buf.as_str().len() }
        } else {
            match int_to_char(cur) {
                Some(c) => {
                    let column = self.buf.as_str().len();
                    self.buf.push(c);
                    KeyAction::Typed { column, c }
                },
                None => KeyAction::Ignored,
            }
        }
    }
}

} // verus!
