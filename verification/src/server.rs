//! The server's side of a conversation: what each connection does with the
//! frames that it receives, from the handshake to the end.

use crate::common::{
    chat_frame, lemma_chat_frame_size, views, Action, ParsedMessage, RecieveMessage,
};
use crate::registry::{names, sockets, upsert, without, Delivery, UserList};
use crate::text::{decimal, lemma_encode_utf8_len, push_decimal, text_of};
use crate::wire::{args_size, encode_frame, MAX_LEN};
use vstd::prelude::*;
use vstd::slice::slice_to_vec;
use vstd::string::*;
use vstd::utf8::*;

verus! {

/// Where a connection stands.
pub enum Stage<S> {
    /// Accepted, and nothing received yet. The socket is kept for the
    /// registry.
    AwaitingHandshake { socket: S },
    /// Registered under `name`.
    Active { name: Seq<char> },
    /// Over.
    Closed,
}

/// The name that a first frame asks for: the one argument that follows the
/// `NICK` keyword. Any other frame asks for none.
pub open spec fn announced_name(frame: Seq<Seq<u8>>) -> Option<Seq<u8>> {
    if frame.len() == 2 && Action::parse(frame[0]) == Action::NICK {
        Some(frame[1])
    } else {
        None
    }
}

/// The name under which a first event lets a connection in: the received
/// frame announces a name, and the name is text.
pub open spec fn login(event: Option<Seq<Seq<u8>>>) -> Option<Seq<char>> {
    match event {
        Some(frame) => match announced_name(frame) {
            Some(bytes) => if valid_utf8(bytes) {
                Some(decode_utf8(bytes))
            } else {
                None
            },
            None => None,
        },
        None => None,
    }
}

/// What a message with this action and these further arguments says to
/// everybody: the last argument of a `MSG` that has any, where it is text.
pub open spec fn spoken(action: Action, args: Seq<Seq<u8>>) -> Option<Seq<u8>> {
    if action == Action::MSG && args.len() >= 1 && valid_utf8(args.last()) {
        Some(args.last())
    } else {
        None
    }
}

/// What a frame says to everybody, if anything.
pub open spec fn said(frame: Seq<Seq<u8>>) -> Option<Seq<u8>> {
    if frame.len() == 0 {
        None
    } else {
        spoken(Action::parse(frame[0]), frame.drop_first())
    }
}

/// The notice that `name` has connected, `users` being registered then.
pub open spec fn join_text(name: Seq<char>, users: nat) -> Seq<char> {
    "User '"@ + name + "' connected ("@ + decimal(users) + ")"@
}

/// The notice that `name` has disconnected, `users` being registered then.
pub open spec fn leave_text(name: Seq<char>, users: nat) -> Seq<char> {
    "User '"@ + name + "' disconnected ("@ + decimal(users) + ")"@
}

/// The arguments of a notice from the server itself: a chat message with
/// nobody's name on it.
pub open spec fn system_frame(text: Seq<char>) -> Seq<Seq<u8>> {
    chat_frame(Seq::empty(), encode_utf8(text))
}

/// What one event does: the registry and the connection after it, and the
/// arguments of the frame that goes out to everybody then registered, if one
/// does.
pub struct Reaction<S> {
    pub users: Seq<(Seq<char>, S)>,
    pub stage: Stage<S>,
    pub sent: Option<Seq<Seq<u8>>>,
}

/// The rules of a connection. `event` is the frame that was received, or
/// `None` where receiving failed: the peer is gone, or what it sent is no
/// frame.
///
/// - Before the handshake, a frame that announces a name registers the
///   connection's socket under it, and everybody, the newcomer included, is
///   told so, with the number of users now registered. Anything else closes
///   the connection, and nobody hears of it.
/// - After it, a frame that says something has it passed on to everybody
///   under the sender's name; any other frame is ignored. A failure takes
///   the name out of the registry, closes the connection, and those who are
///   left are told so, with their number.
/// - A closed connection stays closed.
pub open spec fn react<S>(
    users: Seq<(Seq<char>, S)>,
    stage: Stage<S>,
    event: Option<Seq<Seq<u8>>>,
) -> Reaction<S> {
    match stage {
        Stage::AwaitingHandshake { socket } => match login(event) {
            Some(name) => {
                let now = upsert(users, name, socket);
                Reaction {
                    users: now,
                    stage: Stage::Active { name },
                    sent: Some(system_frame(join_text(name, now.len()))),
                }
            },
            None => Reaction { users, stage: Stage::Closed, sent: None },
        },
        Stage::Active { name } => match event {
            Some(frame) => Reaction {
                users,
                stage,
                sent: match said(frame) {
                    Some(text) => Some(chat_frame(name, text)),
                    None => None,
                },
            },
            None => {
                let now = without(users, name);
                Reaction {
                    users: now,
                    stage: Stage::Closed,
                    sent: Some(system_frame(leave_text(name, now.len()))),
                }
            },
        },
        Stage::Closed => Reaction { users, stage, sent: None },
    }
}

/// Connecting under a name that nobody holds registers one user more, and
/// the notice that goes out reports that number.
pub proof fn law_connect_counts_up<S>(
    users: Seq<(Seq<char>, S)>,
    socket: S,
    event: Option<Seq<Seq<u8>>>,
)
    requires
        names(users).no_duplicates(),
        login(event) is Some,
        !names(users).contains(login(event)->0),
    ensures
        ({
            let name = login(event)->0;
            let reaction = react(users, Stage::AwaitingHandshake { socket }, event);
            &&& reaction.users.len() == users.len() + 1
            &&& reaction.stage == (Stage::<S>::Active { name })
            &&& reaction.sent == Some(system_frame(join_text(name, users.len() + 1)))
        }),
{
}

/// The end of a connection whose name is registered leaves one user fewer,
/// and the notice that goes out reports that number.
pub proof fn law_disconnect_counts_down<S>(users: Seq<(Seq<char>, S)>, name: Seq<char>)
    requires
        names(users).no_duplicates(),
        names(users).contains(name),
    ensures
        ({
            let reaction = react(users, Stage::Active { name }, None);
            &&& reaction.users.len() == users.len() - 1
            &&& reaction.stage == Stage::<S>::Closed
            &&& reaction.sent == Some(system_frame(leave_text(name, (users.len() - 1) as nat)))
        }),
{
}

/// A connection whose first frame is anything but a `NICK` with one name is
/// closed without a trace: the registry is as it was, and nothing goes out.
pub proof fn law_handshake_rejected<S>(
    users: Seq<(Seq<char>, S)>,
    socket: S,
    frame: Seq<Seq<u8>>,
)
    requires
        frame.len() != 2 || Action::parse(frame[0]) != Action::NICK,
    ensures
        react(users, Stage::AwaitingHandshake { socket }, Some(frame)) == (Reaction {
            users,
            stage: Stage::Closed,
            sent: None,
        }),
{
}

/// A failure to receive ends a connection for good. One that had joined is
/// taken out of the registry and announced as gone exactly once: whatever
/// comes after finds it closed and says nothing. One that had not joined
/// leaves no trace.
pub proof fn law_failure_closes<S>(
    users: Seq<(Seq<char>, S)>,
    stage: Stage<S>,
    later: Option<Seq<Seq<u8>>>,
)
    ensures
        ({
            let reaction = react(users, stage, None);
            let after = react(reaction.users, reaction.stage, later);
            &&& reaction.stage == Stage::<S>::Closed
            &&& reaction.sent is Some <==> stage is Active
            &&& stage is Active ==> reaction.users == without(users, stage->name)
            &&& !(stage is Active) ==> reaction.users == users
            &&& after == (Reaction { users: reaction.users, stage: Stage::Closed, sent: None })
        }),
{
}

/// Where a connection stands, without what it holds.
enum Step {
    AwaitingHandshake,
    Active,
    Closed,
}

/// One accepted connection, as the server sees it.
pub struct Connection<S> {
    step: Step,
    /// The socket, until the registry gets it.
    socket: Option<S>,
    /// The display name, once there is one.
    name: String,
}

impl<S> View for Connection<S> {
    type V = Stage<S>;

    closed spec fn view(&self) -> Stage<S> {
        match self.step {
            Step::AwaitingHandshake => Stage::AwaitingHandshake { socket: self.socket->0 },
            Step::Active => Stage::Active { name: self.name@ },
            Step::Closed => Stage::Closed,
        }
    }
}

impl<S> Connection<S> {
    #[verifier::type_invariant]
    spec fn well_formed(&self) -> bool {
        &&& self.step is AwaitingHandshake ==> self.socket is Some
        &&& self.step is Active ==> encode_utf8(self.name@).len() <= MAX_LEN
    }

    /// A connection that was just accepted; `socket` is where to write to
    /// its peer.
    pub fn new(socket: S) -> (conn: Connection<S>)
        ensures
            conn@ == (Stage::AwaitingHandshake { socket }),
    {
        Connection { step: Step::AwaitingHandshake, socket: Some(socket), name: String::new() }
    }

    /// A connection that is over.
    fn closed() -> (conn: Connection<S>)
        ensures
            conn@ == Stage::<S>::Closed,
    {
        Connection { step: Step::Closed, socket: None, name: String::new() }
    }

    /// The name under which the connection is registered, while it is.
    pub fn name(&self) -> (name: Option<&str>)
        ensures
            match name {
                Some(text) => self@ == (Stage::<S>::Active { name: text@ }),
                None => !(self@ is Active),
            },
    {
        match self.step {
            Step::Active => Some(self.name.as_str()),
            _ => None,
        }
    }

    /// True while the connection has shaken hands and is not over.
    pub fn is_active(&self) -> (active: bool)
        ensures
            active == (self@ is Active),
    {
        match self.step {
            Step::Active => true,
            _ => false,
        }
    }

    /// True once the connection is over.
    pub fn is_closed(&self) -> (closed: bool)
        ensures
            closed == (self@ is Closed),
    {
        match self.step {
            Step::Closed => true,
            _ => false,
        }
    }
}

/// The frame that an event holds, if it holds one.
pub open spec fn frame_of(event: Option<&RecieveMessage>) -> Option<Seq<Seq<u8>>> {
    match event {
        Some(frame) => Some(frame@),
        None => None,
    }
}

/// The notice that `name` has connected, as text.
fn connect_text(name: &str, users: usize) -> (text: String)
    ensures
        text@ == join_text(name@, users as nat),
{
    let mut text = String::from_str("User '");
    text.append(name);
    text.append("' connected (");
    push_decimal(&mut text, users);
    text.append(")");
    text
}

/// The notice that `name` has disconnected, as text.
fn disconnect_text(name: &str, users: usize) -> (text: String)
    ensures
        text@ == leave_text(name@, users as nat),
{
    let mut text = String::from_str("User '");
    text.append(name);
    text.append("' disconnected (");
    push_decimal(&mut text, users);
    text.append(")");
    text
}

/// A notice about a name of at most `MAX_LEN` bytes makes a frame whose
/// size fits in its length field, with room to spare.
proof fn lemma_notice_fits(name: Seq<char>, users: nat)
    requires
        encode_utf8(name).len() <= MAX_LEN,
        users <= usize::MAX,
    ensures
        args_size(system_frame(join_text(name, users))) <= u64::MAX,
        args_size(system_frame(leave_text(name, users))) <= u64::MAX,
{
    reveal_strlit("User '");
    reveal_strlit("' connected (");
    reveal_strlit("' disconnected (");
    reveal_strlit(")");
    crate::text::lemma_decimal_len(users);
    lemma_encode_utf8_len(name);
    lemma_encode_utf8_len(join_text(name, users));
    lemma_encode_utf8_len(leave_text(name, users));
    lemma_chat_frame_size(Seq::empty(), encode_utf8(join_text(name, users)));
    lemma_chat_frame_size(Seq::empty(), encode_utf8(leave_text(name, users)));
}

/// The server: the registry that all its connections share.
pub struct Server<S> {
    user_list: UserList<S>,
}

impl<S> View for Server<S> {
    type V = Seq<(Seq<char>, S)>;

    /// The registered names with their sockets, oldest name first.
    closed spec fn view(&self) -> Seq<(Seq<char>, S)> {
        self.user_list@
    }
}

impl<S> Server<S> {
    /// A server that nobody is connected to.
    pub fn new() -> (server: Server<S>)
        ensures
            server@ == Seq::<(Seq<char>, S)>::empty(),
    {
        Server { user_list: UserList::new() }
    }

    /// The registry.
    pub fn users(&self) -> (users: &UserList<S>)
        ensures
            users@ == self@,
    {
        &self.user_list
    }

    /// The name that a first frame announces, as the bytes that came: the
    /// frame has to be a `NICK` with exactly one further argument.
    pub fn authenticate_user(handshake: &RecieveMessage) -> (name: Option<Vec<u8>>)
        ensures
            match name {
                Some(bytes) => announced_name(handshake@) == Some(bytes@) && bytes@.len() <= MAX_LEN,
                None => announced_name(handshake@) is None,
            },
    {
        let parsed = match ParsedMessage::parse_msg(handshake) {
            Some(parsed) => parsed,
            None => { return None; },
        };
        assert(parsed.args@.len() == handshake@.drop_first().len());
        if parsed.args.len() != 1 {
            return None;
        }
        proof {
            assert(views(parsed.args@)[0] == handshake@.drop_first()[0]);
            crate::wire::lemma_arg_within_size(handshake@, 1);
        }
        match parsed.action {
            Action::NICK => Some(slice_to_vec(parsed.args[0].as_slice())),
            _ => None,
        }
    }

    /// The display name that a first frame lets a connection in under.
    fn accepted_name(handshake: &RecieveMessage) -> (accepted: Option<String>)
        ensures
            match accepted {
                Some(name) => {
                    &&& login(Some(handshake@)) == Some(name@)
                    &&& encode_utf8(name@).len() <= MAX_LEN
                },
                None => login(Some(handshake@)) is None,
            },
    {
        let bytes = match Self::authenticate_user(handshake) {
            Some(bytes) => bytes,
            None => { return None; },
        };
        match text_of(bytes.as_slice()) {
            Some(text) => {
                proof {
                    encode_utf8_decode_utf8(text@);
                }
                Some(String::from_str(text))
            },
            None => None,
        }
    }

    /// What one message of a registered user leads to: a `MSG` whose last
    /// argument is text is passed on to everybody under `user_name`; every
    /// other message is ignored.
    ///
    /// The size of the frame that goes out has to fit in its length field.
    pub fn handle_message<'a>(
        user_list: &'a UserList<S>,
        user_name: &str,
        message: &ParsedMessage,
    ) -> (out: Option<Delivery<'a, S>>)
        requires
            spoken(message.action, views(message.args@)) matches Some(text) ==> args_size(
                chat_frame(user_name@, text),
            ) <= u64::MAX,
        ensures
            match spoken(message.action, views(message.args@)) {
                Some(text) => {
                    &&& out matches Some(delivery)
                    &&& delivery.frame@ == encode_frame(chat_frame(user_name@, text))
                    &&& delivery.receivers() == sockets(user_list@)
                },
                None => out is None,
            },
    {
        match message.action {
            Action::MSG => {
                if message.args.len() >= 1 {
                    let content = message.args[message.args.len() - 1].as_slice();
                    assert(content@ == views(message.args@).last());
                    match text_of(content) {
                        Some(_) => Some(user_list.send_message(user_name, &Vec::new(), content)),
                        None => None,
                    }
                } else {
                    None
                }
            },
            _ => None,
        }
    }

    /// One step of a connection: what the server does when `event` comes in
    /// on `conn`. `event` is the frame that was received, or `None` where
    /// receiving failed.
    ///
    /// Gives the connection as it is afterwards, and the frame to write, with
    /// the sockets to write it to, where there is one.
    pub fn handle_client<'a>(&'a mut self, conn: Connection<S>, event: Option<&RecieveMessage>) -> (next:
        (Connection<S>, Option<Delivery<'a, S>>))
        ensures
            ({
                let reaction = react(old(self)@, conn@, frame_of(event));
                &&& final(self)@ == reaction.users
                &&& names(final(self)@).no_duplicates()
                &&& next.0@ == reaction.stage
                &&& match reaction.sent {
                    Some(args) => {
                        &&& next.1 matches Some(delivery)
                        &&& delivery.frame@ == encode_frame(args)
                        &&& delivery.receivers() == sockets(reaction.users)
                    },
                    None => next.1 is None,
                }
            }),
    {
        proof {
            use_type_invariant(&conn);
            use_type_invariant(&self.user_list);
            reveal_strlit("");
        }
        match conn.step {
            Step::Closed => (conn, None),
            Step::AwaitingHandshake => {
                let accepted = match event {
                    Some(frame) => Self::accepted_name(frame),
                    None => None,
                };
                match accepted {
                    Some(name) => {
                        let socket = conn.socket.unwrap();
                        self.user_list.add(name.clone(), socket);
                        let users = self.user_list.len();
                        let text = connect_text(name.as_str(), users);
                        proof {
                            lemma_notice_fits(name@, users as nat);
                        }
                        let next = Connection { step: Step::Active, socket: None, name };
                        let out = self.user_list.send_message(
                            "",
                            &Vec::new(),
                            text.as_str().as_bytes(),
                        );
                        (next, Some(out))
                    },
                    None => (Connection::closed(), None),
                }
            },
            Step::Active => match event {
                Some(frame) => {
                    let out = match ParsedMessage::parse_msg(frame) {
                        Some(parsed) => {
                            proof {
                                if parsed.args@.len() >= 1 {
                                    crate::wire::lemma_arg_within_size(
                                        frame@,
                                        frame@.len() - 1,
                                    );
                                    lemma_chat_frame_size(conn.name@, frame@.last());
                                }
                            }
                            Self::handle_message(&self.user_list, conn.name.as_str(), &parsed)
                        },
                        None => None,
                    };
                    (conn, out)
                },
                None => {
                    self.user_list.remove(conn.name.as_str());
                    let users = self.user_list.len();
                    let text = disconnect_text(conn.name.as_str(), users);
                    proof {
                        lemma_notice_fits(conn.name@, users as nat);
                    }
                    let out = self.user_list.send_message(
                        "",
                        &Vec::new(),
                        text.as_str().as_bytes(),
                    );
                    (Connection::closed(), Some(out))
                },
            },
        }
    }
}

} // verus!
