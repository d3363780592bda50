//! The registry: who is connected, and where to write to each.
//!
//! A socket is whatever the caller says it is: the registry keeps one per
//! name and hands references back for writing, and never looks inside.
//! Every operation takes the registry as a whole, so a caller that shares
//! it puts one lock around it.

use crate::common::{chat_frame, Action, SendMessage};
use crate::wire::{args_size, encode_frame};
use vstd::prelude::*;
use vstd::string::*;

verus! {

/// The names of the registered users, in the order of the registry.
pub open spec fn names<S>(entries: Seq<(Seq<char>, S)>) -> Seq<Seq<char>> {
    entries.map_values(|entry: (Seq<char>, S)| entry.0)
}

/// The sockets of the registered users, in the order of the registry.
pub open spec fn sockets<S>(entries: Seq<(Seq<char>, S)>) -> Seq<S> {
    entries.map_values(|entry: (Seq<char>, S)| entry.1)
}

/// The registry after `name` is registered with `socket`: a name that is
/// there already keeps its place and gets the new socket; a new name goes to
/// the end.
pub open spec fn upsert<S>(entries: Seq<(Seq<char>, S)>, name: Seq<char>, socket: S) -> Seq<
    (Seq<char>, S),
> {
    if names(entries).contains(name) {
        entries.update(names(entries).index_of(name), (name, socket))
    } else {
        entries.push((name, socket))
    }
}

/// The registry without `name`; the same registry where the name is not in
/// it.
pub open spec fn without<S>(entries: Seq<(Seq<char>, S)>, name: Seq<char>) -> Seq<
    (Seq<char>, S),
> {
    if names(entries).contains(name) {
        entries.remove(names(entries).index_of(name))
    } else {
        entries
    }
}

/// What is to be written, and where: one frame, and the sockets that each
/// get a copy of it, in the order of the registry.
pub struct Delivery<'a, S> {
    pub frame: Vec<u8>,
    pub targets: Vec<&'a S>,
}

impl<'a, S> Delivery<'a, S> {
    /// The sockets that get the frame.
    pub open spec fn receivers(&self) -> Seq<S> {
        self.targets@.map_values(|target: &S| *target)
    }
}

/// One registered user.
struct User<S> {
    name: String,
    socket: S,
}

/// The users that are connected, each with the socket to write to. No name
/// is registered twice.
pub struct UserList<S> {
    users: Vec<User<S>>,
}

impl<S> View for UserList<S> {
    type V = Seq<(Seq<char>, S)>;

    /// The registered names with their sockets, oldest name first.
    closed spec fn view(&self) -> Seq<(Seq<char>, S)> {
        self.users@.map_values(|user: User<S>| (user.name@, user.socket))
    }
}

impl<S> UserList<S> {
    #[verifier::type_invariant]
    pub(crate) open spec fn well_formed(&self) -> bool {
        names(self@).no_duplicates()
    }

    /// A registry with nobody in it.
    pub fn new() -> (list: UserList<S>)
        ensures
            list@ == Seq::<(Seq<char>, S)>::empty(),
    {
        let list = UserList { users: Vec::new() };
        assert(list@ =~= Seq::<(Seq<char>, S)>::empty());
        list
    }

    /// The number of registered users.
    pub fn len(&self) -> (len: usize)
        ensures
            len == self@.len(),
            names(self@).no_duplicates(),
    {
        proof {
            use_type_invariant(self);
        }
        self.users.len()
    }

    /// True where `name` is registered.
    pub fn contains(&self, name: &str) -> (present: bool)
        ensures
            present == names(self@).contains(name@),
    {
        match Self::position(&self.users, name) {
            Some(i) => {
                assert(names(self@)[i as int] == name@);
                true
            },
            None => false,
        }
    }

    /// Registers `name` with `socket`. A name that is registered already
    /// gets the new socket in place of its old one.
    pub fn add(&mut self, name: String, socket: S)
        ensures
            final(self)@ == upsert(old(self)@, name@, socket),
            names(final(self)@).no_duplicates(),
    {
        proof {
            use_type_invariant(&*self);
        }
        let mut users: Vec<User<S>> = Vec::new();
        std::mem::swap(&mut users, &mut self.users);
        let ghost before = old(self)@;
        let ghost entry = (name@, socket);
        assert(before =~= users@.map_values(|user: User<S>| (user.name@, user.socket)));
        match Self::position(&users, name.as_str()) {
            Some(i) => {
                assert(names(before)[i as int] == name@);
                users.set(i, User { name, socket });
                assert(users@.map_values(|user: User<S>| (user.name@, user.socket))
                    =~= before.update(i as int, entry));
                assert(names(before.update(i as int, entry)) =~= names(before));
            },
            None => {
                users.push(User { name, socket });
                assert(users@.map_values(|user: User<S>| (user.name@, user.socket))
                    =~= before.push(entry));
                assert(names(before.push(entry)) =~= names(before).push(entry.0));
            },
        }
        self.users = users;
    }

    /// Takes `name` out of the registry; does nothing where it is not in it.
    pub fn remove(&mut self, name: &str)
        ensures
            final(self)@ == without(old(self)@, name@),
            names(final(self)@).no_duplicates(),
    {
        proof {
            use_type_invariant(&*self);
        }
        let mut users: Vec<User<S>> = Vec::new();
        std::mem::swap(&mut users, &mut self.users);
        let ghost before = old(self)@;
        assert(before =~= users@.map_values(|user: User<S>| (user.name@, user.socket)));
        match Self::position(&users, name) {
            Some(i) => {
                assert(names(before)[i as int] == name@);
                users.remove(i);
                assert(users@.map_values(|user: User<S>| (user.name@, user.socket))
                    =~= before.remove(i as int));
                assert(names(before.remove(i as int)) =~= names(before).remove(i as int));
            },
            None => {},
        }
        self.users = users;
    }

    /// Makes the chat message that says `message` in the name of `from`, for
    /// everybody who is registered.
    ///
    /// `to` names who is to get it, and nobody means everybody. Sending to
    /// some users only is not supported: where `to` names anyone, nobody
    /// gets the message.
    ///
    /// The size of the frame has to fit in its length field.
    pub fn send_message<'a>(&'a self, from: &str, to: &Vec<&str>, message: &[u8]) -> (out:
        Delivery<'a, S>)
        requires
            args_size(chat_frame(from@, message@)) <= u64::MAX,
        ensures
            out.frame@ == encode_frame(chat_frame(from@, message@)),
            out.receivers() == (if to@.len() == 0 {
                sockets(self@)
            } else {
                Seq::<S>::empty()
            }),
    {
        let mut to_send = SendMessage::new(Action::MSG);
        to_send.add_argument(from.as_bytes());
        to_send.add_argument(message);
        assert(to_send@ =~= chat_frame(from@, message@));
        let mut frame: Vec<u8> = Vec::new();
        to_send.send(&mut frame);
        assert(frame@ =~= encode_frame(chat_frame(from@, message@)));
        let mut targets: Vec<&'a S> = Vec::new();
        if to.len() == 0 {
            let mut i: usize = 0;
            while i < self.users.len()
                invariant
                    0 <= i <= self.users@.len(),
                    targets@.len() == i,
                    forall|j: int| 0 <= j < i ==> *targets@[j] == self.users@[j].socket,
                decreases self.users.len() - i,
            {
                targets.push(&self.users[i].socket);
                i = i + 1;
            }
        }
        let out = Delivery { frame, targets };
        assert(out.receivers() =~= (if to@.len() == 0 {
            sockets(self@)
        } else {
            Seq::<S>::empty()
        }));
        out
    }

    /// Where `name` stands in `users`, if it is there.
    fn position(users: &Vec<User<S>>, name: &str) -> (at: Option<usize>)
        ensures
            match at {
                Some(i) => i < users@.len() && users@[i as int].name@ == name@,
                None => forall|i: int| 0 <= i < users@.len() ==> users@[i].name@ != name@,
            },
    {
        let wanted = String::from_str(name);
        let mut i: usize = 0;
        while i < users.len()
            invariant
                0 <= i <= users@.len(),
                wanted@ == name@,
                forall|j: int| 0 <= j < i ==> users@[j].name@ != name@,
            decreases users.len() - i,
        {
            if users[i].name == wanted {
                return Some(i);
            }
            i = i + 1;
        }
        None
    }
}

/// Registering a name keeps the registry free of duplicates and makes the
/// name one of its names, next to those that were there. Where the name is
/// new the registry grows by one; where it was there the size stays.
pub proof fn law_upsert<S>(users: Seq<(Seq<char>, S)>, name: Seq<char>, socket: S)
    requires
        names(users).no_duplicates(),
    ensures
        names(upsert(users, name, socket)).no_duplicates(),
        names(upsert(users, name, socket)).to_set() == names(users).to_set().insert(name),
        !names(users).contains(name) ==> upsert(users, name, socket).len() == users.len() + 1,
        names(users).contains(name) ==> upsert(users, name, socket).len() == users.len(),
{
    let after = upsert(users, name, socket);
    if names(users).contains(name) {
        let at = names(users).index_of(name);
        assert(names(after) =~= names(users));
        assert(names(users).to_set().insert(name) =~= names(users).to_set());
    } else {
        assert(names(after) =~= names(users).push(name));
        assert forall|n: Seq<char>| names(after).to_set().contains(n) <==> names(
            users,
        ).to_set().insert(name).contains(n) by {
            if names(after).contains(n) {
                let i = names(after).index_of(n);
                if i < users.len() {
                    assert(names(users)[i] == n);
                }
            }
            if names(users).contains(n) {
                let i = names(users).index_of(n);
                assert(names(after)[i] == n);
            }
            if n == name {
                assert(names(after)[users.len() as int] == n);
            }
        }
        assert(names(after).to_set() =~= names(users).to_set().insert(name));
    }
}

/// Taking a name out keeps the registry free of duplicates and leaves the
/// other names, and only them. Where the name was there the registry
/// shrinks by one; where it was not the registry stays as it is.
pub proof fn law_without<S>(users: Seq<(Seq<char>, S)>, name: Seq<char>)
    requires
        names(users).no_duplicates(),
    ensures
        names(without(users, name)).no_duplicates(),
        names(without(users, name)).to_set() == names(users).to_set().remove(name),
        names(users).contains(name) ==> without(users, name).len() == users.len() - 1,
        !names(users).contains(name) ==> without(users, name) == users,
{
    let after = without(users, name);
    if names(users).contains(name) {
        let at = names(users).index_of(name);
        assert(names(after) =~= names(users).remove(at));
        assert forall|n: Seq<char>| names(after).to_set().contains(n) <==> names(
            users,
        ).to_set().remove(name).contains(n) by {
            if names(after).contains(n) {
                let i = names(after).index_of(n);
                if i < at {
                    assert(names(users)[i] == n);
                } else {
                    assert(names(users)[i + 1] == n);
                }
            }
            if names(users).contains(n) && n != name {
                let i = names(users).index_of(n);
                if i < at {
                    assert(names(after)[i] == n);
                } else {
                    assert(names(after)[i - 1] == n);
                }
            }
        }
        assert(names(after).to_set() =~= names(users).to_set().remove(name));
    } else {
        assert(names(users).to_set().remove(name) =~= names(users).to_set());
    }
}

/// One thing that happens to the registry.
pub enum RegistryOp<S> {
    /// A connection has shaken hands under `name`.
    Connect { name: Seq<char>, socket: S },
    /// The connection that holds `name` is over.
    Disconnect { name: Seq<char> },
}

/// The registry after `ops` have happened to an empty one, in this order.
pub open spec fn replay<S>(ops: Seq<RegistryOp<S>>) -> Seq<(Seq<char>, S)>
    decreases ops.len(),
{
    if ops.len() == 0 {
        Seq::empty()
    } else {
        match ops.last() {
            RegistryOp::Connect { name, socket } => upsert(replay(ops.drop_last()), name, socket),
            RegistryOp::Disconnect { name } => without(replay(ops.drop_last()), name),
        }
    }
}

/// True when `name` is still connected after `ops`: the last of them that
/// speaks of the name connects it.
pub open spec fn still_connected<S>(ops: Seq<RegistryOp<S>>, name: Seq<char>) -> bool
    decreases ops.len(),
{
    if ops.len() == 0 {
        false
    } else {
        match ops.last() {
            RegistryOp::Connect { name: n, .. } => n == name || still_connected(
                ops.drop_last(),
                name,
            ),
            RegistryOp::Disconnect { name: n } => n != name && still_connected(
                ops.drop_last(),
                name,
            ),
        }
    }
}

/// However connections come and go, in whatever order the lock lets them
/// in, the registry holds exactly the names that are still connected, each
/// of them once.
pub proof fn law_registry_holds_the_connected<S>(ops: Seq<RegistryOp<S>>)
    ensures
        names(replay(ops)).no_duplicates(),
        forall|name: Seq<char>| names(replay(ops)).contains(name) <==> still_connected(ops, name),
    decreases ops.len(),
{
    if ops.len() > 0 {
        let earlier = ops.drop_last();
        let before = replay(earlier);
        law_registry_holds_the_connected(earlier);
        match ops.last() {
            RegistryOp::Connect { name, socket } => {
                law_upsert(before, name, socket);
            },
            RegistryOp::Disconnect { name } => {
                law_without(before, name);
            },
        }
        assert forall|name: Seq<char>| names(replay(ops)).contains(name) <==> still_connected(
            ops,
            name,
        ) by {
            assert(names(before).contains(name) <==> still_connected(earlier, name));
            assert(names(before).contains(name) <==> names(before).to_set().contains(name));
            assert(names(replay(ops)).contains(name) <==> names(replay(ops)).to_set().contains(
                name,
            ));
        }
    }
}

} // verus!
