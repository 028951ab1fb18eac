//! The registry of connected users, and the mailboxes that carry messages
//! between them.
//!
//! A pool is one value with one owner: every operation takes it by `&mut`
//! and is done before the next begins, so two registrations of one name can
//! never both succeed, and a broadcast sees one membership from start to
//! end. Whoever shares a pool between tasks puts it behind a lock.
//!
//! A mailbox holds at most `capacity` messages. A message broadcast to a
//! user whose mailbox is full is dropped for that user, and for that user
//! alone; it is the newest message that is lost, never one already queued.

use crate::command::{view_of, Command, CommandView};
use crate::connection::{bytes_of, sent, ConnectionError};
use crate::user::User;
use vstd::prelude::*;

verus! {

/// The number of messages a mailbox holds unless the pool was made with
/// another.
pub const MAILBOX_CAPACITY: usize = 200;

/// What came of a registration.
#[derive(Debug, Clone, Copy, PartialEq, Eq, Structural)]
pub enum Registration {
    /// The username was free and is now registered.
    Admitted,
    /// The username is in use; the pool is as it was.
    Rejected,
}

/// What the pool did with a command that a user's connection gave.
#[derive(Debug, Clone, Copy, PartialEq, Eq, Structural)]
pub enum Processed {
    /// A message: it was broadcast to the others.
    Broadcast,
    /// `leave`: the user was removed.
    Left,
    /// Anything else, or no command at all: nothing was done.
    Ignored,
}

/// A pool as contracts see it.
#[verifier::ext_equal]
pub struct UserPoolView {
    /// For each registered username, the messages waiting in its mailbox,
    /// oldest first.
    pub mailboxes: Map<Seq<char>, Seq<Seq<char>>>,
    /// The number of messages a mailbox holds.
    pub capacity: nat,
}

impl UserPoolView {
    /// Whether `username` is registered.
    pub open spec fn contains(self, username: Seq<char>) -> bool {
        self.mailboxes.dom().contains(username)
    }

    /// What comes of registering `username`: a name that is in use is
    /// rejected, any other is admitted.
    pub open spec fn registration(self, username: Seq<char>) -> Registration {
        if self.contains(username) {
            Registration::Rejected
        } else {
            Registration::Admitted
        }
    }

    /// Whether no mailbox holds more messages than the capacity allows.
    pub open spec fn bounded(self) -> bool {
        forall|username: Seq<char>|
            self.contains(username) ==> (#[trigger] self.mailboxes[username]).len()
                <= self.capacity
    }

    /// The pool after a registration of `username`: registered with an empty
    /// mailbox where the name was free, unchanged where it was not.
    pub open spec fn add_user(self, username: Seq<char>) -> UserPoolView {
        if self.contains(username) {
            self
        } else {
            UserPoolView {
                mailboxes: self.mailboxes.insert(username, Seq::empty()),
                capacity: self.capacity,
            }
        }
    }

    /// The pool without `username`.
    pub open spec fn remove_user(self, username: Seq<char>) -> UserPoolView {
        UserPoolView { mailboxes: self.mailboxes.remove(username), capacity: self.capacity }
    }

    /// The mailbox of `username` after `sender` has broadcast `message`.
    pub open spec fn delivered(
        self,
        sender: Seq<char>,
        message: Seq<char>,
        username: Seq<char>,
    ) -> Seq<Seq<char>> {
        let mailbox = self.mailboxes[username];
        if username != sender && mailbox.len() < self.capacity {
            mailbox.push(message)
        } else {
            mailbox
        }
    }

    /// The pool after `sender` has broadcast `message`: the message stands
    /// last in the mailbox of every other registered user that had room for
    /// it.
    pub open spec fn broadcast(self, sender: Seq<char>, message: Seq<char>) -> UserPoolView {
        UserPoolView {
            mailboxes: Map::new(
                |username: Seq<char>| self.contains(username),
                |username: Seq<char>| self.delivered(sender, message, username),
            ),
            capacity: self.capacity,
        }
    }

    /// The pool after the user `username` has sent `command`. A message is
    /// broadcast and `leave` removes the user. Nothing else has any effect:
    /// `join` comes too late, and `username_taken` is for the server to say.
    pub open spec fn process_command(
        self,
        username: Seq<char>,
        command: Option<CommandView>,
    ) -> UserPoolView {
        match command {
            Some(CommandView::SendMessage(message)) => self.broadcast(username, message),
            Some(CommandView::Leave) => self.remove_user(username),
            _ => self,
        }
    }

    /// The pool after the oldest message of `username` has been taken out.
    pub open spec fn take_message(self, username: Seq<char>) -> UserPoolView {
        if self.contains(username) && self.mailboxes[username].len() > 0 {
            UserPoolView {
                mailboxes: self.mailboxes.insert(username, self.mailboxes[username].drop_first()),
                capacity: self.capacity,
            }
        } else {
            self
        }
    }
}

/// What the pool does with a command that a user's connection gave.
pub open spec fn processed(command: Option<CommandView>) -> Processed {
    match command {
        Some(CommandView::SendMessage(_)) => Processed::Broadcast,
        Some(CommandView::Leave) => Processed::Left,
        _ => Processed::Ignored,
    }
}

/// One registered user: the name, and the messages waiting for it.
#[derive(Debug)]
struct Entry {
    username: String,
    mailbox: Vec<String>,
}

impl Entry {
    spec fn messages(self) -> Seq<Seq<char>> {
        self.mailbox@.map_values(|message: String| message@)
    }
}

spec fn names(entries: Seq<Entry>) -> Seq<Seq<char>> {
    entries.map_values(|entry: Entry| entry.username@)
}

spec fn mailboxes(entries: Seq<Entry>) -> Map<Seq<char>, Seq<Seq<char>>> {
    Map::new(
        |username: Seq<char>| names(entries).contains(username),
        |username: Seq<char>| entries[names(entries).index_of(username)].messages(),
    )
}

/// The registry of connected users.
#[derive(Debug)]
pub struct UserPool {
    entries: Vec<Entry>,
    capacity: usize,
}

impl View for UserPool {
    type V = UserPoolView;

    closed spec fn view(&self) -> UserPoolView {
        UserPoolView { mailboxes: mailboxes(self.entries@), capacity: self.capacity as nat }
    }
}

impl UserPool {
    #[verifier::type_invariant]
    spec fn well_formed(self) -> bool {
        &&& names(self.entries@).no_duplicates()
        &&& forall|i: int|
            0 <= i < self.entries@.len() ==> (#[trigger] self.entries@[i]).mailbox@.len()
                <= self.capacity
    }

    /// An empty pool whose mailboxes hold `MAILBOX_CAPACITY` messages.
    pub fn new() -> (pool: Self)
        ensures
            pool@.mailboxes == Map::<Seq<char>, Seq<Seq<char>>>::empty(),
            pool@.capacity == MAILBOX_CAPACITY,
    {
        UserPool::with_capacity(MAILBOX_CAPACITY)
    }

    /// An empty pool whose mailboxes hold `capacity` messages.
    pub fn with_capacity(capacity: usize) -> (pool: Self)
        ensures
            pool@.mailboxes == Map::<Seq<char>, Seq<Seq<char>>>::empty(),
            pool@.capacity == capacity,
    {
        UserPool { entries: Vec::new(), capacity }
    }

    /// Moves the entries out, to be changed and put back.
    fn take_entries(&mut self) -> (entries: Vec<Entry>)
        ensures
            entries == old(self).entries,
            final(self).entries@.len() == 0,
            final(self).capacity == old(self).capacity,
    {
        let mut entries: Vec<Entry> = Vec::new();
        core::mem::swap(&mut self.entries, &mut entries);
        entries
    }

    /// Where `username` stands among the entries.
    fn position(&self, username: &String) -> (found: Option<usize>)
        ensures
            match found {
                Some(i) => i < self.entries@.len() && names(self.entries@)[i as int] == username@,
                None => !names(self.entries@).contains(username@),
            },
    {
        let mut i: usize = 0;
        while i < self.entries.len()
            invariant
                i <= self.entries@.len(),
                forall|k: int| 0 <= k < i ==> names(self.entries@)[k] != username@,
            decreases self.entries@.len() - i,
        {
            if self.entries[i].username == *username {
                return Some(i);
            }
            i += 1;
        }
        None
    }

    /// Whether `username` is registered.
    pub fn contains(&self, username: &str) -> (found: bool)
        ensures
            found == self@.contains(username@),
    {
        let name = username.to_owned();
        self.position(&name).is_some()
    }

    /// The number of registered users.
    pub fn len(&self) -> (count: usize)
        ensures
            self@.mailboxes.dom().finite(),
            count == self@.mailboxes.dom().len(),
    {
        proof {
            use_type_invariant(self);
            let names = names(self.entries@);
            names.unique_seq_to_set();
            assert(self@.mailboxes.dom() =~= names.to_set());
        }
        self.entries.len()
    }

    /// The number of messages waiting for `username`, where the name is
    /// registered. It never exceeds the capacity.
    pub fn mailbox_len(&self, username: &str) -> (waiting: Option<usize>)
        ensures
            self@.bounded(),
            match waiting {
                Some(count) => self@.contains(username@) && count
                    == self@.mailboxes[username@].len(),
                None => !self@.contains(username@),
            },
    {
        proof {
            use_type_invariant(self);
            assert forall|name: Seq<char>| self@.contains(name) implies (
            #[trigger] self@.mailboxes[name]).len() <= self@.capacity by {
                let i = names(self.entries@).index_of(name);
                assert(self.entries@[i].mailbox@.len() <= self.capacity);
            }
        }
        let name = username.to_owned();
        match self.position(&name) {
            Some(i) => {
                assert(names(self.entries@).index_of(username@) == i);
                Some(self.entries[i].mailbox.len())
            },
            None => None,
        }
    }

    /// The number of messages a mailbox of this pool holds.
    pub fn capacity(&self) -> (capacity: usize)
        ensures
            capacity == self@.capacity,
    {
        self.capacity
    }

    /// Registers the user's name with an empty mailbox, unless the name is
    /// in use: then the pool stays as it is and the user is rejected. The
    /// name is taken as it is; an empty name is a name.
    pub fn add_user(&mut self, user: &User) -> (registration: Registration)
        ensures
            final(self)@ == old(self)@.add_user(user.username@),
            registration == old(self)@.registration(user.username@),
    {
        proof {
            use_type_invariant(&*self);
        }
        match self.position(&user.username) {
            Some(_) => Registration::Rejected,
            None => {
                let mut entries = self.take_entries();
                let entry = Entry { username: user.username.clone(), mailbox: Vec::new() };
                proof {
                    lemma_mailboxes_push(entries@, entry);
                    assert(entry.messages() =~= Seq::empty());
                }
                entries.push(entry);
                self.entries = entries;
                Registration::Admitted
            },
        }
    }

    /// Removes `username` and its mailbox. Where the name is not registered
    /// nothing changes: removing twice is removing once.
    pub fn remove_user_with_username(&mut self, username: String)
        ensures
            final(self)@ == old(self)@.remove_user(username@),
    {
        proof {
            use_type_invariant(&*self);
        }
        match self.position(&username) {
            Some(i) => {
                let mut entries = self.take_entries();
                proof {
                    lemma_mailboxes_remove(entries@, i as int);
                }
                entries.remove(i);
                self.entries = entries;
            },
            None => {},
        }
    }

    /// The frame that tells a user, on its own connection, that the name it
    /// asked for is taken. The user was never registered, so neither the
    /// pool nor any mailbox has a part in this.
    pub fn alert_duplicate_username(&self, user: &User) -> (notice: Result<
        Vec<u8>,
        ConnectionError,
    >)
        ensures
            bytes_of(notice) == sent(user.conn@.transport, CommandView::UsernameTaken),
    {
        user.conn.send_command(Command::UsernameTaken)
    }

    /// Acts on a command that the connection of `user` gave: a message is
    /// broadcast to the others, `leave` removes the user, and anything else
    /// is ignored.
    pub fn process_command(&mut self, command: Option<Command>, user: &User) -> (done: Processed)
        ensures
            final(self)@ == old(self)@.process_command(user.username@, view_of(command)),
            done == processed(view_of(command)),
    {
        match command {
            Some(Command::SendMessage(message)) => {
                self.broadcast(user.username.clone(), message.as_str());
                Processed::Broadcast
            },
            Some(Command::Leave) => {
                self.remove_user_with_username(user.username.clone());
                Processed::Left
            },
            _ => Processed::Ignored,
        }
    }

    /// Puts `message` last in the mailbox of every registered user but
    /// `sender_username`. A mailbox that is full takes nothing: for that
    /// user the message is lost. Nobody is added or removed, and the
    /// sender's own mailbox is never written to.
    pub fn broadcast(&mut self, sender_username: String, message: &str)
        ensures
            final(self)@ == old(self)@.broadcast(sender_username@, message@),
    {
        proof {
            use_type_invariant(&*self);
        }
        let ghost before = self.entries@;
        let capacity = self.capacity;
        let mut entries = self.take_entries();
        let mut i: usize = 0;
        while i < entries.len()
            invariant
                i <= entries@.len(),
                entries@.len() == before.len(),
                forall|k: int|
                    0 <= k < before.len() ==> (#[trigger] entries@[k]).username@
                        == before[k].username@,
                forall|k: int|
                    0 <= k < i ==> (#[trigger] entries@[k]).messages() == broadcast_to(
                        before[k],
                        sender_username@,
                        message@,
                        capacity as nat,
                    ),
                forall|k: int| i <= k < before.len() ==> #[trigger] entries@[k] == before[k],
                forall|k: int|
                    0 <= k < before.len() ==> (#[trigger] entries@[k]).mailbox@.len() <= capacity,
            decreases entries@.len() - i,
        {
            if entries[i].username != sender_username && entries[i].mailbox.len() < capacity {
                let ghost queued = entries@[i as int].messages();
                entries[i].mailbox.push(message.to_owned());
                assert(entries@[i as int].messages() =~= queued.push(message@));
            }
            i += 1;
        }
        proof {
            lemma_mailboxes_broadcast(
                before,
                entries@,
                sender_username@,
                message@,
                capacity as nat,
            );
            assert(names(entries@) =~= names(before));
        }
        self.entries = entries;
    }

    /// Takes the oldest waiting message of `username` out of its mailbox.
    /// There is none where the mailbox is empty or the name is not
    /// registered: the pool is then left as it is.
    pub fn take_message(&mut self, username: &str) -> (message: Option<String>)
        ensures
            final(self)@ == old(self)@.take_message(username@),
            match message {
                Some(text) => {
                    &&& old(self)@.contains(username@)
                    &&& old(self)@.mailboxes[username@].len() > 0
                    &&& text@ == old(self)@.mailboxes[username@][0]
                },
                None => !old(self)@.contains(username@) || old(self)@.mailboxes[username@].len()
                    == 0,
            },
    {
        proof {
            use_type_invariant(&*self);
        }
        let name = username.to_owned();
        match self.position(&name) {
            Some(i) => {
                if self.entries[i].mailbox.len() == 0 {
                    None
                } else {
                    let ghost before = self.entries@;
                    let mut entries = self.take_entries();
                    let text = entries[i].mailbox.remove(0);
                    proof {
                        assert(names(entries@) =~= names(before));
                        assert(names(before).index_of(username@) == i);
                        assert(entries@[i as int].messages() =~= before[i as int].messages().drop_first());
                        lemma_mailboxes_update(before, entries@, i as int);
                    }
                    self.entries = entries;
                    Some(text)
                }
            },
            None => None,
        }
    }
}

/// Two different names do not stand in each other's way: registering one
/// changes nothing for the other, so two names that are free are both
/// admitted, whichever comes first, and the pool they leave is the same.
pub proof fn lemma_distinct_names_both_admitted(
    pool: UserPoolView,
    first: Seq<char>,
    second: Seq<char>,
)
    requires
        first != second,
    ensures
        pool.add_user(first).registration(second) == pool.registration(second),
        pool.add_user(second).registration(first) == pool.registration(first),
        pool.add_user(first).add_user(second) == pool.add_user(second).add_user(first),
        pool.add_user(first).add_user(second).contains(first),
        pool.add_user(first).add_user(second).contains(second),
{
}

/// Of two registrations of one name exactly one is admitted: the name is
/// registered after the first, whatever came of it, and the second is
/// rejected and leaves the pool as it found it, the holder's mailbox
/// included.
pub proof fn lemma_same_name_admitted_once(pool: UserPoolView, username: Seq<char>)
    ensures
        pool.add_user(username).contains(username),
        pool.add_user(username).registration(username) == Registration::Rejected,
        pool.add_user(username).add_user(username) == pool.add_user(username),
        pool.registration(username) == Registration::Rejected ==> pool.add_user(username) == pool,
{
}

/// A broadcast reaches every other registered user whose mailbox has room:
/// the message stands last there, behind what was waiting. It never reaches
/// the sender's own mailbox, and it registers and removes nobody.
pub proof fn lemma_broadcast_reaches_others(
    pool: UserPoolView,
    sender: Seq<char>,
    message: Seq<char>,
)
    ensures
        forall|username: Seq<char>|
            pool.contains(username) && username != sender && pool.mailboxes[username].len()
                < pool.capacity ==> #[trigger] pool.broadcast(sender, message).mailboxes[username]
                == pool.mailboxes[username].push(message),
        pool.contains(sender) ==> pool.broadcast(sender, message).mailboxes[sender]
            == pool.mailboxes[sender],
        forall|username: Seq<char>|
            pool.broadcast(sender, message).contains(username) == pool.contains(username),
{
}

/// A broadcast loses a message only at a full mailbox, and changes nothing
/// there.
pub proof fn lemma_broadcast_spares_full_mailbox(
    pool: UserPoolView,
    sender: Seq<char>,
    message: Seq<char>,
    username: Seq<char>,
)
    requires
        pool.contains(username),
        pool.mailboxes[username].len() >= pool.capacity,
    ensures
        pool.broadcast(sender, message).mailboxes[username] == pool.mailboxes[username],
{
}

/// Messages of one sender arrive in the order in which they were sent.
pub proof fn lemma_broadcasts_keep_order(
    pool: UserPoolView,
    sender: Seq<char>,
    earlier: Seq<char>,
    later: Seq<char>,
    username: Seq<char>,
)
    requires
        pool.contains(username),
        username != sender,
        pool.mailboxes[username].len() + 2 <= pool.capacity,
    ensures
        pool.broadcast(sender, earlier).broadcast(sender, later).mailboxes[username]
            == pool.mailboxes[username].push(earlier).push(later),
{
}

/// A name that has been removed is free again: the next registration of it
/// is admitted, and begins with an empty mailbox.
pub proof fn lemma_removed_name_is_free(pool: UserPoolView, username: Seq<char>)
    ensures
        !pool.remove_user(username).contains(username),
        pool.remove_user(username).registration(username) == Registration::Admitted,
        pool.remove_user(username).add_user(username).contains(username),
        pool.remove_user(username).add_user(username).mailboxes[username] == Seq::<
            Seq<char>,
        >::empty(),
{
}

/// Removing a name that is not registered changes nothing, so removing a
/// name twice is removing it once.
pub proof fn lemma_remove_absent_name(pool: UserPoolView, username: Seq<char>)
    ensures
        !pool.contains(username) ==> pool.remove_user(username) == pool,
        pool.remove_user(username).remove_user(username) == pool.remove_user(username),
{
}

/// No operation of the pool fills a mailbox beyond the capacity.
pub proof fn lemma_mailboxes_stay_bounded(
    pool: UserPoolView,
    username: Seq<char>,
    message: Seq<char>,
)
    requires
        pool.bounded(),
    ensures
        pool.add_user(username).bounded(),
        pool.remove_user(username).bounded(),
        pool.broadcast(username, message).bounded(),
        pool.take_message(username).bounded(),
{
}

/// The messages of one entry after a broadcast.
spec fn broadcast_to(entry: Entry, sender: Seq<char>, message: Seq<char>, capacity: nat) -> Seq<
    Seq<char>,
> {
    if entry.username@ != sender && entry.messages().len() < capacity {
        entry.messages().push(message)
    } else {
        entry.messages()
    }
}

/// The mailboxes after every entry has been served by a broadcast.
proof fn lemma_mailboxes_broadcast(
    before: Seq<Entry>,
    after: Seq<Entry>,
    sender: Seq<char>,
    message: Seq<char>,
    capacity: nat,
)
    requires
        names(before).no_duplicates(),
        after.len() == before.len(),
        forall|k: int| 0 <= k < before.len() ==> (#[trigger] after[k]).username@ == before[k].username@,
        forall|k: int|
            0 <= k < before.len() ==> (#[trigger] after[k]).messages() == broadcast_to(
                before[k],
                sender,
                message,
                capacity,
            ),
    ensures
        names(after) == names(before),
        mailboxes(after) == (UserPoolView { mailboxes: mailboxes(before), capacity }).broadcast(
            sender,
            message,
        ).mailboxes,
{
    let pool = UserPoolView { mailboxes: mailboxes(before), capacity };
    assert(names(after) =~= names(before));
    assert forall|username: Seq<char>| names(before).contains(username) implies #[trigger] mailboxes(
        after,
    )[username] == pool.delivered(sender, message, username) by {
        let k = names(before).index_of(username);
        assert(after[k].messages() == broadcast_to(before[k], sender, message, capacity));
    }
    assert(mailboxes(after) =~= pool.broadcast(sender, message).mailboxes);
}

/// The mailboxes after the entry at `i` alone has changed its messages.
proof fn lemma_mailboxes_update(before: Seq<Entry>, after: Seq<Entry>, i: int)
    requires
        names(before).no_duplicates(),
        0 <= i < before.len(),
        after.len() == before.len(),
        names(after) == names(before),
        forall|k: int| 0 <= k < before.len() && k != i ==> #[trigger] after[k] == before[k],
    ensures
        mailboxes(after) == mailboxes(before).insert(before[i].username@, after[i].messages()),
{
    assert(names(before)[i] == before[i].username@);
    assert forall|username: Seq<char>| names(before).contains(username) implies #[trigger] mailboxes(
        after,
    )[username] == mailboxes(before).insert(before[i].username@, after[i].messages())[username] by {
        let k = names(before).index_of(username);
        assert(names(before)[k] == username);
    }
    assert(mailboxes(after) =~= mailboxes(before).insert(
        before[i].username@,
        after[i].messages(),
    ));
}

/// What the mailboxes become when an entry with a new name is added.
proof fn lemma_mailboxes_push(entries: Seq<Entry>, entry: Entry)
    requires
        names(entries).no_duplicates(),
        !names(entries).contains(entry.username@),
    ensures
        names(entries.push(entry)).no_duplicates(),
        mailboxes(entries.push(entry)) == mailboxes(entries).insert(
            entry.username@,
            entry.messages(),
        ),
{
    let after = entries.push(entry);
    assert(names(after) =~= names(entries).push(entry.username@));
    assert forall|username: Seq<char>| #[trigger]
        names(after).contains(username) == (names(entries).contains(username) || username
            == entry.username@) by {
        if names(entries).contains(username) {
            let i = names(entries).index_of(username);
            assert(names(after)[i] == username);
        }
        if username == entry.username@ {
            assert(names(after)[entries.len() as int] == username);
        }
    }
    assert forall|username: Seq<char>| names(after).contains(username) implies #[trigger] mailboxes(
        after,
    )[username] == mailboxes(entries).insert(entry.username@, entry.messages())[username] by {
        let i = names(after).index_of(username);
        if username != entry.username@ {
            let j = names(entries).index_of(username);
            assert(names(after)[j] == username);
        }
    }
    assert(mailboxes(after) =~= mailboxes(entries).insert(entry.username@, entry.messages()));
}

/// What the mailboxes become when the entry at `i` is removed.
proof fn lemma_mailboxes_remove(entries: Seq<Entry>, i: int)
    requires
        names(entries).no_duplicates(),
        0 <= i < entries.len(),
    ensures
        names(entries.remove(i)).no_duplicates(),
        mailboxes(entries.remove(i)) == mailboxes(entries).remove(entries[i].username@),
{
    let after = entries.remove(i);
    let gone = entries[i].username@;
    assert(names(after) =~= names(entries).remove(i));
    assert(names(entries)[i] == gone);
    assert forall|username: Seq<char>| #[trigger]
        names(after).contains(username) == (names(entries).contains(username) && username
            != gone) by {
        if names(after).contains(username) {
            let k = names(after).index_of(username);
            let j = if k < i { k } else { k + 1 };
            assert(names(entries)[j] == username);
        }
        if names(entries).contains(username) && username != gone {
            let j = names(entries).index_of(username);
            let k = if j < i { j } else { j - 1 };
            assert(names(after)[k] == username);
        }
    }
    assert forall|username: Seq<char>| names(after).contains(username) implies #[trigger] mailboxes(
        after,
    )[username] == mailboxes(entries)[username] by {
        let k = names(after).index_of(username);
        let j = if k < i { k } else { k + 1 };
        assert(names(entries)[j] == username);
        assert(names(entries).index_of(username) == j);
    }
    assert(mailboxes(after) =~= mailboxes(entries).remove(gone));
}

} // verus!
