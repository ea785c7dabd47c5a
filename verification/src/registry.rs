//! The routing substrate: a directory from username to a bounded delivery
//! queue, together with a generation counter that tells a session's own
//! registration apart from a later one under the same username.
//!
//! - `register` installs a fresh empty queue under a username, replacing any
//!   prior entry (last registration wins) and handing back a generation that
//!   no earlier entry carries.
//! - `send` enqueues for an existing username without ever blocking: an
//!   unknown username is reported as `NotFound` and changes nothing, a queue
//!   at capacity drops the newest message and reports `Full`.
//! - `pop` hands the owning session the front of its queue, in enqueue order,
//!   and only while its generation is still the registered one.
//! - `unregister` removes the entry only if the caller's generation still
//!   matches, so a terminating old session never clobbers its replacement.

use vstd::prelude::*;

use crate::error::ServerError;
use crate::msg::{Msg, MsgModel};

verus! {

/// Capacity of every delivery queue: a saturated consumer costs at most this
/// many pending messages, and never stalls a producer.
pub const QUEUE_CAPACITY: usize = 10;

/// Mathematical image of one registry entry: the generation of the session
/// that owns it and the messages waiting for delivery, front first.
pub struct ChannelModel {
    pub generation: u64,
    pub queue: Seq<MsgModel>,
}

/// Mathematical image of the whole registry.
pub struct RegistryModel {
    pub channels: Map<Seq<char>, ChannelModel>,
    pub next_generation: u64,
}

/// The invariant visible to callers: every live entry carries a generation
/// older than the one the next registration will get, and no queue exceeds
/// its capacity.
pub open spec fn inv(m: RegistryModel) -> bool {
    forall|u: Seq<char>| #[trigger] m.channels.contains_key(u) ==> {
        &&& m.channels[u].generation < m.next_generation
        &&& m.channels[u].queue.len() <= QUEUE_CAPACITY
    }
}

struct Entry {
    username: String,
    generation: u64,
    queue: Vec<Msg>,
}

/// The username-to-queue directory.
pub struct Registry {
    entries: Vec<Entry>,
    next_generation: u64,
}

spec fn entry_model(e: Entry) -> ChannelModel {
    ChannelModel { generation: e.generation, queue: e.queue@.map_values(|m: Msg| m@) }
}

spec fn entries_map(s: Seq<Entry>) -> Map<Seq<char>, ChannelModel>
    decreases s.len(),
{
    if s.len() == 0 {
        Map::<Seq<char>, ChannelModel>::empty()
    } else {
        entries_map(s.drop_last()).insert(s.last().username@, entry_model(s.last()))
    }
}

spec fn unique_usernames(s: Seq<Entry>) -> bool {
    forall|i: int, j: int|
        #![trigger s[i].username, s[j].username]
        0 <= i < j < s.len() ==> s[i].username@ != s[j].username@
}

impl View for Registry {
    type V = RegistryModel;

    closed spec fn view(&self) -> RegistryModel {
        RegistryModel {
            channels: entries_map(self.entries@),
            next_generation: self.next_generation,
        }
    }
}

/// The keys of `entries_map` are exactly the entries' usernames, each mapped
/// to the model of its (unique) entry.
proof fn lemma_entries_map(s: Seq<Entry>)
    requires
        unique_usernames(s),
    ensures
        forall|i: int|
            0 <= i < s.len() ==> entries_map(s).contains_key(#[trigger] s[i].username@),
        forall|i: int|
            0 <= i < s.len() ==> entries_map(s)[#[trigger] s[i].username@] == entry_model(s[i]),
        forall|u: Seq<char>|
            #[trigger] entries_map(s).contains_key(u) ==> exists|i: int|
                0 <= i < s.len() && s[i].username@ == u,
    decreases s.len(),
{
    if s.len() > 0 {
        assert(forall|i: int, j: int|
            #![trigger s.drop_last()[i].username, s.drop_last()[j].username]
            0 <= i < j < s.drop_last().len() ==> s.drop_last()[i].username@
                != s.drop_last()[j].username@) by {
            assert(forall|i: int| 0 <= i < s.drop_last().len() ==> s.drop_last()[i] == s[i]);
        }
        lemma_entries_map(s.drop_last());
        assert(forall|i: int| 0 <= i < s.len() - 1 ==> s.drop_last()[i] == s[i]);
        assert(forall|i: int| 0 <= i < s.len() - 1 ==> s[i].username@ != s.last().username@);
        assert forall|u: Seq<char>| #[trigger] entries_map(s).contains_key(u) implies exists|i: int|
            0 <= i < s.len() && s[i].username@ == u by {
            if u == s.last().username@ {
                assert(s[s.len() - 1].username@ == u);
            } else {
                assert(entries_map(s.drop_last()).contains_key(u));
                let i = choose|i: int|
                    0 <= i < s.drop_last().len() && s.drop_last()[i].username@ == u;
                assert(s[i].username@ == u);
                assert(0 <= i < s.len() && s[i].username@ == u);
            }
        }
    }
}

/// Replacing entry `i` by one under the same username updates the map at
/// that key alone.
proof fn lemma_entries_map_update(s: Seq<Entry>, i: int, e: Entry)
    requires
        unique_usernames(s),
        0 <= i < s.len(),
        e.username@ == s[i].username@,
    ensures
        entries_map(s.update(i, e)) == entries_map(s).insert(e.username@, entry_model(e)),
        unique_usernames(s.update(i, e)),
    decreases s.len(),
{
    let t = s.update(i, e);
    assert(unique_usernames(t)) by {
        assert(forall|k: int| 0 <= k < t.len() ==> #[trigger] t[k].username@ == s[k].username@);
    }
    if i == s.len() - 1 {
        assert(t.drop_last() =~= s.drop_last());
        assert(t.last() == e);
        assert(entries_map(t) == entries_map(s.drop_last()).insert(e.username@, entry_model(e)));
        assert(entries_map(s.drop_last()).insert(e.username@, entry_model(e)) =~= entries_map(
            s,
        ).insert(e.username@, entry_model(e)));
    } else {
        assert(t.drop_last() =~= s.drop_last().update(i, e));
        assert(t.last() == s.last());
        assert(forall|a: int, b: int|
            #![trigger s.drop_last()[a].username, s.drop_last()[b].username]
            0 <= a < b < s.drop_last().len() ==> s.drop_last()[a].username@
                != s.drop_last()[b].username@) by {
            assert(forall|a: int| 0 <= a < s.drop_last().len() ==> s.drop_last()[a] == s[a]);
        }
        lemma_entries_map_update(s.drop_last(), i, e);
        assert(s.last().username@ != e.username@) by {
            assert(s[i].username@ != s[s.len() - 1].username@);
        }
        assert(entries_map(t) == entries_map(s.drop_last()).insert(
            e.username@,
            entry_model(e),
        ).insert(s.last().username@, entry_model(s.last())));
        assert(entries_map(t) =~= entries_map(s).insert(e.username@, entry_model(e)));
    }
}

/// Removing entry `i` removes the map entry at its username alone.
proof fn lemma_entries_map_remove(s: Seq<Entry>, i: int)
    requires
        unique_usernames(s),
        0 <= i < s.len(),
    ensures
        entries_map(s.remove(i)) == entries_map(s).remove(s[i].username@),
        unique_usernames(s.remove(i)),
    decreases s.len(),
{
    let t = s.remove(i);
    assert(unique_usernames(t)) by {
        assert(forall|k: int|
            0 <= k < t.len() ==> #[trigger] t[k] == (if k < i {
                s[k]
            } else {
                s[k + 1]
            }));
    }
    lemma_entries_map(s);
    if i == s.len() - 1 {
        assert(t =~= s.drop_last());
        assert(!entries_map(s.drop_last()).contains_key(s[i].username@)) by {
            assert(forall|a: int|
                #![trigger s.drop_last()[a].username]
                0 <= a < s.drop_last().len() ==> s.drop_last()[a] == s[a]);
            assert(forall|a: int| 0 <= a < s.len() - 1 ==> s[a].username@ != s[i].username@);
            lemma_entries_map(s.drop_last());
        }
        assert(entries_map(t) =~= entries_map(s).remove(s[i].username@));
    } else {
        assert(t.drop_last() =~= s.drop_last().remove(i));
        assert(t.last() == s.last());
        assert(forall|a: int, b: int|
            #![trigger s.drop_last()[a].username, s.drop_last()[b].username]
            0 <= a < b < s.drop_last().len() ==> s.drop_last()[a].username@
                != s.drop_last()[b].username@) by {
            assert(forall|a: int| 0 <= a < s.drop_last().len() ==> s.drop_last()[a] == s[a]);
        }
        lemma_entries_map_remove(s.drop_last(), i);
        assert(s.last().username@ != s[i].username@) by {
            assert(s[i].username@ != s[s.len() - 1].username@);
        }
        assert(entries_map(t) == entries_map(s.drop_last()).remove(s[i].username@).insert(
            s.last().username@,
            entry_model(s.last()),
        ));
        assert(entries_map(t) =~= entries_map(s).remove(s[i].username@));
    }
}

impl Registry {
    /// Representation invariant: usernames are distinct, generations are
    /// older than `next_generation`, queues fit their capacity.
    pub closed spec fn wf(self) -> bool {
        &&& unique_usernames(self.entries@)
        &&& forall|i: int|
            0 <= i < self.entries@.len() ==> (#[trigger] self.entries@[i]).generation
                < self.next_generation
        &&& forall|i: int|
            0 <= i < self.entries@.len() ==> (#[trigger] self.entries@[i]).queue@.len()
                <= QUEUE_CAPACITY
    }

    /// A well-formed registry presents a model satisfying [`inv`].
    pub proof fn lemma_inv(self)
        requires
            self.wf(),
        ensures
            inv(self@),
    {
        lemma_entries_map(self.entries@);
    }

    pub fn new() -> (r: Registry)
        ensures
            r.wf(),
            r@.channels == Map::<Seq<char>, ChannelModel>::empty(),
            r@.next_generation == 0,
    {
        Registry { entries: Vec::new(), next_generation: 0 }
    }

    fn find_index(&self, username: &String) -> (r: Option<usize>)
        ensures
            match r {
                Some(i) => i < self.entries@.len() && self.entries@[i as int].username@
                    == username@,
                None => forall|i: int|
                    0 <= i < self.entries@.len() ==> (#[trigger] self.entries@[i]).username@
                        != username@,
            },
    {
        let mut i: usize = 0;
        while i < self.entries.len()
            invariant
                i <= self.entries@.len(),
                forall|j: int|
                    0 <= j < i ==> (#[trigger] self.entries@[j]).username@ != username@,
            decreases self.entries@.len() - i,
        {
            if self.entries[i].username == *username {
                return Some(i);
            }
            i = i + 1;
        }
        None
    }

    /// Install a fresh empty queue under `username`, replacing any prior
    /// entry, and return the generation the new entry carries. Every earlier
    /// registration's generation is strictly smaller, so none matches `g`.
    pub fn register(&mut self, username: String) -> (g: u64)
        requires
            old(self).wf(),
            old(self)@.next_generation < u64::MAX,
        ensures
            final(self).wf(),
            g == old(self)@.next_generation,
            final(self)@.next_generation == g + 1,
            final(self)@.channels == old(self)@.channels.insert(
                username@,
                ChannelModel { generation: g, queue: Seq::empty() },
            ),
    {
        let g = self.next_generation;
        self.next_generation = g + 1;
        let entry = Entry { username, generation: g, queue: Vec::new() };
        let ghost u = entry.username@;
        let ghost s = self.entries@;
        assert(entry_model(entry).queue =~= Seq::<MsgModel>::empty());
        match self.find_index(&entry.username) {
            Some(i) => {
                proof {
                    lemma_entries_map_update(s, i as int, entry);
                }
                let slot = &mut self.entries[i];
                *slot = entry;
            },
            None => {
                self.entries.push(entry);
                proof {
                    assert(self.entries@.drop_last() =~= s);
                    assert(unique_usernames(self.entries@)) by {
                        assert(forall|k: int| 0 <= k < s.len() ==> self.entries@[k] == s[k]);
                        assert(forall|k: int|
                            0 <= k < s.len() ==> (#[trigger] s[k]).username@ != u);
                    }
                }
            },
        }
        g
    }

    /// Attempt a non-blocking enqueue for `username`. Exactly one of three
    /// things happens: the message is appended at the tail of the existing
    /// queue; the username is unknown and nothing changes (`NotFound`); the
    /// queue is at capacity, the newest message is dropped and nothing
    /// changes (`Full`).
    pub fn send(&mut self, username: &String, msg: Msg) -> (r: Result<(), ServerError>)
        requires
            old(self).wf(),
        ensures
            final(self).wf(),
            final(self)@.next_generation == old(self)@.next_generation,
            r is Ok <==> old(self)@.channels.contains_key(username@)
                && old(self)@.channels[username@].queue.len() < QUEUE_CAPACITY,
            r == Err::<(), ServerError>(ServerError::NotFound) <==> !old(
                self,
            )@.channels.contains_key(username@),
            r == Err::<(), ServerError>(ServerError::Full) <==> old(self)@.channels.contains_key(
                username@,
            ) && old(self)@.channels[username@].queue.len() == QUEUE_CAPACITY,
            r is Ok ==> final(self)@.channels == old(self)@.channels.insert(
                username@,
                ChannelModel {
                    generation: old(self)@.channels[username@].generation,
                    queue: old(self)@.channels[username@].queue.push(msg@),
                },
            ),
            !(r is Ok) ==> *final(self) == *old(self),
    {
        let ghost s = self.entries@;
        proof {
            lemma_entries_map(s);
        }
        match self.find_index(username) {
            None => Err(ServerError::NotFound),
            Some(i) => {
                let ghost old_entry = s[i as int];
                if self.entries[i].queue.len() == QUEUE_CAPACITY {
                    Err(ServerError::Full)
                } else {
                    let slot = &mut self.entries[i];
                    slot.queue.push(msg);
                    proof {
                        let new_entry = self.entries@[i as int];
                        assert(entry_model(new_entry).queue =~= entry_model(old_entry).queue.push(
                            msg@,
                        ));
                        lemma_entries_map_update(s, i as int, new_entry);
                        assert(self.entries@ =~= s.update(i as int, new_entry));
                    }
                    Ok(())
                }
            },
        }
    }

    /// Dequeue the front message for `username`, provided the entry still
    /// belongs to generation `generation` and has something queued; in every
    /// other case nothing changes and `None` comes back. Messages leave in
    /// the order `send` appended them.
    pub fn pop(&mut self, username: &String, generation: u64) -> (r: Option<Msg>)
        requires
            old(self).wf(),
        ensures
            final(self).wf(),
            final(self)@.next_generation == old(self)@.next_generation,
            ({
                let live = old(self)@.channels.contains_key(username@)
                    && old(self)@.channels[username@].generation == generation;
                if live && old(self)@.channels[username@].queue.len() > 0 {
                    &&& r matches Some(m) && m@ == old(self)@.channels[username@].queue[0]
                    &&& final(self)@.channels == old(self)@.channels.insert(
                        username@,
                        ChannelModel {
                            generation,
                            queue: old(self)@.channels[username@].queue.drop_first(),
                        },
                    )
                } else {
                    r is None && *final(self) == *old(self)
                }
            }),
    {
        let ghost s = self.entries@;
        proof {
            lemma_entries_map(s);
        }
        match self.find_index(username) {
            None => None,
            Some(i) => {
                if self.entries[i].generation != generation {
                    None
                } else if self.entries[i].queue.len() == 0 {
                    None
                } else {
                    let ghost old_entry = s[i as int];
                    let slot = &mut self.entries[i];
                    let m = slot.queue.remove(0);
                    proof {
                        let new_entry = self.entries@[i as int];
                        assert(old_entry.queue@.remove(0) =~= old_entry.queue@.subrange(
                            1,
                            old_entry.queue@.len() as int,
                        ));
                        assert(entry_model(new_entry).queue =~= entry_model(
                            old_entry,
                        ).queue.drop_first());
                        lemma_entries_map_update(s, i as int, new_entry);
                        assert(self.entries@ =~= s.update(i as int, new_entry));
                    }
                    Some(m)
                }
            },
        }
    }

    /// Whether any session is currently registered under `username`.
    pub fn contains_user(&self, username: &String) -> (b: bool)
        requires
            self.wf(),
        ensures
            b == self@.channels.contains_key(username@),
    {
        proof {
            lemma_entries_map(self.entries@);
        }
        match self.find_index(username) {
            Some(_) => true,
            None => false,
        }
    }

    /// How many messages wait under `username`, if anyone is registered
    /// there.
    pub fn queue_len(&self, username: &String) -> (n: Option<usize>)
        requires
            self.wf(),
        ensures
            match n {
                Some(l) => self@.channels.contains_key(username@) && l
                    == self@.channels[username@].queue.len(),
                None => !self@.channels.contains_key(username@),
            },
    {
        proof {
            lemma_entries_map(self.entries@);
        }
        match self.find_index(username) {
            Some(i) => Some(self.entries[i].queue.len()),
            None => None,
        }
    }

    /// The generation of the session currently registered under
    /// `username`, if any.
    pub fn generation_of(&self, username: &String) -> (g: Option<u64>)
        requires
            self.wf(),
        ensures
            match g {
                Some(x) => self@.channels.contains_key(username@) && x
                    == self@.channels[username@].generation,
                None => !self@.channels.contains_key(username@),
            },
    {
        proof {
            lemma_entries_map(self.entries@);
        }
        match self.find_index(username) {
            Some(i) => Some(self.entries[i].generation),
            None => None,
        }
    }

    /// Whether another registration can still be handed a fresh generation.
    pub fn can_register(&self) -> (b: bool)
        ensures
            b == (self@.next_generation < u64::MAX),
    {
        self.next_generation < u64::MAX
    }

    /// Remove the entry under `username` only if it is still the one that
    /// `generation` was handed out for; a stale caller changes nothing, so a
    /// terminating old session never removes its replacement's entry.
    pub fn unregister(&mut self, username: &String, generation: u64)
        requires
            old(self).wf(),
        ensures
            final(self).wf(),
            final(self)@.next_generation == old(self)@.next_generation,
            if old(self)@.channels.contains_key(username@)
                && old(self)@.channels[username@].generation == generation {
                final(self)@.channels == old(self)@.channels.remove(username@)
            } else {
                *final(self) == *old(self)
            },
    {
        let ghost s = self.entries@;
        proof {
            lemma_entries_map(s);
        }
        match self.find_index(username) {
            None => (),
            Some(i) => {
                if self.entries[i].generation == generation {
                    proof {
                        lemma_entries_map_remove(s, i as int);
                    }
                    self.entries.remove(i);
                }
            },
        }
    }
}

/// No live entry carries the generation the next registration will get, so
/// a replaced session's generation can never collide with its
/// replacement's.
pub proof fn lemma_next_generation_fresh(m: RegistryModel, u: Seq<char>)
    requires
        inv(m),
        m.channels.contains_key(u),
    ensures
        m.channels[u].generation != m.next_generation,
{
}

/// Last registration wins: the entry a new registration installs under `u`
/// carries a generation the replaced session's does not match, so the old
/// session's dequeues and its unregistration — both of which act only on a
/// matching generation — touch the new entry never.
pub proof fn lemma_last_registration_wins(m: RegistryModel, u: Seq<char>)
    requires
        inv(m),
        m.channels.contains_key(u),
    ensures
        (m.channels.insert(
            u,
            ChannelModel { generation: m.next_generation, queue: Seq::empty() },
        ))[u].generation != m.channels[u].generation,
{
}

/// Messages accepted for one username leave in arrival order: two accepted
/// sends stand behind the queue's earlier content, oldest first, and
/// dequeuing drains the queue front first.
pub proof fn lemma_fifo_order(q: Seq<MsgModel>, m1: MsgModel, m2: MsgModel)
    ensures
        q.push(m1).push(m2).len() == q.len() + 2,
        forall|i: int| 0 <= i < q.len() ==> q.push(m1).push(m2)[i] == q[i],
        q.push(m1).push(m2).skip(q.len() as int) == seq![m1, m2],
{
    assert(q.push(m1).push(m2).skip(q.len() as int) =~= seq![m1, m2]);
}

} // verus!
