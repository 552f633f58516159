//! Channels, and the table of all channels.

use std::collections::HashSet;

use vstd::prelude::*;

use crate::client::{among, lemma_among, ClientId};
use crate::text::{same_text, string_of};

verus! {

broadcast use vstd::std_specs::hash::group_hash_axioms;

/// A channel and its members.
#[derive(Debug)]
pub struct Channel {
    pub name: String,
    pub topic: Option<String>,
    pub members: HashSet<ClientId>,
}

/// A [`Channel`] as mathematical values.
#[verifier::ext_equal]
pub struct ChannelView {
    pub name: Seq<char>,
    pub topic: Option<Seq<char>>,
    pub members: Set<ClientId>,
}

impl View for Channel {
    type V = ChannelView;

    open spec fn view(&self) -> ChannelView {
        ChannelView {
            name: self.name@,
            topic: string_of(self.topic),
            members: self.members@,
        }
    }
}

impl Channel {
    /// A channel without a topic and without members.
    pub fn new(name: &str) -> (channel: Self)
        ensures
            channel@ == (ChannelView { name: name@, topic: None, members: Set::empty() }),
    {
        Self { name: name.to_string(), topic: None, members: HashSet::new() }
    }
}

impl ChannelView {
    /// The channel once `id` has left it.
    pub open spec fn without(self, id: ClientId) -> ChannelView {
        ChannelView { members: self.members.remove(id), ..self }
    }
}

/// The channels once `id` has left them all and those without members are gone.
pub open spec fn without_member(
    channels: Map<Seq<char>, ChannelView>,
    id: ClientId,
) -> Map<Seq<char>, ChannelView> {
    Map::new(
        |name: Seq<char>|
            channels.contains_key(name) && !channels[name].without(id).members.is_empty(),
        |name: Seq<char>| channels[name].without(id),
    )
}

/// Whether `id` and `peer` are two members of one channel.
pub open spec fn share_channel(
    channels: Map<Seq<char>, ChannelView>,
    id: ClientId,
    peer: ClientId,
) -> bool {
    &&& id != peer
    &&& exists|name: Seq<char>| #[trigger]
        channels.contains_key(name) && channels[name].members.contains(id)
            && channels[name].members.contains(peer)
}

/// The clients, other than `id`, in the channels of `id`.
pub open spec fn peers(channels: Map<Seq<char>, ChannelView>, id: ClientId) -> Set<ClientId> {
    Set::new(|peer: ClientId| share_channel(channels, id, peer))
}

/// A table from names to channels, each name at most once.
#[derive(Debug)]
pub struct ChannelMap {
    entries: Vec<(String, Channel)>,
}

/// Whether the entry at `i` has the name `name`.
spec fn named_at(entries: Seq<(String, Channel)>, name: Seq<char>, i: int) -> bool {
    0 <= i < entries.len() && entries[i].0@ == name
}

/// Whether no two entries have the same name.
spec fn distinct(entries: Seq<(String, Channel)>) -> bool {
    forall|i: int, j: int|
        0 <= i < j < entries.len() ==> #[trigger] entries[i].0@ != #[trigger] entries[j].0@
}

/// The table that a list of entries stands for.
spec fn table(entries: Seq<(String, Channel)>) -> Map<Seq<char>, ChannelView> {
    Map::new(
        |name: Seq<char>| exists|i: int| named_at(entries, name, i),
        |name: Seq<char>| entries[choose|i: int| named_at(entries, name, i)].1@,
    )
}

proof fn lemma_table_entry(entries: Seq<(String, Channel)>, i: int)
    requires
        distinct(entries),
        0 <= i < entries.len(),
    ensures
        table(entries).contains_key(entries[i].0@),
        table(entries)[entries[i].0@] == entries[i].1@,
{
    let name = entries[i].0@;
    assert(named_at(entries, name, i));
    let j = choose|j: int| named_at(entries, name, j);
    assert(i == j);
}

proof fn lemma_table_push(entries: Seq<(String, Channel)>, entry: (String, Channel))
    requires
        distinct(entries),
        !table(entries).contains_key(entry.0@),
    ensures
        distinct(entries.push(entry)),
        table(entries.push(entry)) == table(entries).insert(entry.0@, entry.1@),
{
    let more = entries.push(entry);
    assert forall|i: int| 0 <= i < entries.len() implies #[trigger] entries[i].0@ != entry.0@ by {
        assert(named_at(entries, entries[i].0@, i));
    }
    assert forall|i: int, j: int| 0 <= i < j < more.len() implies #[trigger] more[i].0@
        != #[trigger] more[j].0@ by {
        assert(more[i] == entries[i]);
        if j < entries.len() {
            assert(more[j] == entries[j]);
        }
    }
    assert forall|name: Seq<char>|
        #[trigger] table(more).contains_key(name) == table(entries).insert(
            entry.0@,
            entry.1@,
        ).contains_key(name) && (table(more).contains_key(name) ==> table(more)[name] == table(
            entries,
        ).insert(entry.0@, entry.1@)[name]) by {
        if table(more).contains_key(name) {
            let i = choose|i: int| named_at(more, name, i);
            lemma_table_entry(more, i);
            if i < entries.len() {
                assert(more[i] == entries[i]);
                lemma_table_entry(entries, i);
            }
        }
        if table(entries).contains_key(name) {
            let i = choose|i: int| named_at(entries, name, i);
            assert(named_at(more, name, i));
        }
        if name == entry.0@ {
            assert(named_at(more, name, entries.len() as int));
        }
    }
    assert(table(more) =~= table(entries).insert(entry.0@, entry.1@));
}

proof fn lemma_table_remove(entries: Seq<(String, Channel)>, place: int)
    requires
        distinct(entries),
        0 <= place < entries.len(),
    ensures
        distinct(entries.remove(place)),
        table(entries.remove(place)) == table(entries).remove(entries[place].0@),
{
    let fewer = entries.remove(place);
    let gone = entries[place].0@;
    assert forall|i: int, j: int| 0 <= i < j < fewer.len() implies #[trigger] fewer[i].0@
        != #[trigger] fewer[j].0@ by {
        let i0 = if i < place { i } else { i + 1 };
        let j0 = if j < place { j } else { j + 1 };
        assert(entries[i0].0@ != entries[j0].0@);
    }
    assert forall|name: Seq<char>|
        #[trigger] table(fewer).contains_key(name) == table(entries).remove(gone).contains_key(name)
            && (table(fewer).contains_key(name) ==> table(fewer)[name] == table(entries).remove(
            gone,
        )[name]) by {
        if table(fewer).contains_key(name) {
            let i = choose|i: int| named_at(fewer, name, i);
            lemma_table_entry(fewer, i);
            let i0 = if i < place { i } else { i + 1 };
            lemma_table_entry(entries, i0);
            assert(entries[i0].0@ == name);
        }
        if table(entries).contains_key(name) && name != gone {
            let i0 = choose|i: int| named_at(entries, name, i);
            let i = if i0 < place { i0 } else { i0 - 1 };
            assert(named_at(fewer, name, i));
        }
    }
    assert(table(fewer) =~= table(entries).remove(gone));
}

impl View for ChannelMap {
    type V = Map<Seq<char>, ChannelView>;

    closed spec fn view(&self) -> Map<Seq<char>, ChannelView> {
        table(self.entries@)
    }
}

impl ChannelMap {
    #[verifier::type_invariant]
    spec fn well_formed(&self) -> bool {
        distinct(self.entries@)
    }

    /// A table without channels.
    pub fn new() -> (channels: Self)
        ensures
            channels@ == Map::<Seq<char>, ChannelView>::empty(),
    {
        let channels = Self { entries: Vec::new() };
        assert(channels@ =~= Map::<Seq<char>, ChannelView>::empty());
        channels
    }

    /// The place of the entry with the name `name`.
    fn find(&self, name: &str) -> (place: Option<usize>)
        ensures
            match place {
                Some(i) => named_at(self.entries@, name@, i as int),
                None => !self@.contains_key(name@),
            },
    {
        for i in 0..self.entries.len()
            invariant
                forall|j: int| 0 <= j < i ==> #[trigger] self.entries@[j].0@ != name@,
        {
            if same_text(self.entries[i].0.as_str(), name) {
                return Some(i);
            }
        }
        None
    }

    /// The channel with the name `name`.
    pub fn get(&self, name: &str) -> (channel: Option<&Channel>)
        ensures
            match channel {
                Some(channel) => self@.contains_key(name@) && channel@ == self@[name@],
                None => !self@.contains_key(name@),
            },
    {
        proof {
            use_type_invariant(self);
        }
        match self.find(name) {
            Some(i) => {
                proof {
                    lemma_table_entry(self.entries@, i as int);
                }
                Some(&self.entries[i].1)
            },
            None => None,
        }
    }

    /// Whether there is a channel with the name `name`.
    pub fn contains_key(&self, name: &str) -> (found: bool)
        ensures
            found == self@.contains_key(name@),
    {
        self.get(name).is_some()
    }
}

/// Whether one of the first `n` entries has both `id` and `peer` as members.
spec fn share_entry(
    entries: Seq<(String, Channel)>,
    n: int,
    id: ClientId,
    peer: ClientId,
) -> bool {
    exists|i: int|
        0 <= i < n && (#[trigger] entries[i]).1.members@.contains(id)
            && entries[i].1.members@.contains(peer)
}

impl ChannelMap {
    /// Removes and returns the channel with the name `name`.
    pub fn remove(&mut self, name: &str) -> (removed: Option<Channel>)
        ensures
            final(self)@ == old(self)@.remove(name@),
            match removed {
                Some(channel) => old(self)@.contains_key(name@) && channel@ == old(self)@[name@],
                None => !old(self)@.contains_key(name@),
            },
    {
        proof {
            use_type_invariant(&*self);
        }
        match self.find(name) {
            Some(i) => {
                let mut entries: Vec<(String, Channel)> = Vec::new();
                std::mem::swap(&mut entries, &mut self.entries);
                proof {
                    lemma_table_entry(entries@, i as int);
                    lemma_table_remove(entries@, i as int);
                }
                let (_, channel) = entries.remove(i);
                self.entries = entries;
                Some(channel)
            },
            None => {
                assert(self@.remove(name@) =~= self@);
                None
            },
        }
    }

    /// Puts `channel` into the table under the name `name`, and returns the channel that had this
    /// name before.
    pub fn insert(&mut self, name: String, channel: Channel) -> (replaced: Option<Channel>)
        ensures
            final(self)@ == old(self)@.insert(name@, channel@),
            match replaced {
                Some(before) => old(self)@.contains_key(name@) && before@ == old(self)@[name@],
                None => !old(self)@.contains_key(name@),
            },
    {
        let ghost before = self@;
        let replaced = self.remove(name.as_str());
        proof {
            use_type_invariant(&*self);
        }
        let mut entries: Vec<(String, Channel)> = Vec::new();
        std::mem::swap(&mut entries, &mut self.entries);
        proof {
            lemma_table_push(entries@, (name, channel));
            assert(before.remove(name@).insert(name@, channel@) =~= before.insert(
                name@,
                channel@,
            ));
        }
        entries.push((name, channel));
        self.entries = entries;
        replaced
    }

    /// The clients, other than `id`, in the channels of `id`.
    pub fn peers_of(&self, id: ClientId) -> (found: HashSet<ClientId>)
        ensures
            found@ == peers(self@, id),
    {
        proof {
            use_type_invariant(self);
        }
        let mut found: HashSet<ClientId> = HashSet::new();
        for i in 0..self.entries.len()
            invariant
                forall|peer: ClientId| #[trigger]
                    found@.contains(peer) <==> peer != id && share_entry(
                        self.entries@,
                        i as int,
                        id,
                        peer,
                    ),
        {
            let members = &self.entries[i].1.members;
            let ghost before = found@;
            if members.contains(&id) {
                let iter = members.iter();
                let ghost ids = vstd::std_specs::iter::IteratorSpec::remaining(&iter);
                proof {
                    lemma_among(ids, members@);
                }
                for member in it: iter
                    invariant
                        it.seq() == ids,
                        forall|peer: ClientId| #[trigger]
                            found@.contains(peer) <==> before.contains(peer) || peer != id
                                && among(ids, it.index() as int, peer),
                {
                    if *member != id {
                        found.insert(*member);
                    }
                }
            }
            proof {
                assert forall|peer: ClientId| #[trigger]
                    found@.contains(peer) <==> peer != id && share_entry(
                        self.entries@,
                        i + 1,
                        id,
                        peer,
                    ) by {
                    if share_entry(self.entries@, i as int, id, peer) {
                        let j = choose|j: int|
                            0 <= j < i && (#[trigger] self.entries@[j]).1.members@.contains(id)
                                && self.entries@[j].1.members@.contains(peer);
                        assert(0 <= j < i + 1);
                    }
                    if members@.contains(id) && members@.contains(peer) {
                        assert(self.entries@[i as int].1.members@.contains(id));
                    }
                }
            }
        }
        proof {
            let entries = self.entries@;
            assert forall|peer: ClientId| #[trigger]
                found@.contains(peer) <==> peers(self@, id).contains(peer) by {
                if found@.contains(peer) {
                    let i = choose|i: int|
                        0 <= i < entries.len() && (#[trigger] entries[i]).1.members@.contains(id)
                            && entries[i].1.members@.contains(peer);
                    lemma_table_entry(entries, i);
                    assert(self@.contains_key(entries[i].0@));
                }
                if share_channel(self@, id, peer) {
                    let name = choose|name: Seq<char>| #[trigger]
                        self@.contains_key(name) && self@[name].members.contains(id)
                            && self@[name].members.contains(peer);
                    let i = choose|i: int| named_at(entries, name, i);
                    lemma_table_entry(entries, i);
                    assert(entries[i].1.members@.contains(id));
                }
            }
            assert(found@ =~= peers(self@, id));
        }
        found
    }

    /// Takes `id` out of every channel, and the channels that are then without members out of the
    /// table.
    pub fn remove_member(&mut self, id: ClientId)
        ensures
            final(self)@ == without_member(old(self)@, id),
    {
        proof {
            use_type_invariant(&*self);
        }
        let ghost before = self@;
        let mut entries: Vec<(String, Channel)> = Vec::new();
        std::mem::swap(&mut entries, &mut self.entries);
        let mut kept: Vec<(String, Channel)> = Vec::new();
        assert(table(kept@) =~= Map::<Seq<char>, ChannelView>::empty());
        while entries.len() > 0
            invariant
                distinct(entries@),
                distinct(kept@),
                forall|name: Seq<char>| #[trigger]
                    table(entries@).contains_key(name) ==> before.contains_key(name) && table(
                        entries@,
                    )[name] == before[name] && !table(kept@).contains_key(name),
                forall|name: Seq<char>| #[trigger]
                    table(kept@).contains_key(name) ==> without_member(before, id).contains_key(
                        name,
                    ) && table(kept@)[name] == without_member(before, id)[name],
                forall|name: Seq<char>| #[trigger]
                    without_member(before, id).contains_key(name) ==> table(
                        entries@,
                    ).contains_key(name) || table(kept@).contains_key(name),
            decreases entries.len(),
        {
            let ghost last = entries@.len() - 1;
            proof {
                lemma_table_entry(entries@, last);
                lemma_table_remove(entries@, last);
                assert(entries@.remove(last) =~= entries@.drop_last());
            }
            let (name, mut channel) = entries.pop().unwrap();
            channel.members.remove(&id);
            if !channel.members.is_empty() {
                proof {
                    lemma_table_push(kept@, (name, channel));
                }
                kept.push((name, channel));
            }
        }
        proof {
            assert(forall|name: Seq<char>| !#[trigger] table(entries@).contains_key(name));
            assert(table(kept@) =~= without_member(before, id));
        }
        self.entries = kept;
    }
}

} // verus!
