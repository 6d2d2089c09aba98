use std::collections::HashMap;
use vstd::prelude::*;

use crate::protocol::{event_reaches, required_view, tags_view, Envelope};
use crate::tags::TagSet;

verus! {

broadcast use vstd::std_specs::hash::group_hash_axioms;

/// The clients an event reaches: every registered client other than the
/// sender whose tags satisfy the requirement.
pub open spec fn audience(
    clients: Map<u128, Set<Seq<char>>>,
    required: Option<Set<Seq<char>>>,
    sender: Option<u128>,
) -> Set<u128> {
    clients.dom().filter(|id: u128| sender != Some(id) && event_reaches(required, clients[id]))
}

/// The tags after `tag` is added to `client`; a client that is not
/// registered is left alone.
pub open spec fn with_tag_added(
    clients: Map<u128, Set<Seq<char>>>,
    client: u128,
    tag: Seq<char>,
) -> Map<u128, Set<Seq<char>>> {
    if clients.contains_key(client) {
        clients.insert(client, clients[client].insert(tag))
    } else {
        clients
    }
}

/// The tags after `tag` is removed from `client`; a client that is not
/// registered is left alone.
pub open spec fn with_tag_removed(
    clients: Map<u128, Set<Seq<char>>>,
    client: u128,
    tag: Seq<char>,
) -> Map<u128, Set<Seq<char>>> {
    if clients.contains_key(client) {
        clients.insert(client, clients[client].remove(tag))
    } else {
        clients
    }
}

/// The tags of every client after an envelope is applied: a send changes
/// nothing, a tag mutation changes the named client if it is registered.
pub open spec fn tags_after<D>(
    clients: Map<u128, Set<Seq<char>>>,
    envelope: Envelope<D>,
) -> Map<u128, Set<Seq<char>>> {
    match envelope {
        Envelope::Send { .. } => clients,
        Envelope::TagAdd { client, tag } => with_tag_added(clients, client, tag@),
        Envelope::TagRemove { client, tag } => with_tag_removed(clients, client, tag@),
    }
}

/// The tags of every client after the envelopes are applied in order.
pub open spec fn tags_after_all<D>(
    clients: Map<u128, Set<Seq<char>>>,
    envelopes: Seq<Envelope<D>>,
) -> Map<u128, Set<Seq<char>>>
    decreases envelopes.len(),
{
    if envelopes.len() == 0 {
        clients
    } else {
        tags_after(tags_after_all(clients, envelopes.drop_last()), envelopes.last())
    }
}

/// What an instance does after applying an envelope.
pub enum Action<D> {
    /// Send `payload` to each of `recipients`.
    Deliver { recipients: Vec<u128>, payload: D },
    /// Tell `client` its tag set, which is now `tags`.
    NotifyTags { client: u128, tags: TagSet },
    /// Nothing: the envelope named a client this instance does not hold.
    Ignore,
}

/// A fresh random client id: a version 4 UUID read as a 128-bit integer.
/// Calls `uuid::Uuid::new_v4` and reads the result with `Uuid::as_u128`.
/// The contract states only the version and variant bits that `new_v4`
/// always sets; the other bits come from the operating system's random
/// source, so nothing is said of them, nor that two calls differ.
#[verifier::external_body]
fn random_client_id() -> (id: u128)
    ensures
        (id >> 76u128) & 0xfu128 == 4,
        (id >> 62u128) & 0x3u128 == 2,
{
    uuid::Uuid::new_v4().as_u128()
}

struct Client<H> {
    tags: TagSet,
    handle: H,
}

/// The clients connected to this instance: each has an id, a set of tags
/// and a handle through which its events are sent.
pub struct Registry<H> {
    clients: HashMap<u128, Client<H>>,
}

impl<H> Registry<H> {
    /// The tags of each registered client.
    pub closed spec fn tags_of(self) -> Map<u128, Set<Seq<char>>> {
        self.clients@.map_values(|c: Client<H>| c.tags@)
    }

    /// The delivery handle of each registered client.
    pub closed spec fn handles(self) -> Map<u128, H> {
        self.clients@.map_values(|c: Client<H>| c.handle)
    }

    /// Every registered client has tags and a handle, and nothing else
    /// does: the two maps share one domain.
    pub proof fn lemma_clients_have_handles(self)
        ensures
            self.tags_of().dom() == self.handles().dom(),
    {
        assert(self.tags_of().dom() =~= self.handles().dom());
    }

    /// An empty registry.
    pub fn new() -> (r: Registry<H>)
        ensures
            r.tags_of() == Map::<u128, Set<Seq<char>>>::empty(),
            r.handles() == Map::<u128, H>::empty(),
    {
        let r = Registry { clients: HashMap::new() };
        assert(r.tags_of() =~= Map::<u128, Set<Seq<char>>>::empty());
        assert(r.handles() =~= Map::<u128, H>::empty());
        r
    }

    /// The number of registered clients.
    pub fn len(&self) -> (n: usize)
        ensures
            n == self.tags_of().len(),
    {
        assert(self.tags_of().dom() =~= self.clients@.dom());
        self.clients.len()
    }

    /// Registers a client under `id` with `tags` and `handle`, replacing
    /// any client registered under that id.
    pub fn register(&mut self, id: u128, tags: TagSet, handle: H)
        ensures
            final(self).tags_of() == old(self).tags_of().insert(id, tags@),
            final(self).handles() == old(self).handles().insert(id, handle),
    {
        let ghost t = tags@;
        self.clients.insert(id, Client { tags, handle });
        assert(self.tags_of() =~= old(self).tags_of().insert(id, t));
        assert(self.handles() =~= old(self).handles().insert(id, handle));
    }

    /// Registers a new client holding `tags` under a fresh random id, which
    /// it returns.
    pub fn subscribe(&mut self, tags: TagSet, handle: H) -> (id: u128)
        ensures
            final(self).tags_of() == old(self).tags_of().insert(id, tags@),
            final(self).handles() == old(self).handles().insert(id, handle),
            (id >> 76u128) & 0xfu128 == 4,
            (id >> 62u128) & 0x3u128 == 2,
    {
        let id = random_client_id();
        self.register(id, tags, handle);
        id
    }

    /// Deregisters the client `id`; answers whether it was registered.
    pub fn deregister(&mut self, id: u128) -> (was: bool)
        ensures
            final(self).tags_of() == old(self).tags_of().remove(id),
            final(self).handles() == old(self).handles().remove(id),
            was == old(self).tags_of().contains_key(id),
    {
        let removed = self.clients.remove(&id);
        assert(self.tags_of() =~= old(self).tags_of().remove(id));
        assert(self.handles() =~= old(self).handles().remove(id));
        removed.is_some()
    }

    /// The delivery handle of client `id`, if it is registered.
    pub fn handle(&self, id: u128) -> (h: Option<&H>)
        ensures
            match h {
                Some(h) => self.handles().contains_key(id) && *h == self.handles()[id],
                None => !self.handles().contains_key(id),
            },
    {
        match self.clients.get(&id) {
            Some(c) => Some(&c.handle),
            None => None,
        }
    }

    /// The tags of client `id`, if it is registered.
    pub fn client_tags(&self, id: u128) -> (t: Option<TagSet>)
        ensures
            match t {
                Some(t) => self.tags_of().contains_key(id) && t@ == self.tags_of()[id],
                None => !self.tags_of().contains_key(id),
            },
    {
        match self.clients.get(&id) {
            Some(c) => Some(c.tags.snapshot()),
            None => None,
        }
    }

    /// The clients that an event with requirement `required`, sent by
    /// `sender`, reaches.
    pub fn recipients(&self, required: Option<&TagSet>, sender: Option<u128>) -> (ids: Vec<u128>)
        ensures
            ids@.no_duplicates(),
            ids@.to_set() == audience(self.tags_of(), required_view(required), sender),
    {
        let mut ids: Vec<u128> = Vec::new();
        let ghost m = self.clients@;
        let ghost aud = audience(self.tags_of(), required_view(required), sender);
        for entry in it: self.clients.iter()
            invariant
                m == self.clients@,
                aud == audience(self.tags_of(), required_view(required), sender),
                it.seq().len() == m.dom().len(),
                forall|j: int| 0 <= j < it.seq().len() ==> #[trigger] m.contains_key(*it.seq()[j].0)
                    && m[*it.seq()[j].0] == *it.seq()[j].1,
                forall|k: u128| #[trigger] m.contains_key(k) ==> it.seq().contains((&k, &m[k])),
                it.seq().no_duplicates(),
                ids@.no_duplicates(),
                forall|x: u128|
                    ids@.contains(x) <==> (aud.contains(x) && exists|j: int|
                        0 <= j < it.index() && *it.seq()[j].0 == x),
                it.index() == it.seq().len() ==> aud.subset_of(ids@.to_set()),
        {
            let (id, client) = entry;
            let ghost i = it.index();
            let ghost before = ids@;
            proof {
                assert(entry == it.seq()[i]);
                assert forall|j: int| 0 <= j < i implies *it.seq()[j].0 != *id by {
                    if *it.seq()[j].0 == *id {
                        assert(m.contains_key(*it.seq()[j].0));
                        assert(it.seq()[j] == it.seq()[i]);
                    }
                }
                assert(m.contains_key(*it.seq()[i].0));
                assert(self.tags_of()[*id] == client.tags@);
            }
            if sender != Some(*id) && crate::protocol::matches(required, &client.tags) {
                ids.push(*id);
            }
            proof {
                assert(aud.contains(*id) == (ids@.len() > before.len()));
                assert forall|x: u128|
                    ids@.contains(x) <==> (aud.contains(x) && exists|j: int|
                        0 <= j < i + 1 && *it.seq()[j].0 == x) by {
                    if x == *id {
                        assert(*it.seq()[i].0 == x);
                        if aud.contains(x) {
                            assert(ids@[ids@.len() - 1] == x);
                        }
                    } else {
                        if ids@.contains(x) {
                            let k = choose|k: int| 0 <= k < ids@.len() && ids@[k] == x;
                            assert(before[k] == x);
                        }
                        if aud.contains(x) && exists|j: int| 0 <= j < i + 1 && *it.seq()[j].0 == x {
                            let j = choose|j: int| 0 <= j < i + 1 && *it.seq()[j].0 == x;
                            assert(j < i);
                            assert(before.contains(x));
                            let k = choose|k: int| 0 <= k < before.len() && before[k] == x;
                            assert(ids@[k] == x);
                        }
                    }
                }
                assert forall|x: u128| i + 1 == it.seq().len() && aud.contains(x) implies ids@.to_set().contains(x) by {
                    assert(m.contains_key(x));
                    assert(it.seq().contains((&x, &m[x])));
                    let j = choose|j: int| 0 <= j < it.seq().len() && it.seq()[j] == (&x, &m[x]);
                    assert(*it.seq()[j].0 == x);
                }
            }
        }
        proof {
            assert(ids@.to_set() =~= aud);
        }
        ids
    }

    /// Adds (`add`) or removes `tag` on client `client`, if it is
    /// registered, and reports the client's new tag set.
    fn retag<D>(&mut self, client: u128, tag: String, add: bool) -> (action: Action<D>)
        ensures
            final(self).tags_of() == (if add {
                with_tag_added(old(self).tags_of(), client, tag@)
            } else {
                with_tag_removed(old(self).tags_of(), client, tag@)
            }),
            final(self).handles() == old(self).handles(),
            if old(self).tags_of().contains_key(client) {
                action matches Action::NotifyTags { client: c, tags: t } && c == client && t@
                    == final(self).tags_of()[client]
            } else {
                action is Ignore
            },
    {
        match self.clients.remove(&client) {
            Some(entry) => {
                let mut entry = entry;
                let ghost before = entry.tags@;
                if add {
                    entry.tags.insert(tag);
                } else {
                    entry.tags.remove(&tag);
                }
                let tags = entry.tags.snapshot();
                let ghost after = entry.tags@;
                self.clients.insert(client, entry);
                assert(self.tags_of() =~= old(self).tags_of().insert(client, after));
                assert(self.handles() =~= old(self).handles());
                Action::NotifyTags { client, tags }
            },
            None => {
                assert(self.clients@ =~= old(self).clients@);
                Action::Ignore
            },
        }
    }

    /// Applies an envelope received from the channel: a send is answered
    /// with the clients it reaches; a tag mutation changes the named
    /// client's tags, if this registry holds it, and reports its new set.
    pub fn apply<D>(&mut self, envelope: Envelope<D>) -> (action: Action<D>)
        ensures
            final(self).handles() == old(self).handles(),
            final(self).tags_of() == tags_after(old(self).tags_of(), envelope),
            match envelope {
                Envelope::Send { data, tags, sender } => {
                    &&& final(self).tags_of() == old(self).tags_of()
                    &&& action matches Action::Deliver { recipients, payload } && payload == data
                        && recipients@.no_duplicates() && recipients@.to_set() == audience(
                        old(self).tags_of(),
                        tags_view(tags),
                        sender,
                    )
                },
                Envelope::TagAdd { client, tag } => {
                    &&& final(self).tags_of() == with_tag_added(old(self).tags_of(), client, tag@)
                    &&& if old(self).tags_of().contains_key(client) {
                        action matches Action::NotifyTags { client: c, tags: t } && c == client
                            && t@ == final(self).tags_of()[client]
                    } else {
                        action is Ignore
                    }
                },
                Envelope::TagRemove { client, tag } => {
                    &&& final(self).tags_of() == with_tag_removed(old(self).tags_of(), client, tag@)
                    &&& if old(self).tags_of().contains_key(client) {
                        action matches Action::NotifyTags { client: c, tags: t } && c == client
                            && t@ == final(self).tags_of()[client]
                    } else {
                        action is Ignore
                    }
                },
            },
    {
        match envelope {
            Envelope::Send { data, tags, sender } => {
                let recipients = self.recipients(tags.as_ref(), sender);
                Action::Deliver { recipients, payload: data }
            },
            Envelope::TagAdd { client, tag } => self.retag(client, tag, true),
            Envelope::TagRemove { client, tag } => self.retag(client, tag, false),
        }
    }
}

/// Only registered clients receive an event, and the sender never
/// receives its own.
pub proof fn law_audience_is_registered_clients_but_sender(
    clients: Map<u128, Set<Seq<char>>>,
    required: Option<Set<Seq<char>>>,
    sender: u128,
)
    ensures
        audience(clients, required, Some(sender)).subset_of(clients.dom()),
        !audience(clients, required, Some(sender)).contains(sender),
{
}

/// An event without tags, or with an empty tag set, reaches every
/// registered client except its sender.
pub proof fn law_public_event_reaches_everyone(
    clients: Map<u128, Set<Seq<char>>>,
    sender: Option<u128>,
)
    ensures
        audience(clients, None, sender) == clients.dom().filter(|id: u128| sender != Some(id)),
        audience(clients, Some(Set::empty()), sender) == audience(clients, None, sender),
{
    assert(audience(clients, None, sender) =~= clients.dom().filter(
        |id: u128| sender != Some(id),
    ));
    assert(audience(clients, Some(Set::empty()), sender) =~= audience(clients, None, sender));
}

/// A tagged event reaches a registered client, other than its sender,
/// exactly when the client holds every tag of the event.
pub proof fn law_tagged_event_needs_every_tag(
    clients: Map<u128, Set<Seq<char>>>,
    required: Set<Seq<char>>,
    sender: Option<u128>,
    client: u128,
)
    requires
        clients.contains_key(client),
        sender != Some(client),
    ensures
        audience(clients, Some(required), sender).contains(client) <==> required.subset_of(
            clients[client],
        ),
{
}

/// Once a tag is added to a registered client, an event that requires
/// that tag (and otherwise only tags the client held) reaches it, unless
/// the client sent it.
pub proof fn law_added_tag_widens_delivery(
    clients: Map<u128, Set<Seq<char>>>,
    client: u128,
    tag: Seq<char>,
    required: Set<Seq<char>>,
    sender: Option<u128>,
)
    requires
        clients.contains_key(client),
        sender != Some(client),
        required.subset_of(clients[client].insert(tag)),
    ensures
        audience(with_tag_added(clients, client, tag), Some(required), sender).contains(client),
{
}

/// Once a tag is removed from a client, no event that requires that tag
/// reaches it.
pub proof fn law_removed_tag_narrows_delivery(
    clients: Map<u128, Set<Seq<char>>>,
    client: u128,
    tag: Seq<char>,
    required: Set<Seq<char>>,
    sender: Option<u128>,
)
    requires
        required.contains(tag),
    ensures
        clients.contains_key(client) ==> !audience(
            with_tag_removed(clients, client, tag),
            Some(required),
            sender,
        ).contains(client),
{
    if clients.contains_key(client) {
        let after = with_tag_removed(clients, client, tag);
        assert(!after[client].contains(tag));
    }
}

/// Removing a tag that was just added to a client that lacked it restores
/// the client's tags; a mutation that names an unknown client changes
/// nothing.
pub proof fn law_add_then_remove_restores(
    clients: Map<u128, Set<Seq<char>>>,
    client: u128,
    tag: Seq<char>,
)
    requires
        clients.contains_key(client) ==> !clients[client].contains(tag),
    ensures
        with_tag_removed(with_tag_added(clients, client, tag), client, tag) == clients,
        !clients.contains_key(client) ==> with_tag_added(clients, client, tag) == clients
            && with_tag_removed(clients, client, tag) == clients,
{
    if clients.contains_key(client) {
        assert(clients[client].insert(tag).remove(tag) =~= clients[client]);
        assert(with_tag_removed(with_tag_added(clients, client, tag), client, tag) =~= clients);
    }
}

/// Adding a tag a client already holds, or removing one it lacks, leaves
/// its tags as they were.
pub proof fn law_tag_mutations_are_idempotent(
    clients: Map<u128, Set<Seq<char>>>,
    client: u128,
    tag: Seq<char>,
)
    ensures
        clients.contains_key(client) && clients[client].contains(tag) ==> with_tag_added(
            clients,
            client,
            tag,
        ) == clients,
        clients.contains_key(client) && !clients[client].contains(tag) ==> with_tag_removed(
            clients,
            client,
            tag,
        ) == clients,
        with_tag_added(with_tag_added(clients, client, tag), client, tag) == with_tag_added(
            clients,
            client,
            tag,
        ),
{
    if clients.contains_key(client) {
        assert(clients[client].insert(tag).insert(tag) =~= clients[client].insert(tag));
        if clients[client].contains(tag) {
            assert(clients[client].insert(tag) =~= clients[client]);
            assert(with_tag_added(clients, client, tag) =~= clients);
        } else {
            assert(clients[client].remove(tag) =~= clients[client]);
            assert(with_tag_removed(clients, client, tag) =~= clients);
        }
        assert(with_tag_added(with_tag_added(clients, client, tag), client, tag) =~= with_tag_added(
            clients,
            client,
            tag,
        ));
    }
}

/// A client registered with any tags receives every public event that
/// another client, or nobody, sends.
pub proof fn law_registered_client_receives_public_events(
    clients: Map<u128, Set<Seq<char>>>,
    id: u128,
    tags: Set<Seq<char>>,
    sender: Option<u128>,
)
    requires
        sender != Some(id),
    ensures
        audience(clients.insert(id, tags), None, sender).contains(id),
{
}

/// A deregistered client receives nothing.
pub proof fn law_deregistered_client_receives_nothing(
    clients: Map<u128, Set<Seq<char>>>,
    id: u128,
    required: Option<Set<Seq<char>>>,
    sender: Option<u128>,
)
    ensures
        !audience(clients.remove(id), required, sender).contains(id),
{
}

/// Deregistering a client that was just registered under a fresh id
/// leaves the registry as it was.
pub proof fn law_register_then_deregister_restores<H>(
    clients: Map<u128, Set<Seq<char>>>,
    handles: Map<u128, H>,
    id: u128,
    tags: Set<Seq<char>>,
    handle: H,
)
    requires
        !clients.contains_key(id),
        !handles.contains_key(id),
    ensures
        clients.insert(id, tags).remove(id) == clients,
        handles.insert(id, handle).remove(id) == handles,
{
    assert(clients.insert(id, tags).remove(id) =~= clients);
    assert(handles.insert(id, handle).remove(id) =~= handles);
}

proof fn lemma_tags_after_keeps_clients<D>(
    clients: Map<u128, Set<Seq<char>>>,
    envelopes: Seq<Envelope<D>>,
)
    ensures
        tags_after_all(clients, envelopes).dom() == clients.dom(),
    decreases envelopes.len(),
{
    if envelopes.len() > 0 {
        let before = tags_after_all(clients, envelopes.drop_last());
        lemma_tags_after_keeps_clients(clients, envelopes.drop_last());
        match envelopes.last() {
            Envelope::Send { .. } => {},
            Envelope::TagAdd { client, tag } => {
                assert(with_tag_added(before, client, tag@).dom() =~= before.dom());
            },
            Envelope::TagRemove { client, tag } => {
                assert(with_tag_removed(before, client, tag@).dom() =~= before.dom());
            },
        }
    }
}

/// Once a registered client has been given a tag, a public-sender event
/// requiring that tag reaches it after any later envelopes, so long as
/// none of them removes that tag from it: the envelope at `added` adds
/// `tag` to `client`, and no envelope after it removes that tag again.
pub proof fn law_added_tag_holds_until_removed<D>(
    clients: Map<u128, Set<Seq<char>>>,
    envelopes: Seq<Envelope<D>>,
    added: int,
    client: u128,
    tag: String,
    sender: Option<u128>,
)
    requires
        clients.contains_key(client),
        sender != Some(client),
        0 <= added < envelopes.len(),
        envelopes[added] matches Envelope::TagAdd { client: c, tag: t } && c == client && t@
            == tag@,
        forall|j: int|
            added < j < envelopes.len() ==> !(#[trigger] envelopes[j] matches Envelope::TagRemove {
                client: c,
                tag: t,
            } && c == client && t@ == tag@),
    ensures
        tags_after_all(clients, envelopes)[client].contains(tag@),
        audience(tags_after_all(clients, envelopes), Some(set![tag@]), sender).contains(client),
    decreases envelopes.len(),
{
    let prefix = envelopes.drop_last();
    let before = tags_after_all(clients, prefix);
    lemma_tags_after_keeps_clients(clients, prefix);
    if added == envelopes.len() - 1 {
        assert(tags_after_all(clients, envelopes) == with_tag_added(before, client, tag@));
    } else {
        assert forall|j: int|
            added < j < prefix.len() implies !(#[trigger] prefix[j] matches Envelope::TagRemove {
                client: c,
                tag: t,
            } && c == client && t@ == tag@) by {
            assert(prefix[j] == envelopes[j]);
        }
        law_added_tag_holds_until_removed(clients, prefix, added, client, tag, sender);
        let last_index = envelopes.len() - 1;
        assert(envelopes[last_index] == envelopes.last());
        match envelopes.last() {
            Envelope::Send { .. } => {},
            Envelope::TagAdd { client: c, tag: t } => {
                if c == client {
                    assert(with_tag_added(before, c, t@)[client] == before[client].insert(t@));
                }
            },
            Envelope::TagRemove { client: c, tag: t } => {
                if c == client {
                    assert(t@ != tag@);
                    assert(with_tag_removed(before, c, t@)[client] == before[client].remove(t@));
                }
            },
        }
    }
    let after = tags_after_all(clients, envelopes);
    lemma_tags_after_keeps_clients(clients, envelopes);
    assert(set![tag@].subset_of(after[client]));
}

} // verus!
