use vstd::prelude::*;

use crate::tags::{tag_views, TagSet};

verus! {

/// Whether an event that requires `required` reaches a client holding
/// `held`: a public event (`None`) reaches everyone, otherwise the client
/// must hold every required tag, extras permitted.
pub open spec fn event_reaches(required: Option<Set<Seq<char>>>, held: Set<Seq<char>>) -> bool {
    match required {
        None => true,
        Some(r) => r.subset_of(held),
    }
}

/// The tag sets behind an optional reference to a tag set.
pub open spec fn required_view(required: Option<&TagSet>) -> Option<Set<Seq<char>>> {
    match required {
        None => None,
        Some(r) => Some(r@),
    }
}

/// The tag sets behind an optional tag set.
pub open spec fn tags_view(tags: Option<TagSet>) -> Option<Set<Seq<char>>> {
    match tags {
        None => None,
        Some(r) => Some(r@),
    }
}

/// What the requirement of a send becomes: no list and an empty list are
/// both public; otherwise the set of the listed tags.
pub open spec fn normalized(tags: Option<Vec<String>>) -> Option<Set<Seq<char>>> {
    match tags {
        None => None,
        Some(v) => if v@.len() == 0 {
            None
        } else {
            Some(tag_views(v@).to_set())
        },
    }
}

/// Decides whether a client holding `held` receives an event requiring
/// `required`.
pub fn matches(required: Option<&TagSet>, held: &TagSet) -> (b: bool)
    ensures
        b == event_reaches(required_view(required), held@),
{
    match required {
        None => true,
        Some(tags) => tags.is_subset_of(held),
    }
}

/// Turns the tag list of a send into its requirement: absent or empty
/// lists make the event public, duplicates collapse.
pub fn normalize_tags(tags: Option<Vec<String>>) -> (r: Option<TagSet>)
    ensures
        tags_view(r) == normalized(tags),
{
    match tags {
        None => None,
        Some(list) => {
            if list.len() == 0 {
                None
            } else {
                Some(TagSet::from_vec(list))
            }
        },
    }
}

/// The messages that travel between instances. Every instance receives
/// every envelope; `Send` fans out to the matching local clients, the tag
/// mutations apply on the instance that holds the named client.
pub enum Envelope<D> {
    Send { data: D, tags: Option<TagSet>, sender: Option<u128> },
    TagAdd { client: u128, tag: String },
    TagRemove { client: u128, tag: String },
}

impl<D> Envelope<D> {
    /// The envelope of a send: `data` goes to the clients that hold every
    /// tag of `tags` (everyone when there are none), except `sender`.
    pub fn send(data: D, tags: Option<Vec<String>>, sender: Option<u128>) -> (e: Envelope<D>)
        ensures
            e matches Envelope::Send { data: d, tags: t, sender: s } && d == data && s == sender
                && tags_view(t) == normalized(tags),
    {
        let tags = normalize_tags(tags);
        Envelope::Send { data, tags, sender }
    }

    /// The envelope that adds `tag` to `client`.
    pub fn tag_add(client: u128, tag: String) -> (e: Envelope<D>)
        ensures
            e matches Envelope::TagAdd { client: c, tag: t } && c == client && t == tag,
    {
        Envelope::TagAdd { client, tag }
    }

    /// The envelope that removes `tag` from `client`.
    pub fn tag_remove(client: u128, tag: String) -> (e: Envelope<D>)
        ensures
            e matches Envelope::TagRemove { client: c, tag: t } && c == client && t == tag,
    {
        Envelope::TagRemove { client, tag }
    }
}

/// A public event reaches every client, whatever tags it holds.
pub proof fn law_public_reaches_all(held: Set<Seq<char>>)
    ensures
        event_reaches(None, held),
        event_reaches(Some(Set::empty()), held),
{
}

/// A tagged event reaches exactly the clients that hold all of its tags.
pub proof fn law_requires_every_tag(required: Set<Seq<char>>, held: Set<Seq<char>>)
    ensures
        event_reaches(Some(required), held) <==> (forall|t: Seq<char>|
            required.contains(t) ==> held.contains(t)),
{
}

/// Holding extra tags never stops a client from receiving an event.
pub proof fn law_extra_tags_keep_matching(
    required: Option<Set<Seq<char>>>,
    held: Set<Seq<char>>,
    more: Set<Seq<char>>,
)
    requires
        event_reaches(required, held),
        held.subset_of(more),
    ensures
        event_reaches(required, more),
{
}

/// A send with an empty tag list is public, like one with no list.
pub proof fn law_empty_list_is_public(tags: Vec<String>)
    requires
        tags@.len() == 0,
    ensures
        normalized(Some(tags)) == normalized(None),
{
}

/// A send with a non-empty tag list requires every listed tag and no
/// other.
pub proof fn law_every_listed_tag_is_required(tags: Vec<String>)
    requires
        tags@.len() > 0,
    ensures
        normalized(Some(tags)) is Some,
        forall|i: int|
            0 <= i < tags@.len() ==> normalized(Some(tags)).unwrap().contains(
                #[trigger] tags@[i]@,
            ),
        forall|t: Seq<char>|
            #[trigger] normalized(Some(tags)).unwrap().contains(t) ==> exists|i: int|
                0 <= i < tags@.len() && tags@[i]@ == t,
{
    let req = normalized(Some(tags)).unwrap();
    assert forall|i: int| 0 <= i < tags@.len() implies req.contains(#[trigger] tags@[i]@) by {
        assert(tag_views(tags@)[i] == tags@[i]@);
    }
    assert forall|t: Seq<char>| #[trigger] req.contains(t) implies exists|i: int|
        0 <= i < tags@.len() && tags@[i]@ == t by {
        let i = choose|i: int| 0 <= i < tag_views(tags@).len() && tag_views(tags@)[i] == t;
        assert(tags@[i]@ == t);
    }
}

} // verus!
