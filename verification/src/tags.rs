use vstd::prelude::*;

verus! {

/// The character sequences of a list of tags.
pub open spec fn tag_views(tags: Seq<String>) -> Seq<Seq<char>> {
    tags.map_values(|t: String| t@)
}

/// A finite set of tags, kept as a list in which no tag occurs twice.
pub struct TagSet {
    items: Vec<String>,
}

impl View for TagSet {
    type V = Set<Seq<char>>;

    closed spec fn view(&self) -> Set<Seq<char>> {
        tag_views(self.items@).to_set()
    }
}

/// Removing the element at `i` of a list without repetitions removes that
/// element, and only it, from the list's set.
proof fn lemma_remove_distinct(s: Seq<Seq<char>>, i: int)
    requires
        s.no_duplicates(),
        0 <= i < s.len(),
    ensures
        s.remove(i).no_duplicates(),
        s.remove(i).to_set() == s.to_set().remove(s[i]),
{
    let r = s.remove(i);
    assert forall|a: int, b: int| 0 <= a < b < r.len() implies r[a] != r[b] by {
        let a2 = if a < i { a } else { a + 1 };
        let b2 = if b < i { b } else { b + 1 };
        assert(r[a] == s[a2]);
        assert(r[b] == s[b2]);
    }
    assert forall|x: Seq<char>| r.to_set().contains(x) <==> s.to_set().remove(s[i]).contains(x) by {
        if r.to_set().contains(x) {
            let k = choose|k: int| 0 <= k < r.len() && r[k] == x;
            let k2 = if k < i { k } else { k + 1 };
            assert(s[k2] == x);
            assert(k2 != i);
        }
        if s.to_set().remove(s[i]).contains(x) {
            let k = choose|k: int| 0 <= k < s.len() && s[k] == x;
            assert(k != i);
            let k2 = if k < i { k } else { k - 1 };
            assert(r[k2] == x);
        }
    }
    assert(r.to_set() =~= s.to_set().remove(s[i]));
}

/// Appending an element that a list lacks keeps it free of repetitions.
proof fn lemma_push_distinct(s: Seq<Seq<char>>, x: Seq<char>)
    requires
        s.no_duplicates(),
        !s.contains(x),
    ensures
        s.push(x).no_duplicates(),
        s.push(x).to_set() == s.to_set().insert(x),
{
    let p = s.push(x);
    assert forall|a: int, b: int| 0 <= a < b < p.len() implies p[a] != p[b] by {
        if b == s.len() {
            assert(p[a] == s[a]);
        }
    }
    assert forall|y: Seq<char>| p.to_set().contains(y) <==> s.to_set().insert(x).contains(y) by {
        if p.to_set().contains(y) {
            let k = choose|k: int| 0 <= k < p.len() && p[k] == y;
            if k < s.len() {
                assert(s[k] == y);
            }
        }
        if s.to_set().contains(y) {
            let k = choose|k: int| 0 <= k < s.len() && s[k] == y;
            assert(p[k] == y);
        }
        if y == x {
            assert(p[s.len() as int] == y);
        }
    }
    assert(p.to_set() =~= s.to_set().insert(x));
}

impl TagSet {
    #[verifier::type_invariant]
    spec fn distinct(self) -> bool {
        tag_views(self.items@).no_duplicates()
    }

    /// The tags as a list without repetitions.
    pub closed spec fn entries(self) -> Seq<Seq<char>> {
        tag_views(self.items@)
    }

    /// The empty tag set.
    pub fn new() -> (s: TagSet)
        ensures
            s@ == Set::<Seq<char>>::empty(),
    {
        let s = TagSet { items: Vec::new() };
        assert(tag_views(s.items@).to_set() =~= Set::<Seq<char>>::empty());
        s
    }

    /// The number of tags held.
    pub fn len(&self) -> (n: usize)
        ensures
            n == self@.len(),
    {
        proof {
            use_type_invariant(self);
            tag_views(self.items@).unique_seq_to_set();
        }
        self.items.len()
    }

    /// Whether no tag is held.
    pub fn is_empty(&self) -> (b: bool)
        ensures
            b <==> self@ == Set::<Seq<char>>::empty(),
    {
        proof {
            if self.items.len() == 0 {
                assert(self@ =~= Set::<Seq<char>>::empty());
            } else {
                assert(self@.contains(tag_views(self.items@)[0]));
            }
        }
        self.items.len() == 0
    }

    /// Where `tag` stands in the list of entries, if it is held.
    fn position(&self, tag: &String) -> (r: Option<usize>)
        ensures
            match r {
                Some(i) => i < self.items@.len() && self.items@[i as int]@ == tag@,
                None => !self@.contains(tag@),
            },
    {
        let mut i: usize = 0;
        while i < self.items.len()
            invariant
                i <= self.items.len(),
                forall|j: int| 0 <= j < i ==> self.items@[j]@ != tag@,
            decreases self.items.len() - i,
        {
            if self.items[i] == *tag {
                return Some(i);
            }
            i = i + 1;
        }
        proof {
            if self@.contains(tag@) {
                let k = choose|k: int|
                    0 <= k < tag_views(self.items@).len() && tag_views(self.items@)[k] == tag@;
                assert(self.items@[k]@ == tag@);
            }
        }
        None
    }

    /// Whether `tag` is held.
    pub fn contains(&self, tag: &String) -> (b: bool)
        ensures
            b == self@.contains(tag@),
    {
        match self.position(tag) {
            Some(i) => {
                assert(tag_views(self.items@)[i as int] == tag@);
                true
            },
            None => false,
        }
    }

    /// Adds `tag`; answers whether it was absent before.
    pub fn insert(&mut self, tag: String) -> (added: bool)
        ensures
            final(self)@ == old(self)@.insert(tag@),
            added == !old(self)@.contains(tag@),
    {
        proof {
            use_type_invariant(&*self);
        }
        if self.contains(&tag) {
            assert(self@.insert(tag@) =~= self@);
            return false;
        }
        let mut items: Vec<String> = Vec::new();
        std::mem::swap(&mut items, &mut self.items);
        let ghost before = items@;
        proof {
            assert(!tag_views(before).contains(tag@));
            lemma_push_distinct(tag_views(before), tag@);
        }
        items.push(tag);
        assert(tag_views(items@) =~= tag_views(before).push(tag@));
        self.items = items;
        true
    }

    /// Drops `tag`; answers whether it was held.
    pub fn remove(&mut self, tag: &String) -> (removed: bool)
        ensures
            final(self)@ == old(self)@.remove(tag@),
            removed == old(self)@.contains(tag@),
    {
        proof {
            use_type_invariant(&*self);
        }
        match self.position(tag) {
            Some(i) => {
                let mut items: Vec<String> = Vec::new();
                std::mem::swap(&mut items, &mut self.items);
                let ghost before = items@;
                proof {
                    lemma_remove_distinct(tag_views(before), i as int);
                    assert(tag_views(before)[i as int] == tag@);
                    assert(tag_views(before).to_set().contains(tag@));
                }
                items.remove(i);
                assert(tag_views(items@) =~= tag_views(before).remove(i as int));
                self.items = items;
                true
            },
            None => {
                assert(self@.remove(tag@) =~= self@);
                false
            },
        }
    }

    /// Whether every tag of `self` is held by `other`.
    pub fn is_subset_of(&self, other: &TagSet) -> (b: bool)
        ensures
            b == self@.subset_of(other@),
    {
        let mut i: usize = 0;
        while i < self.items.len()
            invariant
                i <= self.items.len(),
                forall|j: int| 0 <= j < i ==> other@.contains(#[trigger] self.items@[j]@),
            decreases self.items.len() - i,
        {
            if !other.contains(&self.items[i]) {
                assert(self@.contains(tag_views(self.items@)[i as int]));
                return false;
            }
            i = i + 1;
        }
        proof {
            assert forall|x: Seq<char>| self@.contains(x) implies other@.contains(x) by {
                let k = choose|k: int|
                    0 <= k < tag_views(self.items@).len() && tag_views(self.items@)[k] == x;
                assert(self.items@[k]@ == x);
            }
        }
        true
    }

    /// The set of the tags in `tags`; a tag listed twice is held once.
    pub fn from_vec(tags: Vec<String>) -> (s: TagSet)
        ensures
            s@ == tag_views(tags@).to_set(),
    {
        let mut s = TagSet::new();
        let mut i: usize = 0;
        while i < tags.len()
            invariant
                i <= tags.len(),
                s@ == tag_views(tags@.take(i as int)).to_set(),
            decreases tags.len() - i,
        {
            let ghost prev = s@;
            s.insert(tags[i].clone());
            assert(tag_views(tags@.take(i + 1)) =~= tag_views(tags@.take(i as int)).push(
                tags@[i as int]@,
            ));
            proof {
                tag_views(tags@.take(i as int)).lemma_push_to_set_commute(tags@[i as int]@);
            }
            i = i + 1;
        }
        assert(tags@.take(tags.len() as int) =~= tags@);
        s
    }

    /// A copy of this set.
    pub fn snapshot(&self) -> (s: TagSet)
        ensures
            s@ == self@,
    {
        proof {
            use_type_invariant(self);
        }
        let items = self.items.clone();
        assert(tag_views(items@) =~= tag_views(self.items@)) by {
            assert forall|k: int| 0 <= k < items@.len() implies items@[k]@ == self.items@[k]@ by {
            }
        }
        TagSet { items }
    }

    /// The tags as a list in which no tag occurs twice.
    pub fn to_vec(&self) -> (v: Vec<String>)
        ensures
            tag_views(v@).no_duplicates(),
            tag_views(v@).to_set() == self@,
            tag_views(v@) == self.entries(),
    {
        proof {
            use_type_invariant(self);
        }
        let v = self.items.clone();
        assert(tag_views(v@) =~= tag_views(self.items@)) by {
            assert forall|k: int| 0 <= k < v@.len() implies v@[k]@ == self.items@[k]@ by {
            }
        }
        v
    }
}

} // verus!
