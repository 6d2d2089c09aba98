use vstd::prelude::*;
use vstd::string::{StrSliceExecFns, StringExecFns};

use crate::tags::TagSet;

verus! {

/// The characters with the Unicode `White_Space` property.
pub open spec fn is_white_space(c: char) -> bool {
    let n = c as u32;
    ||| 0x9 <= n <= 0xd
    ||| n == 0x20
    ||| n == 0x85
    ||| n == 0xa0
    ||| n == 0x1680
    ||| 0x2000 <= n <= 0x200a
    ||| n == 0x2028
    ||| n == 0x2029
    ||| n == 0x202f
    ||| n == 0x205f
    ||| n == 0x3000
}

/// `s` without its leading white space.
pub open spec fn trim_start(s: Seq<char>) -> Seq<char>
    decreases s.len(),
{
    if s.len() > 0 && is_white_space(s[0]) {
        trim_start(s.drop_first())
    } else {
        s
    }
}

/// `s` without its trailing white space.
pub open spec fn trim_end(s: Seq<char>) -> Seq<char>
    decreases s.len(),
{
    if s.len() > 0 && is_white_space(s.last()) {
        trim_end(s.drop_last())
    } else {
        s
    }
}

/// `s` without leading and trailing white space.
pub open spec fn trim(s: Seq<char>) -> Seq<char> {
    trim_end(trim_start(s))
}

/// The pieces of `s` between occurrences of `sep`: one more piece than
/// there are separators, empty pieces included.
pub open spec fn split_on(s: Seq<char>, sep: char) -> Seq<Seq<char>>
    decreases s.len(),
{
    if s.len() == 0 {
        seq![Seq::<char>::empty()]
    } else {
        let pieces = split_on(s.drop_last(), sep);
        if s.last() == sep {
            pieces.push(Seq::<char>::empty())
        } else {
            pieces.update(pieces.len() - 1, pieces.last().push(s.last()))
        }
    }
}

/// The trimmed pieces that are not empty, as a set.
pub open spec fn kept_tags(pieces: Seq<Seq<char>>) -> Set<Seq<char>>
    decreases pieces.len(),
{
    if pieces.len() == 0 {
        Set::empty()
    } else {
        let rest = kept_tags(pieces.drop_last());
        let t = trim(pieces.last());
        if t.len() > 0 {
            rest.insert(t)
        } else {
            rest
        }
    }
}

/// The tags named by a comma-separated query value: each piece trimmed,
/// empty pieces dropped.
pub open spec fn query_tags(query: Seq<char>) -> Set<Seq<char>> {
    kept_tags(split_on(query, ','))
}

/// Whether `c` is white space. Calls `char::is_whitespace`, which the
/// standard library documents as the Unicode `White_Space` property.
#[verifier::external_body]
fn char_is_whitespace(c: char) -> (b: bool)
    ensures
        b == is_white_space(c),
{
    c.is_whitespace()
}

proof fn lemma_split_nonempty(s: Seq<char>, sep: char)
    ensures
        split_on(s, sep).len() >= 1,
    decreases s.len(),
{
    if s.len() > 0 {
        lemma_split_nonempty(s.drop_last(), sep);
    }
}

/// The characters of `text` from `lo` to `hi`, trimmed, given as the
/// bounds of the trimmed part.
fn trimmed_bounds(text: &str, lo: usize, hi: usize) -> (r: (usize, usize))
    requires
        lo <= hi <= text@.len(),
    ensures
        lo <= r.0 <= r.1 <= hi,
        text@.subrange(r.0 as int, r.1 as int) == trim(text@.subrange(lo as int, hi as int)),
{
    let mut a = lo;
    while a < hi && char_is_whitespace(text.get_char(a))
        invariant
            lo <= a <= hi <= text@.len(),
            trim_start(text@.subrange(lo as int, hi as int)) == trim_start(
                text@.subrange(a as int, hi as int),
            ),
        decreases hi - a,
    {
        assert(text@.subrange(a as int, hi as int).drop_first() =~= text@.subrange(
            a + 1,
            hi as int,
        ));
        a = a + 1;
    }
    let ghost start = text@.subrange(a as int, hi as int);
    assert(trim_start(start) == start);
    let mut b = hi;
    while b > a && char_is_whitespace(text.get_char(b - 1))
        invariant
            lo <= a <= b <= hi <= text@.len(),
            trim_end(start) == trim_end(text@.subrange(a as int, b as int)),
        decreases b - a,
    {
        assert(text@.subrange(a as int, b as int).drop_last() =~= text@.subrange(
            a as int,
            b - 1,
        ));
        b = b - 1;
    }
    (a, b)
}

/// Adds to `tags` the piece of `text` from `lo` to `hi`, trimmed, unless
/// it is empty.
fn keep_piece(tags: &mut TagSet, text: &str, lo: usize, hi: usize)
    requires
        lo <= hi <= text@.len(),
    ensures
        final(tags)@ == (if trim(text@.subrange(lo as int, hi as int)).len() > 0 {
            old(tags)@.insert(trim(text@.subrange(lo as int, hi as int)))
        } else {
            old(tags)@
        }),
{
    let (a, b) = trimmed_bounds(text, lo, hi);
    if a < b {
        let piece = String::from_str(text.substring_char(a, b));
        tags.insert(piece);
    }
}

/// The tags of a connection request's `tags` query value: the value is
/// split at commas, each piece trimmed, empty pieces dropped. A missing
/// value names no tags.
pub fn tags_from_query(query: Option<String>) -> (tags: TagSet)
    ensures
        tags@ == query_tags(
            match query {
                Some(q) => q@,
                None => Seq::<char>::empty(),
            },
        ),
{
    let text = match query {
        Some(q) => q,
        None => String::new(),
    };
    let s = text.as_str();
    let n = s.unicode_len();
    let mut tags = TagSet::new();
    let mut start: usize = 0;
    let mut i: usize = 0;
    proof {
        assert(s@.take(0) =~= Seq::<char>::empty());
        assert(s@.subrange(0, 0) =~= Seq::<char>::empty());
        assert(split_on(Seq::<char>::empty(), ',').drop_last() =~= Seq::<Seq<char>>::empty());
    }
    while i < n
        invariant
            n == s@.len(),
            start <= i <= n,
            split_on(s@.take(i as int), ',').len() >= 1,
            split_on(s@.take(i as int), ',').last() == s@.subrange(start as int, i as int),
            tags@ == kept_tags(split_on(s@.take(i as int), ',').drop_last()),
        decreases n - i,
    {
        let c = s.get_char(i);
        let ghost prev = split_on(s@.take(i as int), ',');
        proof {
            assert(s@.take(i + 1).drop_last() =~= s@.take(i as int));
            assert(s@.take(i + 1).last() == c);
            lemma_split_nonempty(s@.take(i as int), ',');
        }
        if c == ',' {
            keep_piece(&mut tags, s, start, i);
            proof {
                let next = split_on(s@.take(i + 1), ',');
                assert(next == prev.push(Seq::<char>::empty()));
                assert(next.drop_last() =~= prev);
                assert(prev == prev.drop_last().push(prev.last()));
                assert(kept_tags(prev) == {
                    let rest = kept_tags(prev.drop_last());
                    let t = trim(prev.last());
                    if t.len() > 0 {
                        rest.insert(t)
                    } else {
                        rest
                    }
                });
                assert(s@.subrange(i + 1, i + 1) =~= Seq::<char>::empty());
            }
            start = i + 1;
        } else {
            proof {
                let next = split_on(s@.take(i + 1), ',');
                assert(next == prev.update(prev.len() - 1, prev.last().push(c)));
                assert(next.drop_last() =~= prev.drop_last());
                assert(s@.subrange(start as int, i + 1) =~= s@.subrange(start as int, i as int).push(
                    c,
                ));
            }
        }
        i = i + 1;
    }
    let ghost whole = split_on(s@.take(n as int), ',');
    keep_piece(&mut tags, s, start, n);
    proof {
        assert(s@.take(n as int) =~= s@);
        assert(whole == whole.drop_last().push(whole.last()));
    }
    tags
}

proof fn lemma_trim_start(s: Seq<char>)
    ensures
        trim_start(s).len() > 0 ==> !is_white_space(trim_start(s)[0]),
    decreases s.len(),
{
    if s.len() > 0 && is_white_space(s[0]) {
        lemma_trim_start(s.drop_first());
    }
}

proof fn lemma_trim_end(s: Seq<char>)
    ensures
        trim_end(s).len() <= s.len(),
        trim_end(s) == s.take(trim_end(s).len() as int),
        trim_end(s).len() > 0 ==> !is_white_space(trim_end(s).last()),
    decreases s.len(),
{
    if s.len() > 0 && is_white_space(s.last()) {
        lemma_trim_end(s.drop_last());
        assert(s.drop_last().take(trim_end(s).len() as int) =~= s.take(trim_end(s).len() as int));
    } else {
        assert(s.take(s.len() as int) =~= s);
    }
}

/// A trimmed piece that is not empty neither starts nor ends with white
/// space.
pub proof fn law_trim_strips_both_ends(s: Seq<char>)
    ensures
        trim(s).len() > 0 ==> !is_white_space(trim(s)[0]) && !is_white_space(trim(s).last()),
{
    let t = trim_start(s);
    lemma_trim_start(s);
    lemma_trim_end(t);
    if trim(s).len() > 0 {
        assert(trim(s)[0] == t[0]);
    }
}

proof fn lemma_kept_tags_trimmed(pieces: Seq<Seq<char>>, x: Seq<char>)
    requires
        kept_tags(pieces).contains(x),
    ensures
        x.len() > 0,
        !is_white_space(x[0]),
        !is_white_space(x.last()),
    decreases pieces.len(),
{
    let t = trim(pieces.last());
    if t.len() > 0 && x == t {
        law_trim_strips_both_ends(pieces.last());
    } else {
        lemma_kept_tags_trimmed(pieces.drop_last(), x);
    }
}

/// Every tag a query names is non-empty and starts and ends with a
/// character that is not white space.
pub proof fn law_query_tags_are_trimmed(query: Seq<char>, tag: Seq<char>)
    requires
        query_tags(query).contains(tag),
    ensures
        tag.len() > 0,
        !is_white_space(tag[0]),
        !is_white_space(tag.last()),
{
    lemma_kept_tags_trimmed(split_on(query, ','), tag);
}

/// A query with no value, or an empty one, names no tags.
pub proof fn law_empty_query_names_no_tags()
    ensures
        query_tags(Seq::<char>::empty()) == Set::<Seq<char>>::empty(),
{
    let pieces = split_on(Seq::<char>::empty(), ',');
    assert(pieces == seq![Seq::<char>::empty()]);
    assert(pieces.len() == 1);
    assert(pieces.drop_last() =~= Seq::<Seq<char>>::empty());
    assert(kept_tags(pieces.drop_last()) == Set::<Seq<char>>::empty());
    assert(trim(pieces.last()) =~= Seq::<char>::empty());
    assert(query_tags(Seq::<char>::empty()) =~= Set::<Seq<char>>::empty());
}

/// The pieces joined back together, with `sep` between each two.
pub open spec fn join_with(pieces: Seq<Seq<char>>, sep: char) -> Seq<char>
    decreases pieces.len(),
{
    if pieces.len() == 0 {
        Seq::<char>::empty()
    } else if pieces.len() == 1 {
        pieces[0]
    } else {
        join_with(pieces.drop_last(), sep).push(sep) + pieces.last()
    }
}

/// Splitting cuts only at the separator: no piece holds it, and joining
/// the pieces with it gives back the whole text. So there is one piece
/// more than the text has separators.
pub proof fn law_split_cuts_only_at_separator(s: Seq<char>, sep: char)
    ensures
        join_with(split_on(s, sep), sep) == s,
        forall|k: int|
            0 <= k < split_on(s, sep).len() ==> !(#[trigger] split_on(s, sep)[k]).contains(sep),
    decreases s.len(),
{
    if s.len() == 0 {
        assert(split_on(s, sep) == seq![Seq::<char>::empty()]);
        assert(s =~= Seq::<char>::empty());
    } else {
        let prev = split_on(s.drop_last(), sep);
        let c = s.last();
        law_split_cuts_only_at_separator(s.drop_last(), sep);
        lemma_split_nonempty(s.drop_last(), sep);
        let next = split_on(s, sep);
        if c == sep {
            assert(next == prev.push(Seq::<char>::empty()));
            assert(next.drop_last() =~= prev);
            assert(join_with(next, sep) =~= join_with(prev, sep).push(sep));
            assert(s =~= s.drop_last().push(c));
            assert forall|k: int| 0 <= k < next.len() implies !(#[trigger] next[k]).contains(sep) by {
                if k < prev.len() {
                    assert(next[k] == prev[k]);
                } else {
                    assert(next[k] =~= Seq::<char>::empty());
                }
            }
        } else {
            let last = prev.last().push(c);
            assert(next == prev.update(prev.len() - 1, last));
            if prev.len() == 1 {
                assert(join_with(prev, sep) == prev[0]);
                assert(join_with(next, sep) == next[0]);
                assert(next[0] == last);
                assert(s =~= s.drop_last().push(c));
            } else {
                assert(next.drop_last() =~= prev.drop_last());
                assert(join_with(next, sep) == join_with(next.drop_last(), sep).push(sep)
                    + next.last());
                assert(join_with(prev, sep) == join_with(prev.drop_last(), sep).push(sep)
                    + prev.last());
                assert(join_with(next, sep) =~= join_with(prev, sep).push(c));
                assert(s =~= s.drop_last().push(c));
            }
            assert forall|k: int| 0 <= k < next.len() implies !(#[trigger] next[k]).contains(sep) by {
                if k < prev.len() - 1 {
                    assert(next[k] == prev[k]);
                } else {
                    assert(next[k] == last);
                    assert(!prev[k].contains(sep));
                    if last.contains(sep) {
                        let j = choose|j: int| 0 <= j < last.len() && last[j] == sep;
                        if j < prev[k].len() {
                            assert(prev[k][j] == sep);
                        }
                    }
                }
            }
        }
    }
}

proof fn lemma_split_without_separator(s: Seq<char>, sep: char)
    requires
        !s.contains(sep),
    ensures
        split_on(s, sep) == seq![s],
    decreases s.len(),
{
    if s.len() == 0 {
        assert(s =~= Seq::<char>::empty());
    } else {
        assert(!s.drop_last().contains(sep)) by {
            if s.drop_last().contains(sep) {
                let j = choose|j: int| 0 <= j < s.drop_last().len() && s.drop_last()[j] == sep;
                assert(s[j] == sep);
            }
        }
        lemma_split_without_separator(s.drop_last(), sep);
        assert(s.last() != sep) by {
            assert(s[s.len() - 1] == s.last());
        }
        assert(s.drop_last().push(s.last()) =~= s);
        assert(seq![s.drop_last()].update(0, s) =~= seq![s]);
    }
}

/// A query value without a comma names exactly one tag, the value
/// trimmed, unless that is empty.
pub proof fn law_query_without_comma_is_one_tag(query: Seq<char>)
    requires
        !query.contains(','),
    ensures
        trim(query).len() > 0 ==> query_tags(query) == set![trim(query)],
        trim(query).len() == 0 ==> query_tags(query) == Set::<Seq<char>>::empty(),
{
    lemma_split_without_separator(query, ',');
    let pieces = split_on(query, ',');
    assert(pieces.drop_last() =~= Seq::<Seq<char>>::empty());
    assert(kept_tags(pieces.drop_last()) == Set::<Seq<char>>::empty());
    assert(pieces.last() == query);
    if trim(query).len() > 0 {
        assert(query_tags(query) =~= set![trim(query)]);
    } else {
        assert(query_tags(query) =~= Set::<Seq<char>>::empty());
    }
}

proof fn lemma_trim_start_cut(s: Seq<char>) -> (a: int)
    ensures
        0 <= a <= s.len(),
        trim_start(s) == s.subrange(a, s.len() as int),
        forall|k: int| 0 <= k < a ==> is_white_space(#[trigger] s[k]),
    decreases s.len(),
{
    if s.len() > 0 && is_white_space(s[0]) {
        let a1 = lemma_trim_start_cut(s.drop_first());
        assert(s.drop_first().subrange(a1, s.drop_first().len() as int) =~= s.subrange(
            a1 + 1,
            s.len() as int,
        ));
        assert forall|k: int| 0 <= k < a1 + 1 implies is_white_space(#[trigger] s[k]) by {
            if k > 0 {
                assert(s[k] == s.drop_first()[k - 1]);
            }
        }
        a1 + 1
    } else {
        assert(s.subrange(0, s.len() as int) =~= s);
        0
    }
}

proof fn lemma_trim_end_cut(s: Seq<char>) -> (b: int)
    ensures
        0 <= b <= s.len(),
        trim_end(s) == s.subrange(0, b),
        forall|k: int| b <= k < s.len() ==> is_white_space(#[trigger] s[k]),
    decreases s.len(),
{
    if s.len() > 0 && is_white_space(s.last()) {
        let b1 = lemma_trim_end_cut(s.drop_last());
        assert(s.drop_last().subrange(0, b1) =~= s.subrange(0, b1));
        assert forall|k: int| b1 <= k < s.len() implies is_white_space(#[trigger] s[k]) by {
            if k < s.len() - 1 {
                assert(s[k] == s.drop_last()[k]);
            }
        }
        b1
    } else {
        assert(s.subrange(0, s.len() as int) =~= s);
        s.len() as int
    }
}

/// Trimming keeps one contiguous stretch of the text and drops only white
/// space around it; what it keeps, if anything, starts and ends with a
/// character that is not white space.
pub proof fn law_trim_drops_only_white_space(s: Seq<char>)
    ensures
        exists|a: int, b: int|
            0 <= a <= b <= s.len() && trim(s) == s.subrange(a, b) && (forall|k: int|
                0 <= k < a ==> is_white_space(#[trigger] s[k])) && (forall|k: int|
                b <= k < s.len() ==> is_white_space(#[trigger] s[k])),
        trim(s).len() > 0 ==> !is_white_space(trim(s)[0]) && !is_white_space(trim(s).last()),
{
    let a = lemma_trim_start_cut(s);
    let t = trim_start(s);
    let b1 = lemma_trim_end_cut(t);
    let b = a + b1;
    assert(t.subrange(0, b1) =~= s.subrange(a, b));
    assert forall|k: int| b <= k < s.len() implies is_white_space(#[trigger] s[k]) by {
        assert(s[k] == t[k - a]);
    }
    law_trim_strips_both_ends(s);
}

} // verus!
