//! Tag canonicalization.
//!
//! A metric's identity is its name plus a canonical tag sequence: the caller's
//! tags, a `type` tag, and the agent-wide default tags, sorted and
//! deduplicated by key (of several tags with one key, only the first in
//! sorted order survives).  Canonical tag sequences are compared by view, so
//! two registrations agree exactly when their canonical sequences are equal.

use vstd::prelude::*;
use vstd::relations::{sorted_by, total_ordering};
use vstd::seq_lib::lemma_sorted_unique;

verus! {

/// View of one tag: key and value as character sequences.
pub type TagView = (Seq<char>, Seq<char>);

/// Lexicographic "less or equal" on character sequences, ordered by code
/// point.  The empty sequence precedes everything.
pub open spec fn chars_le(a: Seq<char>, b: Seq<char>) -> bool
    decreases a.len(),
{
    if a.len() == 0 {
        true
    } else if b.len() == 0 {
        false
    } else if (a[0] as u32) < (b[0] as u32) {
        true
    } else if (b[0] as u32) < (a[0] as u32) {
        false
    } else {
        chars_le(a.drop_first(), b.drop_first())
    }
}

/// Tags are ordered by key first, then by value.
pub open spec fn tag_le(a: TagView, b: TagView) -> bool {
    if a.0 == b.0 {
        chars_le(a.1, b.1)
    } else {
        chars_le(a.0, b.0)
    }
}

/// The tag order as a first-class relation, for use with vstd's sorting
/// vocabulary.
pub open spec fn tag_order() -> spec_fn(TagView, TagView) -> bool {
    |a: TagView, b: TagView| tag_le(a, b)
}

proof fn lemma_char_cast_injective(x: char, y: char)
    requires
        x as u32 == y as u32,
    ensures
        x == y,
{
}

pub proof fn lemma_chars_le_total(a: Seq<char>, b: Seq<char>)
    ensures
        chars_le(a, b) || chars_le(b, a),
    decreases a.len(),
{
    if a.len() == 0 || b.len() == 0 {
    } else if (a[0] as u32) < (b[0] as u32) || (b[0] as u32) < (a[0] as u32) {
    } else {
        lemma_chars_le_total(a.drop_first(), b.drop_first());
    }
}

pub proof fn lemma_chars_le_antisymmetric(a: Seq<char>, b: Seq<char>)
    requires
        chars_le(a, b),
        chars_le(b, a),
    ensures
        a == b,
    decreases a.len(),
{
    if a.len() == 0 {
        assert(b.len() == 0);
        assert(a =~= b);
    } else {
        assert(b.len() > 0);
        lemma_char_cast_injective(a[0], b[0]);
        lemma_chars_le_antisymmetric(a.drop_first(), b.drop_first());
        assert(a =~= seq![a[0]] + a.drop_first());
        assert(b =~= seq![b[0]] + b.drop_first());
    }
}

pub proof fn lemma_chars_le_transitive(a: Seq<char>, b: Seq<char>, c: Seq<char>)
    requires
        chars_le(a, b),
        chars_le(b, c),
    ensures
        chars_le(a, c),
    decreases a.len(),
{
    if a.len() == 0 || b.len() == 0 || c.len() == 0 {
    } else if (a[0] as u32) < (c[0] as u32) {
    } else {
        lemma_chars_le_transitive(a.drop_first(), b.drop_first(), c.drop_first());
    }
}

/// The tag order is a total ordering, which is what sorted-sequence
/// uniqueness rests on.
pub proof fn lemma_tag_order_total_ordering()
    ensures
        total_ordering(tag_order()),
{
    let leq = tag_order();
    assert forall|a: TagView| #[trigger] leq(a, a) by {
        lemma_chars_le_total(a.1, a.1);
    }
    assert forall|a: TagView, b: TagView| #[trigger] leq(a, b) && #[trigger] leq(b, a) implies a
        == b by {
        if a.0 == b.0 {
            lemma_chars_le_antisymmetric(a.1, b.1);
        } else {
            lemma_chars_le_antisymmetric(a.0, b.0);
        }
    }
    assert forall|a: TagView, b: TagView, c: TagView|
        #[trigger] leq(a, b) && #[trigger] leq(b, c) implies leq(a, c) by {
        if a.0 == b.0 && b.0 == c.0 {
            lemma_chars_le_transitive(a.1, b.1, c.1);
        } else if a.0 == b.0 {
        } else if b.0 == c.0 {
        } else {
            lemma_chars_le_transitive(a.0, b.0, c.0);
            if a.0 == c.0 {
                lemma_chars_le_antisymmetric(a.0, b.0);
            }
        }
    }
    assert forall|a: TagView, b: TagView| #[trigger] leq(a, b) || #[trigger] leq(b, a) by {
        if a.0 == b.0 {
            lemma_chars_le_total(a.1, b.1);
        } else {
            lemma_chars_le_total(a.0, b.0);
        }
    }
}

/// If two sequences agree on their first `i` characters, their order is
/// decided by the remainders.
proof fn lemma_chars_le_skip(a: Seq<char>, b: Seq<char>, i: int)
    requires
        0 <= i <= a.len(),
        i <= b.len(),
        forall|j: int| 0 <= j < i ==> a[j] == b[j],
    ensures
        chars_le(a, b) == chars_le(a.skip(i), b.skip(i)),
    decreases i,
{
    if i == 0 {
        assert(a.skip(0) =~= a);
        assert(b.skip(0) =~= b);
    } else {
        assert(a[0] == b[0]);
        lemma_chars_le_skip(a.drop_first(), b.drop_first(), i - 1);
        assert(a.drop_first().skip(i - 1) =~= a.skip(i));
        assert(b.drop_first().skip(i - 1) =~= b.skip(i));
    }
}

/// Lexicographic "less or equal" on strings, by code point.
pub fn str_leq(a: &str, b: &str) -> (r: bool)
    ensures
        r == chars_le(a@, b@),
{
    let a_len: usize = a.unicode_len();
    let b_len: usize = b.unicode_len();
    let mut i: usize = 0;
    loop
        invariant
            i <= a_len,
            i <= b_len,
            a_len == a@.len(),
            b_len == b@.len(),
            forall|j: int| 0 <= j < i ==> a@[j] == b@[j],
        decreases a_len - i,
    {
        proof {
            lemma_chars_le_skip(a@, b@, i as int);
        }
        if i == a_len {
            assert(a@.skip(i as int).len() == 0);
            return true;
        }
        if i == b_len {
            assert(b@.skip(i as int).len() == 0);
            assert(a@.skip(i as int).len() > 0);
            return false;
        }
        let ca = a.get_char(i);
        let cb = b.get_char(i);
        assert(a@.skip(i as int)[0] == ca);
        assert(b@.skip(i as int)[0] == cb);
        if (ca as u32) < (cb as u32) {
            return true;
        } else if (cb as u32) < (ca as u32) {
            return false;
        } else {
            proof {
                lemma_char_cast_injective(ca, cb);
            }
            assert(a@.skip(i as int).drop_first() =~= a@.skip(i + 1));
            assert(b@.skip(i as int).drop_first() =~= b@.skip(i + 1));
            i = i + 1;
        }
    }
}

/// The tag order, executably: keys decide, values break ties.
pub fn tag_leq(a: &(String, String), b: &(String, String)) -> (r: bool)
    ensures
        r == tag_le((a.0@, a.1@), (b.0@, b.1@)),
{
    if a.0 == b.0 {
        str_leq(a.1.as_str(), b.1.as_str())
    } else {
        str_leq(a.0.as_str(), b.0.as_str())
    }
}

/// Sorts tags into the canonical order.  The result is exactly the
/// specification-level sort, so any two tag vectors with the same tag
/// multiset sort to the same sequence.
pub fn sort_tags(tags: &mut Vec<(String, String)>)
    ensures
        final(tags).deep_view() == old(tags).deep_view().sort_by(tag_order()),
{
    proof {
        broadcast use vstd::seq_lib::group_to_multiset_ensures;

        lemma_tag_order_total_ordering();
        old(tags).deep_view().lemma_sort_by_ensures(tag_order());
    }
    let ghost orig: Seq<TagView> = tags.deep_view();
    let mut i: usize = 0;
    while i < tags.len()
        invariant
            i <= tags.len(),
            tags.deep_view().len() == orig.len(),
            tags.deep_view().to_multiset() == orig.to_multiset(),
            sorted_by(tags.deep_view().take(i as int), tag_order()),
        decreases tags.len() - i,
    {
        let ghost pre: Seq<TagView> = tags.deep_view();
        let ghost xv: TagView = pre[i as int];
        proof {
            assert(pre[i as int] == (tags@[i as int].0@, tags@[i as int].1@));
        }
        let mut p: usize = 0;
        let mut found = false;
        while p < i && !found
            invariant
                p <= i,
                i < tags.len(),
                pre == tags.deep_view(),
                xv == (tags@[i as int].0@, tags@[i as int].1@),
                forall|k: int| 0 <= k < p ==> tag_order()(pre[k], xv),
                found ==> p < i && !tag_order()(pre[p as int], xv),
            decreases i - p + (if found { 0int } else { 1int }),
        {
            proof {
                assert(pre[p as int] == (tags@[p as int].0@, tags@[p as int].1@));
            }
            let le = tag_leq(&tags[p], &tags[i]);
            if le {
                p = p + 1;
            } else {
                found = true;
            }
        }
        // `p` is the first position whose tag does not precede the one being
        // inserted (or `i`, when every earlier tag precedes it).
        proof {
            lemma_tag_order_total_ordering();
            if found {
                assert(tag_order()(xv, pre[p as int]));
            }
        }
        let x = tags.remove(i);
        tags.insert(p, x);
        proof {
            broadcast use vstd::seq_lib::group_to_multiset_ensures;

            assert((x.0@, x.1@) == xv);
            let mid: Seq<TagView> = pre.remove(i as int);
            assert(tags.deep_view() =~= mid.insert(p as int, xv));
            assert(tags.deep_view().to_multiset() == orig.to_multiset());
            let post = tags.deep_view();
            assert forall|m: int, n: int| 0 <= m < n < i + 1 implies #[trigger] tag_order()(
                post.take(i + 1)[m],
                post.take(i + 1)[n],
            ) by {
                let leq = tag_order();
                assert(post.take(i + 1)[m] == post[m]);
                assert(post.take(i + 1)[n] == post[n]);
                assert(forall|k: int| 0 <= k < p ==> post[k] == pre[k]);
                assert(post[p as int] == xv);
                assert(forall|k: int| p < k <= i ==> post[k] == pre[k - 1]);
                assert(forall|k: int| 0 <= k < i ==> pre.take(i as int)[k] == pre[k]);
                assert(forall|k1: int, k2: int|
                    0 <= k1 < k2 < i ==> #[trigger] leq(pre[k1], pre[k2]));
                if p < i {
                    assert(leq(xv, pre[p as int]));
                    assert forall|k: int| p <= k < i implies leq(xv, pre[k]) by {
                        if k > p {
                            assert(leq(pre[p as int], pre[k]));
                            assert(leq(xv, pre[k]));
                        }
                    }
                }
                if n < p {
                    assert(leq(post[m], post[n]));
                } else if n == p {
                    assert(leq(pre[m], xv));
                } else if m < p {
                    assert(leq(pre[m], pre[n - 1]));
                } else if m == p {
                    assert(leq(xv, pre[n - 1]));
                } else {
                    assert(leq(pre[m - 1], pre[n - 1]));
                }
            }
            assert(sorted_by(post.take(i + 1), tag_order()));
        }
        i = i + 1;
    }
    proof {
        lemma_tag_order_total_ordering();
        assert(tags.deep_view().take(tags.deep_view().len() as int) =~= tags.deep_view());
        lemma_sorted_unique(
            tags.deep_view(),
            orig.sort_by(tag_order()),
            tag_order(),
        );
    }
}

/// Key of the tag that records whether a metric is a counter or a histogram.
pub open spec fn type_tag_key() -> Seq<char> {
    "type"@
}

/// Drops every tag whose key already occurred earlier in the sequence's final
/// run of that key: of adjacent tags with one key, only the first survives.
pub open spec fn dedup_keys(s: Seq<TagView>) -> Seq<TagView>
    decreases s.len(),
{
    if s.len() <= 1 {
        s
    } else if s[s.len() - 1].0 == s[s.len() - 2].0 {
        dedup_keys(s.drop_last())
    } else {
        dedup_keys(s.drop_last()).push(s.last())
    }
}

/// Deduplication never empties a nonempty sequence, and the last surviving
/// tag carries the key of the last input tag.
pub proof fn lemma_dedup_keys_last(s: Seq<TagView>)
    requires
        s.len() > 0,
    ensures
        dedup_keys(s).len() > 0,
        dedup_keys(s).last().0 == s.last().0,
    decreases s.len(),
{
    if s.len() <= 1 {
    } else if s[s.len() - 1].0 == s[s.len() - 2].0 {
        lemma_dedup_keys_last(s.drop_last());
    } else {
        lemma_dedup_keys_last(s.drop_last());
    }
}

/// The canonical tag sequence of a registration: the caller's tags plus the
/// `type` tag plus the agent-wide defaults, sorted, with later duplicate keys
/// dropped.
pub open spec fn canonical_tags(
    base: Seq<TagView>,
    type_value: Seq<char>,
    defaults: Seq<TagView>,
) -> Seq<TagView> {
    dedup_keys((base.push((type_tag_key(), type_value)) + defaults).sort_by(tag_order()))
}

/// Removes every tag whose key equals the key of the tag kept just before it.
/// On a sorted sequence this keeps exactly the first tag of each key.
pub fn dedup_tags(tags: &mut Vec<(String, String)>)
    ensures
        final(tags).deep_view() == dedup_keys(old(tags).deep_view()),
{
    let ghost pre: Seq<TagView> = tags.deep_view();
    let mut out: Vec<(String, String)> = Vec::new();
    let mut j: usize = 0;
    while j < tags.len()
        invariant
            j <= tags.len(),
            pre == tags.deep_view(),
            out.deep_view() == dedup_keys(pre.take(j as int)),
        decreases tags.len() - j,
    {
        proof {
            assert(pre[j as int] == (tags@[j as int].0@, tags@[j as int].1@));
            if j > 0 {
                assert(pre.take(j as int).len() > 0);
                assert(pre.take(j as int).last() == pre[j - 1]);
                lemma_dedup_keys_last(pre.take(j as int));
            }
            assert(pre.take(j + 1).drop_last() =~= pre.take(j as int));
            assert(pre.take(j + 1).last() == pre[j as int]);
        }
        let out_len = out.len();
        if out_len > 0 && out[out_len - 1].0 == tags[j].0 {
            proof {
                assert(out.deep_view()[out_len - 1] == (out@[out_len - 1].0@, out@[out_len
                    - 1].1@));
                assert(pre.take(j + 1)[j as int].0 == pre.take(j + 1)[j - 1].0);
            }
        } else {
            let t = (tags[j].0.clone(), tags[j].1.clone());
            out.push(t);
            proof {
                if out_len > 0 {
                    assert(out.deep_view().drop_last() =~= dedup_keys(pre.take(j as int)));
                    assert(pre.take(j + 1)[j as int].0 != pre.take(j + 1)[j - 1].0);
                } else {
                    assert(pre.take(j + 1).len() == 1);
                    assert(out.deep_view() =~= pre.take(j + 1));
                }
                assert(out.deep_view() =~= dedup_keys(pre.take(j + 1)));
            }
        }
        j = j + 1;
    }
    proof {
        assert(pre.take(pre.len() as int) =~= pre);
    }
    *tags = out;
}

/// Builds the canonical tag sequence in place: appends the `type` tag and the
/// agent-wide default tags, sorts, and drops later duplicate keys.
pub fn enrich_tags(
    tags: &mut Vec<(String, String)>,
    type_value: &str,
    defaults: &Vec<(String, String)>,
)
    ensures
        final(tags).deep_view() == canonical_tags(
            old(tags).deep_view(),
            type_value@,
            defaults.deep_view(),
        ),
{
    let ghost base: Seq<TagView> = tags.deep_view();
    let type_key: String = "type".to_owned();
    tags.push((type_key, type_value.to_owned()));
    proof {
        assert(tags.deep_view() =~= base.push((type_tag_key(), type_value@)));
    }
    let ghost with_type: Seq<TagView> = tags.deep_view();
    let mut k: usize = 0;
    while k < defaults.len()
        invariant
            k <= defaults.len(),
            tags.deep_view() == with_type + defaults.deep_view().take(k as int),
        decreases defaults.len() - k,
    {
        let d = (defaults[k].0.clone(), defaults[k].1.clone());
        proof {
            assert(defaults.deep_view()[k as int] == (defaults@[k as int].0@, defaults@[k
                as int].1@));
            assert(d.0 == defaults@[k as int].0);
            assert(d.1 == defaults@[k as int].1);
            assert(d.deep_view() == defaults.deep_view()[k as int]);
        }
        tags.push(d);
        proof {
            assert(tags.deep_view() =~= (with_type + defaults.deep_view().take(k as int)).push(
                d.deep_view(),
            ));
            assert(tags.deep_view() =~= with_type + defaults.deep_view().take(k + 1));
        }
        k = k + 1;
    }
    proof {
        assert(defaults.deep_view().take(defaults.deep_view().len() as int)
            =~= defaults.deep_view());
    }
    sort_tags(tags);
    dedup_tags(tags);
}

/// Turns borrowed tags into owned tags, preserving their views.
pub fn to_owned_tags(tags: &[(&str, &str)]) -> (r: Vec<(String, String)>)
    ensures
        r.deep_view() == tags.deep_view(),
{
    let mut out: Vec<(String, String)> = Vec::new();
    let len = tags.len();
    let mut i: usize = 0;
    while i < len
        invariant
            i <= len,
            len == tags@.len(),
            out.deep_view() == tags.deep_view().take(i as int),
        decreases len - i,
    {
        let t = vstd::slice::slice_index_get(tags, i);
        let owned = (t.0.to_owned(), t.1.to_owned());
        proof {
            assert(tags.deep_view()[i as int] == (tags@[i as int].0@, tags@[i as int].1@));
            assert(owned.deep_view() == tags.deep_view()[i as int]);
        }
        out.push(owned);
        proof {
            assert(out.deep_view() =~= tags.deep_view().take(i as int).push(
                tags.deep_view()[i as int],
            ));
            assert(out.deep_view() =~= tags.deep_view().take(i + 1));
        }
        i = i + 1;
    }
    proof {
        assert(tags.deep_view().take(tags@.len() as int) =~= tags.deep_view());
    }
    out
}

/// Copies owned tags, preserving their views.
pub fn clone_tags(tags: &Vec<(String, String)>) -> (r: Vec<(String, String)>)
    ensures
        r.deep_view() == tags.deep_view(),
{
    let mut out: Vec<(String, String)> = Vec::new();
    let len = tags.len();
    let mut i: usize = 0;
    while i < len
        invariant
            i <= len,
            len == tags@.len(),
            out.deep_view() == tags.deep_view().take(i as int),
        decreases len - i,
    {
        let owned = (tags[i].0.clone(), tags[i].1.clone());
        proof {
            assert(tags.deep_view()[i as int] == (tags@[i as int].0@, tags@[i as int].1@));
            assert(owned.deep_view() == tags.deep_view()[i as int]);
        }
        out.push(owned);
        proof {
            assert(out.deep_view() =~= tags.deep_view().take(i as int).push(
                tags.deep_view()[i as int],
            ));
            assert(out.deep_view() =~= tags.deep_view().take(i + 1));
        }
        i = i + 1;
    }
    proof {
        assert(tags.deep_view().take(tags@.len() as int) =~= tags.deep_view());
    }
    out
}

/// Compares two owned tag vectors by view.
pub fn tags_equal(a: &Vec<(String, String)>, b: &Vec<(String, String)>) -> (r: bool)
    ensures
        r == (a.deep_view() == b.deep_view()),
{
    if a.len() != b.len() {
        proof {
            assert(a.deep_view().len() != b.deep_view().len());
        }
        return false;
    }
    let len = a.len();
    let mut i: usize = 0;
    while i < len
        invariant
            i <= len,
            len == a@.len(),
            len == b@.len(),
            forall|k: int| 0 <= k < i ==> a.deep_view()[k] == b.deep_view()[k],
        decreases len - i,
    {
        proof {
            assert(a.deep_view()[i as int] == (a@[i as int].0@, a@[i as int].1@));
            assert(b.deep_view()[i as int] == (b@[i as int].0@, b@[i as int].1@));
        }
        if a[i].0 != b[i].0 {
            proof {
                assert(a.deep_view()[i as int] != b.deep_view()[i as int]);
            }
            return false;
        }
        if a[i].1 != b[i].1 {
            proof {
                assert(a.deep_view()[i as int] != b.deep_view()[i as int]);
            }
            return false;
        }
        i = i + 1;
    }
    proof {
        assert(a.deep_view() =~= b.deep_view());
    }
    true
}

/// Whether each key occurs at most once in a tag sequence.
pub open spec fn keys_unique(s: Seq<TagView>) -> bool {
    forall|i: int, j: int| 0 <= i < j < s.len() ==> s[i].0 != s[j].0
}

/// A tag counted at least twice occurs at two positions.
proof fn lemma_count_two_positions(s: Seq<TagView>, x: TagView)
    requires
        s.to_multiset().count(x) >= 2,
    ensures
        exists|i: int, j: int| 0 <= i < j < s.len() && s[i] == x && s[j] == x,
    decreases s.len(),
{
    broadcast use vstd::seq_lib::group_to_multiset_ensures;

    assert(s.to_multiset().len() >= 2);
    assert(s.len() >= 2);
    assert(s.drop_last() =~= s.remove(s.len() - 1));
    if s.last() == x {
        assert(s.drop_last().to_multiset() =~= s.to_multiset().remove(x));
        assert(s.drop_last().to_multiset().count(x) >= 1);
        assert(s.drop_last().contains(x));
        let i = choose|i: int| 0 <= i < s.len() - 1 && s.drop_last()[i] == x;
        assert(s[i] == x && s[s.len() - 1] == x);
    } else {
        assert(s.drop_last().to_multiset() =~= s.to_multiset().remove(s.last()));
        assert(s.drop_last().to_multiset().count(x) >= 2);
        lemma_count_two_positions(s.drop_last(), x);
        let (i, j) = choose|i: int, j: int|
            0 <= i < j < s.drop_last().len() && s.drop_last()[i] == x && s.drop_last()[j] == x;
        assert(s[i] == x && s[j] == x);
    }
}

/// Two equal elements at two positions are counted at least twice.
proof fn lemma_two_positions_count(s: Seq<TagView>, i: int, j: int)
    requires
        0 <= i < j < s.len(),
        s[i] == s[j],
    ensures
        s.to_multiset().count(s[i]) >= 2,
{
    broadcast use vstd::seq_lib::group_to_multiset_ensures;

    assert(s.remove(j).to_multiset() =~= s.to_multiset().remove(s[j]));
    assert(s.remove(j)[i] == s[i]);
    assert(s.remove(j).contains(s[i]));
    assert(s.remove(j).to_multiset().count(s[i]) >= 1);
}

/// Key uniqueness survives reordering: a permutation of a sequence with
/// unique keys has unique keys.
proof fn lemma_keys_unique_permutation(a: Seq<TagView>, b: Seq<TagView>)
    requires
        a.to_multiset() == b.to_multiset(),
        keys_unique(a),
    ensures
        keys_unique(b),
{
    broadcast use vstd::seq_lib::group_to_multiset_ensures;

    assert forall|i: int, j: int| 0 <= i < j < b.len() implies b[i].0 != b[j].0 by {
        if b[i].0 == b[j].0 {
            if b[i] == b[j] {
                lemma_two_positions_count(b, i, j);
                lemma_count_two_positions(a, b[i]);
                let (m, n) = choose|m: int, n: int|
                    0 <= m < n < a.len() && a[m] == b[i] && a[n] == b[i];
                assert(a[m].0 != a[n].0);
            } else {
                assert(b.contains(b[i]));
                assert(b.contains(b[j]));
                assert(a.to_multiset().count(b[i]) > 0);
                assert(a.to_multiset().count(b[j]) > 0);
                assert(a.contains(b[i]));
                assert(a.contains(b[j]));
                let m = choose|m: int| 0 <= m < a.len() && a[m] == b[i];
                let n = choose|n: int| 0 <= n < a.len() && a[n] == b[j];
                assert(m != n);
                if m < n {
                    assert(a[m].0 != a[n].0);
                } else {
                    assert(a[n].0 != a[m].0);
                }
            }
        }
    }
}

/// On a sequence with unique keys, deduplication keeps everything.
proof fn lemma_dedup_keys_identity(s: Seq<TagView>)
    requires
        keys_unique(s),
    ensures
        dedup_keys(s) == s,
    decreases s.len(),
{
    if s.len() <= 1 {
    } else {
        assert(s[s.len() - 1].0 != s[s.len() - 2].0) by {
            assert(s[s.len() - 2].0 != s[s.len() - 1].0);
        }
        assert(keys_unique(s.drop_last())) by {
            assert(forall|i: int, j: int|
                0 <= i < j < s.len() - 1 ==> s.drop_last()[i] == s[i] && s.drop_last()[j]
                    == s[j]);
        }
        lemma_dedup_keys_identity(s.drop_last());
        assert(dedup_keys(s) =~= s);
    }
}

/// Canonicalization loses nothing when no two tags share a key — neither
/// with each other, nor with the type tag, nor with a default: two tag
/// sequences with one canonical form then hold one multiset of tags.  (A
/// tag whose key collides is dropped by deduplication, and such collapses
/// are exactly the registrations this does not speak of.)
pub proof fn lemma_canonical_tags_injective(
    a: Seq<TagView>,
    b: Seq<TagView>,
    type_value: Seq<char>,
    defaults: Seq<TagView>,
)
    requires
        keys_unique(a.push((type_tag_key(), type_value)) + defaults),
        keys_unique(b.push((type_tag_key(), type_value)) + defaults),
        canonical_tags(a, type_value, defaults) == canonical_tags(b, type_value, defaults),
    ensures
        a.to_multiset() == b.to_multiset(),
{
    broadcast use vstd::seq_lib::group_to_multiset_ensures;

    lemma_tag_order_total_ordering();
    let t = (type_tag_key(), type_value);
    let sa = a.push(t) + defaults;
    let sb = b.push(t) + defaults;
    sa.lemma_sort_by_ensures(tag_order());
    sb.lemma_sort_by_ensures(tag_order());
    lemma_keys_unique_permutation(sa, sa.sort_by(tag_order()));
    lemma_keys_unique_permutation(sb, sb.sort_by(tag_order()));
    lemma_dedup_keys_identity(sa.sort_by(tag_order()));
    lemma_dedup_keys_identity(sb.sort_by(tag_order()));
    assert(sa.sort_by(tag_order()) == sb.sort_by(tag_order()));
    assert(sa.to_multiset() == sb.to_multiset());
    vstd::seq_lib::lemma_multiset_commutative(a.push(t), defaults);
    vstd::seq_lib::lemma_multiset_commutative(b.push(t), defaults);
    broadcast use vstd::multiset::group_multiset_axioms;

    assert(a.push(t).to_multiset().add(defaults.to_multiset()) == b.push(t).to_multiset().add(
        defaults.to_multiset(),
    ));
    assert forall|x: TagView|
        a.push(t).to_multiset().count(x) == b.push(t).to_multiset().count(x) by {
        assert(a.push(t).to_multiset().add(defaults.to_multiset()).count(x) == b.push(
            t,
        ).to_multiset().add(defaults.to_multiset()).count(x));
    }
    assert(a.push(t).to_multiset() =~= b.push(t).to_multiset());
    assert(a.push(t).to_multiset() =~= a.to_multiset().insert(t));
    assert(b.push(t).to_multiset() =~= b.to_multiset().insert(t));
    assert forall|x: TagView| a.to_multiset().count(x) == b.to_multiset().count(x) by {
        assert(a.to_multiset().insert(t).count(x) == b.to_multiset().insert(t).count(x));
    }
    assert(a.to_multiset() =~= b.to_multiset());
}

/// Canonicalization is a function of the tag multiset alone: two
/// registrations whose tags are permutations of one another, under one type
/// tag and one set of defaults, produce one canonical sequence.
pub proof fn lemma_canonical_tags_permutation(
    a: Seq<TagView>,
    b: Seq<TagView>,
    type_value: Seq<char>,
    defaults: Seq<TagView>,
)
    requires
        a.to_multiset() == b.to_multiset(),
    ensures
        canonical_tags(a, type_value, defaults) == canonical_tags(b, type_value, defaults),
{
    broadcast use vstd::seq_lib::group_to_multiset_ensures;

    lemma_tag_order_total_ordering();
    let t = (type_tag_key(), type_value);
    let sa = a.push(t) + defaults;
    let sb = b.push(t) + defaults;
    vstd::seq_lib::lemma_multiset_commutative(a.push(t), defaults);
    vstd::seq_lib::lemma_multiset_commutative(b.push(t), defaults);
    assert(sa.to_multiset() =~= sb.to_multiset());
    sa.lemma_sort_by_ensures(tag_order());
    sb.lemma_sort_by_ensures(tag_order());
    lemma_sorted_unique(sa.sort_by(tag_order()), sb.sort_by(tag_order()), tag_order());
}

} // verus!
