//! The post repository: posts in their publishing order and the tag index.
use vstd::prelude::*;
use vstd::string::{StringExecFns, StringSliceAdditionalSpecFns};
use vstd::utf8::*;
use crate::date::Date;
use crate::error::Error;
use crate::header::{header_text, toml_header_text};
use crate::markdown::Markdown;
use crate::order::{
    bytes_lt, compare_bytes, lemma_bytes_lt_irreflexive, lemma_bytes_lt_total,
    lemma_bytes_lt_transitive,
};
use crate::post::{field_name, post_reads, post_view_of, 
    body_of, body_start, delimiter, error_path, header_end, header_of, is_framed,
    lemma_ascii_boundary, stem_of, top_marker, top_of, Post, PostView,
};
use crate::text::{find_from, occurs_at};

verus! {

/// `a` sorts strictly before `b` by the key (date, title); titles compare
/// as their UTF-8 bytes, as `String` does.
pub open spec fn key_before(a: PostView, b: PostView) -> bool {
    ||| a.date.before(&b.date)
    ||| a.date == b.date && bytes_lt(encode_utf8(a.title), encode_utf8(b.title))
}

pub open spec fn same_key(a: PostView, b: PostView) -> bool {
    a.date == b.date && a.title == b.title
}

/// Places `x` into a sequence sorted by descending key: after every
/// element with a greater key, before the first whose key is not greater.
pub open spec fn insert_desc(x: PostView, s: Seq<PostView>) -> Seq<PostView>
    decreases s.len(),
{
    if s.len() == 0 {
        seq![x]
    } else if key_before(x, s[0]) {
        seq![s[0]] + insert_desc(x, s.drop_first())
    } else {
        seq![x] + s
    }
}

/// The publishing order: a stable sort by ascending (date, title), then
/// reversed. Posts with equal keys come out later-read first.
pub open spec fn sort_desc(s: Seq<PostView>) -> Seq<PostView>
    decreases s.len(),
{
    if s.len() == 0 {
        s
    } else {
        insert_desc(s.last(), sort_desc(s.drop_last()))
    }
}

/// No element has a greater key than an earlier one.
pub open spec fn is_sorted_desc(s: Seq<PostView>) -> bool {
    forall|i: int, j: int| 0 <= i < j < s.len() ==> !key_before(#[trigger] s[i], #[trigger] s[j])
}

/// Keys strictly fall along the sequence.
pub open spec fn is_strictly_desc(s: Seq<PostView>) -> bool {
    forall|i: int, j: int| 0 <= i < j < s.len() ==> key_before(#[trigger] s[j], #[trigger] s[i])
}

/// No two positions hold posts with the same key.
pub open spec fn keys_distinct(s: Seq<PostView>) -> bool {
    forall|i: int, j: int|
        0 <= i < s.len() && 0 <= j < s.len() && i != j ==> !same_key(#[trigger] s[i], #[trigger] s[j])
}

/// The two sequences hold the same posts.
pub open spec fn same_posts(a: Seq<PostView>, b: Seq<PostView>) -> bool {
    forall|x: PostView| a.contains(x) <==> b.contains(x)
}

/// No post sorts before itself.
pub proof fn lemma_key_before_irreflexive(a: PostView)
    ensures
        !key_before(a, a),
{
    lemma_bytes_lt_irreflexive(encode_utf8(a.title));
}

/// The key order is transitive.
pub proof fn lemma_key_before_transitive(a: PostView, b: PostView, c: PostView)
    requires
        key_before(a, b),
        key_before(b, c),
    ensures
        key_before(a, c),
{
    if a.date == b.date && b.date == c.date {
        lemma_bytes_lt_transitive(encode_utf8(a.title), encode_utf8(b.title), encode_utf8(c.title));
    }
}

/// Keys that are neither before the other are the same key.
pub proof fn lemma_key_total(a: PostView, b: PostView)
    ensures
        key_before(a, b) || key_before(b, a) || same_key(a, b),
{
    lemma_bytes_lt_total(encode_utf8(a.title), encode_utf8(b.title));
    encode_utf8_decode_utf8(a.title);
    encode_utf8_decode_utf8(b.title);
}

proof fn lemma_not_before_transitive(a: PostView, b: PostView, c: PostView)
    requires
        !key_before(a, b),
        !key_before(b, c),
    ensures
        !key_before(a, c),
{
    lemma_key_total(a, b);
    lemma_key_total(b, c);
    if key_before(a, c) {
        if key_before(b, a) {
            lemma_key_before_transitive(b, a, c);
        } else {
            assert(same_key(a, b));
            if key_before(c, b) {
                lemma_key_before_transitive(c, b, c);
                lemma_key_before_irreflexive(c);
            } else {
                assert(same_key(b, c));
                lemma_key_before_irreflexive(a);
            }
        }
    }
}

proof fn lemma_insert_desc_contents(x: PostView, s: Seq<PostView>)
    ensures
        insert_desc(x, s).len() == s.len() + 1,
        forall|y: PostView| #[trigger] insert_desc(x, s).contains(y) <==> (y == x || s.contains(y)),
    decreases s.len(),
{
    if s.len() > 0 && key_before(x, s[0]) {
        lemma_insert_desc_contents(x, s.drop_first());
        let t = insert_desc(x, s.drop_first());
        assert forall|y: PostView| #[trigger] insert_desc(x, s).contains(y) <==> (y == x
            || s.contains(y)) by {
            let r = insert_desc(x, s);
            let tail = s.drop_first();
            assert(r == seq![s[0]] + t);
            assert(r[0] == s[0]);
            assert(s[0] == s[0] && s.contains(s[0]));
            if r.contains(y) && y != s[0] {
                let k = choose|k: int| 0 <= k < r.len() && r[k] == y;
                assert(t[k - 1] == y);
                assert(t.contains(y));
                if y != x {
                    let m = choose|m: int| 0 <= m < tail.len() && tail[m] == y;
                    assert(s[m + 1] == y);
                }
            }
            if y == x || s.contains(y) {
                if y != s[0] {
                    if y != x {
                        let k = choose|k: int| 0 <= k < s.len() && s[k] == y;
                        assert(tail[k - 1] == y);
                        assert(tail.contains(y));
                    }
                    assert(t.contains(y));
                    let m = choose|m: int| 0 <= m < t.len() && t[m] == y;
                    assert(r[m + 1] == y);
                }
            }
        }
    } else if s.len() > 0 {
        assert forall|y: PostView| #[trigger] insert_desc(x, s).contains(y) <==> (y == x
            || s.contains(y)) by {
            if s.contains(y) {
                let k = choose|k: int| 0 <= k < s.len() && s[k] == y;
                assert(insert_desc(x, s)[k + 1] == y);
            }
            if insert_desc(x, s).contains(y) && y != x {
                let k = choose|k: int| 0 <= k < insert_desc(x, s).len() && insert_desc(x, s)[k] == y;
                assert(s[k - 1] == y);
            }
        }
    } else {
        assert forall|y: PostView| #[trigger] insert_desc(x, s).contains(y) <==> (y == x
            || s.contains(y)) by {
            if insert_desc(x, s).contains(y) {
                assert(insert_desc(x, s)[0] == y);
            }
            assert(insert_desc(x, s)[0] == x);
        }
    }
}

proof fn lemma_insert_desc_sorted(x: PostView, s: Seq<PostView>)
    requires
        is_sorted_desc(s),
    ensures
        is_sorted_desc(insert_desc(x, s)),
    decreases s.len(),
{
    lemma_insert_desc_contents(x, s);
    let r = insert_desc(x, s);
    if s.len() > 0 && key_before(x, s[0]) {
        let t = s.drop_first();
        lemma_insert_desc_sorted(x, t);
        lemma_insert_desc_contents(x, t);
        assert forall|i: int, j: int| 0 <= i < j < r.len() implies !key_before(
            #[trigger] r[i],
            #[trigger] r[j],
        ) by {
            if i == 0 {
                let y = r[j];
                assert(insert_desc(x, t)[j - 1] == y);
                assert(insert_desc(x, t).contains(y));
                if y == x {
                    if key_before(s[0], x) {
                        lemma_key_before_transitive(s[0], x, s[0]);
                        lemma_key_before_irreflexive(s[0]);
                    }
                } else {
                    let k = choose|k: int| 0 <= k < t.len() && t[k] == y;
                    assert(s[k + 1] == y);
                }
            } else {
                assert(r[i] == insert_desc(x, t)[i - 1]);
                assert(r[j] == insert_desc(x, t)[j - 1]);
            }
        }
    } else if s.len() > 0 {
        assert forall|i: int, j: int| 0 <= i < j < r.len() implies !key_before(
            #[trigger] r[i],
            #[trigger] r[j],
        ) by {
            if i == 0 {
                assert(r[j] == s[j - 1]);
                if j - 1 > 0 {
                    assert(!key_before(s[0], s[j - 1]));
                    lemma_not_before_transitive(x, s[0], s[j - 1]);
                }
            } else {
                assert(r[i] == s[i - 1]);
                assert(r[j] == s[j - 1]);
            }
        }
    }
}

proof fn lemma_insert_desc_strict(x: PostView, s: Seq<PostView>)
    requires
        is_strictly_desc(s),
        forall|k: int| 0 <= k < s.len() ==> !same_key(x, #[trigger] s[k]),
    ensures
        is_strictly_desc(insert_desc(x, s)),
    decreases s.len(),
{
    lemma_insert_desc_contents(x, s);
    let r = insert_desc(x, s);
    if s.len() > 0 && key_before(x, s[0]) {
        let t = s.drop_first();
        assert forall|k: int| 0 <= k < t.len() implies !same_key(x, #[trigger] t[k]) by {
            assert(t[k] == s[k + 1]);
        }
        lemma_insert_desc_strict(x, t);
        lemma_insert_desc_contents(x, t);
        assert forall|i: int, j: int| 0 <= i < j < r.len() implies key_before(
            #[trigger] r[j],
            #[trigger] r[i],
        ) by {
            if i == 0 {
                let y = r[j];
                assert(insert_desc(x, t)[j - 1] == y);
                assert(insert_desc(x, t).contains(y));
                if y != x {
                    let k = choose|k: int| 0 <= k < t.len() && t[k] == y;
                    assert(s[k + 1] == y);
                }
            } else {
                assert(r[i] == insert_desc(x, t)[i - 1]);
                assert(r[j] == insert_desc(x, t)[j - 1]);
            }
        }
    } else if s.len() > 0 {
        lemma_key_total(x, s[0]);
        assert forall|i: int, j: int| 0 <= i < j < r.len() implies key_before(
            #[trigger] r[j],
            #[trigger] r[i],
        ) by {
            if i == 0 {
                assert(r[j] == s[j - 1]);
                if j - 1 > 0 {
                    assert(key_before(s[j - 1], s[0]));
                    lemma_key_before_transitive(s[j - 1], s[0], x);
                }
            } else {
                assert(r[i] == s[i - 1]);
                assert(r[j] == s[j - 1]);
            }
        }
    }
}

proof fn lemma_insert_desc_multiset(x: PostView, s: Seq<PostView>)
    ensures
        insert_desc(x, s).to_multiset() == s.to_multiset().insert(x),
    decreases s.len(),
{
    broadcast use vstd::seq_lib::group_to_multiset_ensures;

    if s.len() == 0 {
        assert(seq![x] =~= s.push(x));
    } else if key_before(x, s[0]) {
        let t = s.drop_first();
        lemma_insert_desc_multiset(x, t);
        vstd::seq_lib::lemma_multiset_commutative(seq![s[0]], insert_desc(x, t));
        vstd::seq_lib::lemma_multiset_commutative(seq![s[0]], t);
        assert(seq![s[0]] + t =~= s);
        assert(seq![s[0]] =~= Seq::<PostView>::empty().push(s[0]));
        assert(insert_desc(x, s).to_multiset() =~= s.to_multiset().insert(x));
    } else {
        vstd::seq_lib::lemma_multiset_commutative(seq![x], s);
        assert(seq![x] =~= Seq::<PostView>::empty().push(x));
        assert(insert_desc(x, s).to_multiset() =~= s.to_multiset().insert(x));
    }
}

/// The publishing order is a permutation of the posts it was given: the
/// same posts, each as many times.
pub proof fn lemma_sort_desc_permutation(s: Seq<PostView>)
    ensures
        sort_desc(s).to_multiset() == s.to_multiset(),
    decreases s.len(),
{
    broadcast use vstd::seq_lib::group_to_multiset_ensures;

    if s.len() > 0 {
        let p = s.drop_last();
        lemma_sort_desc_permutation(p);
        lemma_insert_desc_multiset(s.last(), sort_desc(p));
        assert(p.push(s.last()) =~= s);
    }
}

/// The publishing order holds the posts it was given, each once, and no
/// post has a greater key than one before it.
pub proof fn lemma_sort_desc_sorted(s: Seq<PostView>)
    ensures
        sort_desc(s).len() == s.len(),
        is_sorted_desc(sort_desc(s)),
        same_posts(sort_desc(s), s),
    decreases s.len(),
{
    if s.len() > 0 {
        let p = s.drop_last();
        lemma_sort_desc_sorted(p);
        lemma_insert_desc_sorted(s.last(), sort_desc(p));
        lemma_insert_desc_contents(s.last(), sort_desc(p));
        assert forall|x: PostView| sort_desc(s).contains(x) <==> s.contains(x) by {
            if s.contains(x) && x != s.last() {
                let k = choose|k: int| 0 <= k < s.len() && s[k] == x;
                assert(p[k] == x);
            }
            if p.contains(x) {
                let k = choose|k: int| 0 <= k < p.len() && p[k] == x;
                assert(s[k] == x);
            }
        }
    }
}

proof fn lemma_sort_desc_strict(s: Seq<PostView>)
    requires
        keys_distinct(s),
    ensures
        is_strictly_desc(sort_desc(s)),
    decreases s.len(),
{
    if s.len() > 0 {
        let p = s.drop_last();
        assert forall|i: int, j: int|
            0 <= i < p.len() && 0 <= j < p.len() && i != j implies !same_key(
            #[trigger] p[i],
            #[trigger] p[j],
        ) by {
            assert(p[i] == s[i] && p[j] == s[j]);
        }
        lemma_sort_desc_strict(p);
        lemma_sort_desc_sorted(p);
        let q = sort_desc(p);
        assert forall|k: int| 0 <= k < q.len() implies !same_key(s.last(), #[trigger] q[k]) by {
            assert(q.contains(q[k]));
            assert(p.contains(q[k]));
            let m = choose|m: int| 0 <= m < p.len() && p[m] == q[k];
            assert(s[m] == q[k]);
        }
        lemma_insert_desc_strict(s.last(), q);
    }
}

proof fn lemma_strict_unique(a: Seq<PostView>, b: Seq<PostView>)
    requires
        is_strictly_desc(a),
        is_strictly_desc(b),
        same_posts(a, b),
    ensures
        a == b,
    decreases a.len(),
{
    if a.len() == 0 {
        if b.len() > 0 {
            assert(b.contains(b[0]));
        }
        assert(b =~= a);
    } else {
        assert(a.contains(a[0]));
        assert(b.contains(a[0]));
        let k = choose|k: int| 0 <= k < b.len() && b[k] == a[0];
        assert(b.contains(b[0]));
        let m = choose|m: int| 0 <= m < a.len() && a[m] == b[0];
        if k > 0 {
            assert(key_before(b[k], b[0]));
            if m > 0 {
                assert(key_before(a[m], a[0]));
                lemma_key_before_transitive(a[0], a[m], a[0]);
            }
            lemma_key_before_irreflexive(a[0]);
        }
        let ta = a.drop_first();
        let tb = b.drop_first();
        assert forall|x: PostView| ta.contains(x) <==> tb.contains(x) by {
            if ta.contains(x) {
                let i = choose|i: int| 0 <= i < ta.len() && ta[i] == x;
                assert(a[i + 1] == x);
                assert(b.contains(x));
                let j = choose|j: int| 0 <= j < b.len() && b[j] == x;
                if j == 0 {
                    assert(key_before(a[i + 1], a[0]));
                    lemma_key_before_irreflexive(x);
                }
                assert(tb[j - 1] == x);
            }
            if tb.contains(x) {
                let i = choose|i: int| 0 <= i < tb.len() && tb[i] == x;
                assert(b[i + 1] == x);
                assert(a.contains(x));
                let j = choose|j: int| 0 <= j < a.len() && a[j] == x;
                if j == 0 {
                    assert(key_before(b[i + 1], b[0]));
                    lemma_key_before_irreflexive(x);
                }
                assert(ta[j - 1] == x);
            }
        }
        lemma_strict_unique(ta, tb);
        assert(a =~= seq![a[0]] + ta);
        assert(b =~= seq![b[0]] + tb);
    }
}

/// Where no two posts share a (date, title) key, the publishing order
/// depends only on which posts there are, not on the order in which they
/// were read: reading the directory in reverse, or in any other order,
/// gives the same sequence.
pub proof fn lemma_order_independent_of_reading(s1: Seq<PostView>, s2: Seq<PostView>)
    requires
        keys_distinct(s1),
        keys_distinct(s2),
        same_posts(s1, s2),
    ensures
        sort_desc(s1) == sort_desc(s2),
{
    lemma_sort_desc_sorted(s1);
    lemma_sort_desc_sorted(s2);
    lemma_sort_desc_strict(s1);
    lemma_sort_desc_strict(s2);
    lemma_strict_unique(sort_desc(s1), sort_desc(s2));
}

/// Reading the directory in reverse order gives the same publishing
/// order, where no two posts share a (date, title) key.
pub proof fn lemma_reversed_reading_same_order(s: Seq<PostView>)
    requires
        keys_distinct(s),
    ensures
        sort_desc(s.reverse()) == sort_desc(s),
{
    let r = s.reverse();
    assert forall|i: int, j: int|
        0 <= i < r.len() && 0 <= j < r.len() && i != j implies !same_key(#[trigger] r[i], #[trigger] r[j]) by {
        assert(r[i] == s[s.len() - 1 - i]);
        assert(r[j] == s[s.len() - 1 - j]);
    }
    assert forall|x: PostView| r.contains(x) <==> s.contains(x) by {
        if r.contains(x) {
            let i = choose|i: int| 0 <= i < r.len() && r[i] == x;
            assert(s[s.len() - 1 - i] == x);
        }
        if s.contains(x) {
            let i = choose|i: int| 0 <= i < s.len() && s[i] == x;
            assert(r[s.len() - 1 - i] == x);
        }
    }
    lemma_order_independent_of_reading(r, s);
}

/// The views of a sequence of posts.
pub open spec fn views(s: Seq<Post>) -> Seq<PostView> {
    s.map_values(|p: Post| p@)
}

/// Tags sort by their UTF-8 bytes, as `String` does.
pub open spec fn tag_before(a: Seq<char>, b: Seq<char>) -> bool {
    bytes_lt(encode_utf8(a), encode_utf8(b))
}

/// Some post of `ps` carries tag `t`.
pub open spec fn has_tag_in(ps: Seq<PostView>, t: Seq<char>) -> bool {
    exists|i: int| 0 <= i < ps.len() && #[trigger] ps[i].tags.contains(t)
}

/// `tags` is the tag index of `ps`: every tag of every post, sorted, each
/// once.
pub open spec fn is_tag_index(ps: Seq<PostView>, tags: Seq<Seq<char>>) -> bool {
    &&& forall|i: int, j: int| 0 <= i < j < tags.len() ==> tag_before(#[trigger] tags[i], #[trigger] tags[j])
    &&& forall|t: Seq<char>| tags.contains(t) <==> has_tag_in(ps, t)
}

/// A tag index holds no tag twice.
pub proof fn lemma_tag_index_no_repeats(ps: Seq<PostView>, tags: Seq<Seq<char>>)
    requires
        is_tag_index(ps, tags),
    ensures
        forall|i: int, j: int| 0 <= i < tags.len() && 0 <= j < tags.len() && i != j ==> tags[i] != tags[j],
{
    assert forall|i: int, j: int| 0 <= i < tags.len() && 0 <= j < tags.len() && i != j implies tags[i] != tags[j] by {
        lemma_bytes_lt_irreflexive(encode_utf8(tags[i]));
        if i < j {
            assert(tag_before(tags[i], tags[j]));
        } else {
            assert(tag_before(tags[j], tags[i]));
        }
    }
}

proof fn lemma_insert_desc_at(x: PostView, s: Seq<PostView>, j: int)
    requires
        0 <= j <= s.len(),
        forall|k: int| 0 <= k < j ==> key_before(x, #[trigger] s[k]),
        j < s.len() ==> !key_before(x, s[j]),
    ensures
        insert_desc(x, s) == s.insert(j, x),
    decreases j,
{
    if j == 0 {
        assert(s.insert(0, x) =~= seq![x] + s);
    } else {
        let t = s.drop_first();
        assert forall|k: int| 0 <= k < j - 1 implies key_before(x, #[trigger] t[k]) by {
            assert(t[k] == s[k + 1]);
        }
        lemma_insert_desc_at(x, t, j - 1);
        assert(s.insert(j, x) =~= seq![s[0]] + t.insert(j - 1, x));
    }
}

impl Post {
    /// The post sorts strictly before `other` by (date, title).
    pub fn key_before(&self, other: &Post) -> (r: bool)
        ensures
            r == key_before(self@, other@),
    {
        let c = self.date.compare(&other.date);
        if c != 0 {
            c < 0
        } else {
            compare_bytes(self.title.as_str().as_bytes(), other.title.as_str().as_bytes()) < 0
        }
    }
}

/// Sorts posts into the publishing order.
pub fn sort_posts(posts: Vec<Post>) -> (r: Vec<Post>)
    ensures
        views(r@) == sort_desc(views(posts@)),
{
    let mut input = posts;
    let mut out: Vec<Post> = Vec::new();
    let ghost all = views(posts@);
    let mut n: usize = 0;
    let total = input.len();
    while input.len() > 0
        invariant
            n + input@.len() == all.len(),
            all.len() == posts@.len(),
            all.len() == total,
            views(input@) == all.subrange(n as int, all.len() as int),
            views(out@) == sort_desc(all.subrange(0, n as int)),
        decreases input@.len(),
    {
        let ghost prev = input@;
        let x = input.remove(0);
        let ghost xv = x@;
        assert(views(prev)[0] == xv);
        assert(xv == all[n as int]);
        let mut j: usize = 0;
        while j < out.len() && x.key_before(&out[j])
            invariant
                j <= out@.len(),
                x@ == xv,
                forall|k: int| 0 <= k < j ==> key_before(xv, #[trigger] views(out@)[k]),
            decreases out@.len() - j,
        {
            j = j + 1;
        }
        proof {
            lemma_insert_desc_at(xv, views(out@), j as int);
            assert(all.subrange(0, n + 1).drop_last() =~= all.subrange(0, n as int));
        }
        let ghost before_insert = out@;
        out.insert(j, x);
        assert(views(out@) =~= views(before_insert).insert(j as int, xv));
        n = n + 1;
        assert(input@ =~= prev.subrange(1, prev.len() as int));
        assert(views(input@) =~= views(prev).subrange(1, prev.len() as int));
        assert(views(input@) =~= all.subrange(n as int, all.len() as int));
    }
    assert(all.subrange(0, n as int) =~= all);
    out
}

/// The texts of a sequence of strings.
pub open spec fn tag_views(v: Seq<String>) -> Seq<Seq<char>> {
    v.map_values(|t: String| t@)
}

/// Tag `x` stands at a place before (post `i`, tag `j`) in reading order.
pub open spec fn seen_before(ps: Seq<PostView>, i: int, j: int, x: Seq<char>) -> bool {
    exists|a: int, b: int|
        0 <= a < ps.len() && 0 <= b < ps[a].tags.len() && (a < i || (a == i && b < j))
            && #[trigger] ps[a].tags[b] == x
}

/// Every tag of every post, sorted by bytes, each once.
pub fn collect_tags(posts: &Vec<Post>) -> (r: Vec<String>)
    ensures
        is_tag_index(views(posts@), tag_views(r@)),
{
    let ghost ps = views(posts@);
    let mut out: Vec<String> = Vec::new();
    let mut i: usize = 0;
    while i < posts.len()
        invariant
            i <= posts@.len(),
            ps == views(posts@),
            forall|a: int, b: int| 0 <= a < b < out@.len() ==> tag_before(#[trigger] out@[a]@, #[trigger] out@[b]@),
            forall|x: Seq<char>| #[trigger] tag_views(out@).contains(x) <==> seen_before(ps, i as int, 0, x),
        decreases posts@.len() - i,
    {
        let tags = &posts[i].tags;
        let mut j: usize = 0;
        while j < tags.len()
            invariant
                i < posts@.len(),
                j <= tags@.len(),
                ps == views(posts@),
                tags@ == posts@[i as int].tags@,
                forall|a: int, b: int| 0 <= a < b < out@.len() ==> tag_before(#[trigger] out@[a]@, #[trigger] out@[b]@),
                forall|x: Seq<char>| #[trigger] tag_views(out@).contains(x) <==> seen_before(ps, i as int, j as int, x),
            decreases tags@.len() - j,
        {
            let t = &tags[j];
            let ghost tv = t@;
            assert(ps[i as int].tags[j as int] == tv);
            let mut k: usize = 0;
            while k < out.len() && compare_bytes(out[k].as_str().as_bytes(), t.as_str().as_bytes()) < 0
                invariant
                    k <= out@.len(),
                    t@ == tv,
                    forall|m: int| 0 <= m < k ==> tag_before(#[trigger] out@[m]@, tv),
                decreases out@.len() - k,
            {
                k = k + 1;
            }
            let ghost prev = out@;
            let ghost pv = tag_views(prev);
            if k < out.len() && out[k] == *t {
                assert(pv[k as int] == tv);
            } else {
                proof {
                    if k < prev.len() {
                        lemma_bytes_lt_total(encode_utf8(prev[k as int]@), encode_utf8(tv));
                        encode_utf8_decode_utf8(prev[k as int]@);
                        encode_utf8_decode_utf8(tv);
                    }
                }
                out.insert(k, t.clone());
                proof {
                    assert(out@ == prev.insert(k as int, out@[k as int]));
                    assert forall|a: int, b: int| 0 <= a < b < out@.len() implies tag_before(#[trigger] out@[a]@, #[trigger] out@[b]@) by {
                        if a < k && b > k {
                            assert(out@[b] == prev[b - 1]);
                            if b - 1 > k {
                                assert(tag_before(prev[k as int]@, prev[b - 1]@));
                                lemma_bytes_lt_transitive(encode_utf8(tv), encode_utf8(prev[k as int]@), encode_utf8(prev[b - 1]@));
                            }
                            lemma_bytes_lt_transitive(encode_utf8(out@[a]@), encode_utf8(tv), encode_utf8(out@[b]@));
                        } else if a == k && b - 1 > k {
                            assert(out@[b] == prev[b - 1]);
                            assert(tag_before(prev[k as int]@, prev[b - 1]@));
                            lemma_bytes_lt_transitive(encode_utf8(tv), encode_utf8(prev[k as int]@), encode_utf8(prev[b - 1]@));
                        } else if a > k {
                            assert(out@[a] == prev[a - 1]);
                            assert(out@[b] == prev[b - 1]);
                        } else if b < k {
                            assert(out@[a] == prev[a]);
                            assert(out@[b] == prev[b]);
                        } else if b == k {
                            assert(out@[a] == prev[a]);
                        }
                    }
                    assert(tag_views(out@) =~= pv.insert(k as int, tv));
                }
            }
            proof {
                let ov = tag_views(out@);
                assert forall|x: Seq<char>| ov.contains(x) <==> seen_before(ps, i as int, j + 1, x) by {
                    if seen_before(ps, i as int, j + 1, x) && x != tv {
                        let (a, b) = choose|a: int, b: int|
                            0 <= a < ps.len() && 0 <= b < ps[a].tags.len() && (a < i || (a == i && b < j + 1))
                                && #[trigger] ps[a].tags[b] == x;
                        assert(seen_before(ps, i as int, j as int, x));
                    }
                    if x == tv {
                        assert(ps[i as int].tags[j as int] == x);
                        assert(seen_before(ps, i as int, j + 1, x));
                    }
                    if seen_before(ps, i as int, j as int, x) {
                        let (a, b) = choose|a: int, b: int|
                            0 <= a < ps.len() && 0 <= b < ps[a].tags.len() && (a < i || (a == i && b < j))
                                && #[trigger] ps[a].tags[b] == x;
                        assert(seen_before(ps, i as int, j + 1, x));
                    }
                    if ov.contains(x) && x != tv {
                        let m = choose|m: int| 0 <= m < ov.len() && ov[m] == x;
                        if ov.len() == pv.len() {
                            assert(pv[m] == x);
                        } else if m < k {
                            assert(pv[m] == x);
                        } else {
                            assert(pv[m - 1] == x);
                        }
                        assert(pv.contains(x));
                    }
                    if pv.contains(x) {
                        let m = choose|m: int| 0 <= m < pv.len() && pv[m] == x;
                        if ov.len() == pv.len() {
                            assert(ov[m] == x);
                        } else if m < k {
                            assert(ov[m] == x);
                        } else {
                            assert(ov[m + 1] == x);
                        }
                    }
                    if x == tv {
                        if ov.len() == pv.len() {
                            assert(ov[k as int] == x);
                        } else {
                            assert(ov[k as int] == x);
                        }
                    }
                }
            }
            j = j + 1;
        }
        proof {
            assert(ps[i as int].tags.len() == tags@.len());
            assert forall|x: Seq<char>| seen_before(ps, i as int, tags@.len() as int, x) <==> seen_before(ps, i + 1, 0, x) by {
                if seen_before(ps, i + 1, 0, x) {
                    let (a, b) = choose|a: int, b: int|
                        0 <= a < ps.len() && 0 <= b < ps[a].tags.len() && (a < i + 1 || (a == i + 1 && b < 0))
                            && #[trigger] ps[a].tags[b] == x;
                    assert(seen_before(ps, i as int, tags@.len() as int, x));
                }
                if seen_before(ps, i as int, tags@.len() as int, x) {
                    let (a, b) = choose|a: int, b: int|
                        0 <= a < ps.len() && 0 <= b < ps[a].tags.len() && (a < i || (a == i && b < tags@.len()))
                            && #[trigger] ps[a].tags[b] == x;
                    assert(seen_before(ps, i + 1, 0, x));
                }
            }
        }
        i = i + 1;
    }
    proof {
        let ov = tag_views(out@);
        assert forall|x: Seq<char>| ov.contains(x) <==> has_tag_in(ps, x) by {
            if has_tag_in(ps, x) {
                let a = choose|a: int| 0 <= a < ps.len() && #[trigger] ps[a].tags.contains(x);
                let b = choose|b: int| 0 <= b < ps[a].tags.len() && ps[a].tags[b] == x;
                assert(seen_before(ps, i as int, 0, x));
            }
            if seen_before(ps, i as int, 0, x) {
                let (a, b) = choose|a: int, b: int|
                    0 <= a < ps.len() && 0 <= b < ps[a].tags.len() && (a < i || (a == i && b < 0))
                        && #[trigger] ps[a].tags[b] == x;
                assert(ps[a].tags.contains(x));
            }
        }
        assert forall|a: int, b: int| 0 <= a < b < ov.len() implies tag_before(#[trigger] ov[a], #[trigger] ov[b]) by {
            assert(tag_before(out@[a]@, out@[b]@));
        }
    }
    out
}

/// The text of a post file as written by `create_post`: the header
/// between delimiters, then a body that holds only the summary marker.
pub open spec fn new_post_text(header: Seq<char>) -> Seq<char> {
    seq!['-', '-', '-', '\n'] + header + seq!['-', '-', '-', '\n', '\n'] + seq![
        '<',
        '!',
        '-',
        '-',
        ' ',
        't',
        'o',
        'p',
        ' ',
        '-',
        '-',
        '>',
    ]
}

/// The names of the header keys, in order: `title`, `date`, `tags`.
pub open spec fn header_keys() -> Seq<Seq<char>> {
    seq![seq!['t', 'i', 't', 'l', 'e'], seq!['d', 'a', 't', 'e'], seq!['t', 'a', 'g', 's']]
}

/// The header of a new post: empty title and tags, and its date.
pub open spec fn blank_header(date: Date) -> Seq<char> {
    toml_header_text(header_keys(), Seq::empty(), date.year as int, date.month as int, date.day as int, Seq::empty())
}

/// The decimal digits of a number.
pub open spec fn decimal(n: nat) -> Seq<char>
    decreases n,
{
    if n < 10 {
        seq![((48 + n) as u8) as char]
    } else {
        decimal(n / 10).push(((48 + n % 10) as u8) as char)
    }
}

/// Relies on `FromIterator<char>` for `String`: the characters in order.
#[verifier::external_body]
fn string_from_chars(v: &Vec<char>) -> (r: String)
    ensures
        r@ == v@,
{
    v.iter().collect()
}

/// The decimal text of a number.
pub fn decimal_string(n: usize) -> (r: String)
    ensures
        r@ == decimal(n as nat),
{
    let mut m = n;
    let mut ds: Vec<char> = Vec::new();
    loop
        invariant_except_break
            decimal(n as nat) == decimal(m as nat) + ds@,
        ensures
            decimal(n as nat) == ds@,
        decreases m,
    {
        let d = ((48 + m % 10) as u8) as char;
        let ghost prev = ds@;
        ds.insert(0, d);
        if m < 10 {
            assert(ds@ =~= seq![d] + prev);
            assert(decimal(m as nat) == seq![d]);
            break;
        }
        assert(decimal(m as nat) == decimal((m / 10) as nat).push(d));
        assert(decimal((m / 10) as nat).push(d) + prev =~= decimal((m / 10) as nat) + ds@);
        m = m / 10;
    }
    string_from_chars(&ds)
}

/// A post file read from the posts directory: its path relative to that
/// directory, and its text.
pub struct PostSource {
    pub path: String,
    pub contents: String,
}

/// Two posts differ at most in their bodies.
pub open spec fn same_but_content(a: PostView, b: PostView) -> bool {
    &&& a.name == b.name
    &&& a.title == b.title
    &&& a.date == b.date
    &&& a.tags == b.tags
    &&& a.top == b.top
}

/// The posts that the sources read as, in reading order.
pub open spec fn posts_read(sources: Seq<PostSource>) -> Seq<PostView> {
    Seq::new(sources.len(), |i: int| post_view_of(sources[i].path@, sources[i].contents@))
}

/// Every source reads as a post.
pub open spec fn all_read(sources: Seq<PostSource>) -> bool {
    forall|i: int| 0 <= i < sources.len() ==> post_reads(#[trigger] sources[i].path@, sources[i].contents@)
}

/// A post made by `create_post`, with the file that records it.
pub struct NewPost {
    pub post: Post,
    /// The file's name in the posts directory: the post's name and `.md`.
    pub file_name: String,
    /// The file's text.
    pub text: String,
}

/// The posts of one directory, in publishing order, with their tag index.
pub struct Posts {
    root: String,
    posts: Vec<Post>,
    tags: Vec<String>,
}

pub struct PostsView {
    pub root: Seq<char>,
    pub posts: Seq<PostView>,
    pub tags: Seq<Seq<char>>,
}

impl View for Posts {
    type V = PostsView;

    closed spec fn view(&self) -> PostsView {
        PostsView { root: self.root@, posts: views(self.posts@), tags: tag_views(self.tags@) }
    }
}

/// A fresh post: the given name and date, everything else empty.
pub open spec fn blank_post(name: Seq<char>, date: Date) -> PostView {
    PostView {
        name,
        title: Seq::empty(),
        date,
        tags: Seq::empty(),
        content: Seq::empty(),
        top: None,
    }
}

fn make_blank_post(name: String, date: Date) -> (r: Post)
    ensures
        r@ == blank_post(name@, date),
{
    let r = Post { name, title: String::new(), date, tags: Vec::new(), content: String::new(), top: None };
    assert(r@.tags =~= Seq::<Seq<char>>::empty());
    r
}

impl Posts {
    /// The repository of the given posts: sorted into publishing order,
    /// with the index of their tags.
    pub fn from_posts(root: &str, posts: Vec<Post>) -> (r: Posts)
        ensures
            r@.root == root@,
            r@.posts == sort_desc(views(posts@)),
            is_tag_index(r@.posts, r@.tags),
    {
        let posts = sort_posts(posts);
        let tags = collect_tags(&posts);
        Posts { root: root.to_owned(), posts, tags }
    }

    /// Reads the post files of directory `root`. Fails on the first file
    /// that does not parse, with that file's path.
    pub fn new(root: &str, sources: Vec<PostSource>) -> (r: Result<Posts, Error>)
        ensures
            r is Ok <==> all_read(sources@),
            r matches Ok(ps) ==> {
                &&& ps@.root == root@
                &&& ps@.posts == sort_desc(posts_read(sources@))
                &&& is_sorted_desc(ps@.posts)
                &&& is_tag_index(ps@.posts, ps@.tags)
            },
            r matches Err(e) ==> exists|i: int| {
                &&& 0 <= i < sources@.len()
                &&& all_read(sources@.take(i))
                &&& !post_reads(sources@[i].path@, sources@[i].contents@)
                &&& error_path(e) == Some(#[trigger] sources@[i].path@)
            },
    {
        let mut posts: Vec<Post> = Vec::new();
        let mut i: usize = 0;
        while i < sources.len()
            invariant
                i <= sources@.len(),
                posts@.len() == i,
                forall|k: int| 0 <= k < i ==> post_reads(#[trigger] sources@[k].path@, sources@[k].contents@),
                forall|k: int| 0 <= k < i ==> (#[trigger] posts@[k])@ == post_view_of(sources@[k].path@, sources@[k].contents@),
            decreases sources@.len() - i,
        {
            let src = &sources[i];
            match Post::parse(src.path.as_str(), src.contents.as_str()) {
                Ok(p) => posts.push(p),
                Err(e) => {
                    assert(error_path(e) == Some(sources@[i as int].path@));
                    assert(all_read(sources@.take(i as int)));
                    assert(!all_read(sources@));
                    return Err(e);
                },
            }
            i = i + 1;
        }
        assert(views(posts@) =~= posts_read(sources@));
        let r = Posts::from_posts(root, posts);
        proof {
            lemma_sort_desc_sorted(views(posts@));
        }
        Ok(r)
    }

    /// Renders every post body from Markdown to HTML, once, in place.
    /// Stops at the first body that fails to render.
    pub fn render_bodies(&mut self, markdown: &Markdown) -> (r: Result<(), Error>)
        ensures
            final(self)@.root == old(self)@.root,
            final(self)@.tags == old(self)@.tags,
            final(self)@.posts.len() == old(self)@.posts.len(),
            forall|k: int| 0 <= k < old(self)@.posts.len() ==> same_but_content(old(self)@.posts[k], #[trigger] final(self)@.posts[k]),
            r matches Err(e) ==> e is Syntect || e is NoPlainText,
    {
        let n = self.posts.len();
        let mut i: usize = 0;
        while i < n
            invariant
                i <= n,
                n == old(self)@.posts.len(),
                self@.root == old(self)@.root,
                self@.tags == old(self)@.tags,
                self@.posts.len() == n,
                forall|k: int| 0 <= k < n ==> same_but_content(old(self)@.posts[k], #[trigger] self@.posts[k]),
            decreases n - i,
        {
            let html = match markdown.render_html(self.posts[i].content.as_str()) {
                Ok(h) => h,
                Err(e) => {
                    return Err(e);
                },
            };
            assert(views(self.posts@)[i as int] == self.posts@[i as int]@);
            self.set_content(i, html);
            i = i + 1;
        }
        Ok(())
    }

    /// The directory the posts were read from.
    pub fn root(&self) -> (r: &str)
        ensures
            r@ == self@.root,
    {
        self.root.as_str()
    }

    /// The tag index: every tag of the posts read, sorted, each once. It
    /// is made when the repository is, and a post added later by
    /// `create_post` does not change it.
    pub fn tags(&self) -> (r: &Vec<String>)
        ensures
            tag_views(r@) == self@.tags,
    {
        &self.tags
    }

    /// The posts, in publishing order.
    pub fn posts(&self) -> (r: &Vec<Post>)
        ensures
            views(r@) == self@.posts,
    {
        &self.posts
    }

    /// Replaces the body of the post at `index`, as rendering does.
    pub fn set_content(&mut self, index: usize, content: String)
        requires
            index < old(self)@.posts.len(),
        ensures
            final(self)@.root == old(self)@.root,
            final(self)@.tags == old(self)@.tags,
            final(self)@.posts == old(self)@.posts.update(
                index as int,
                PostView { content: content@, ..old(self)@.posts[index as int] },
            ),
    {
        let ghost before = self.posts@;
        let mut p = self.posts.remove(index);
        p.content = content;
        self.posts.insert(index, p);
        assert(views(self.posts@) =~= views(before).update(
            index as int,
            PostView { content: content@, ..views(before)[index as int] },
        ));
    }

    /// Adds a blank post dated `date`, named after the number of posts
    /// held, at the end of the sequence; the tag index is left as it was.
    /// Returns the post and the file that records it; fails, changing
    /// nothing, for a year outside 0..=9999.
    pub fn create_post_on(&mut self, date: Date) -> (r: Result<NewPost, Error>)
        requires
            old(self)@.posts.len() < usize::MAX,
            date.valid(),
        ensures
            r is Err <==> !(0 <= date.year <= 9999),
            r matches Err(e) ==> e is DateOutOfRange && *final(self) == *old(self),
            r matches Ok(n) ==> {
                &&& n.post@ == blank_post(decimal(old(self)@.posts.len()), date)
                &&& n.file_name@ == decimal(old(self)@.posts.len()) + seq!['.', 'm', 'd']
                &&& n.text@ == new_post_text(blank_header(date))
                &&& final(self)@.root == old(self)@.root
                &&& final(self)@.tags == old(self)@.tags
                &&& final(self)@.posts == old(self)@.posts.push(n.post@)
            },
    {
        if date.year < 0 || date.year > 9999 {
            return Err(Error::DateOutOfRange);
        }
        let name = decimal_string(self.posts.len());
        let no_tags: Vec<String> = Vec::new();
        let empty = "";
        proof {
            reveal_strlit("");
            assert(empty@ =~= Seq::<char>::empty());
        }
        let mut keys: Vec<String> = Vec::new();
        keys.push(field_name(0));
        keys.push(field_name(1));
        keys.push(field_name(2));
        assert(keys@.map_values(|k: String| k@) =~= header_keys());
        let header = header_text(&keys, empty, date, &no_tags);
        proof {
            reveal_strlit("---\n");
            reveal_strlit("---\n\n");
            reveal_strlit("<!-- top -->");
            reveal_strlit(".md");
            assert(no_tags@.map_values(|t: String| t@) =~= Seq::<Seq<char>>::empty());
        }
        let mut text = String::from_str("---\n");
        text.append(header.as_str());
        text.append("---\n\n");
        text.append("<!-- top -->");
        assert(text@ =~= new_post_text(header@));
        let mut file_name = name.clone();
        file_name.append(".md");
        let kept = make_blank_post(name.clone(), date);
        let ghost before = self.posts@;
        self.posts.push(kept);
        assert(views(self.posts@) =~= views(before).push(kept@));
        Ok(NewPost { post: make_blank_post(name, date), file_name, text })
    }

    /// Adds a blank post dated today (UTC); see `create_post_on`. Fails
    /// where the clock cannot give a date, or gives a year outside
    /// 0..=9999.
    pub fn create_post(&mut self) -> (r: Result<NewPost, Error>)
        requires
            old(self)@.posts.len() < usize::MAX,
        ensures
            r matches Err(e) ==> (e is DateOutOfRange || e is NoClock) && *final(self) == *old(self),
            r matches Ok(n) ==> {
                &&& n.post.date.valid()
                &&& 0 <= n.post.date.year <= 9999
                &&& n.post@ == blank_post(decimal(old(self)@.posts.len()), n.post.date)
                &&& n.file_name@ == decimal(old(self)@.posts.len()) + seq!['.', 'm', 'd']
                &&& n.text@ == new_post_text(blank_header(n.post.date))
                &&& final(self)@.root == old(self)@.root
                &&& final(self)@.posts == old(self)@.posts.push(n.post@)
                &&& final(self)@.tags == old(self)@.tags
            },
    {
        match Date::today() {
            Some(today) => self.create_post_on(today),
            None => Err(Error::NoClock),
        }
    }
}

proof fn lemma_encode_concat(a: Seq<char>, b: Seq<char>)
    ensures
        encode_utf8(a + b) == encode_utf8(a) + encode_utf8(b),
    decreases a.len(),
{
    if a.len() > 0 {
        lemma_encode_concat(a.drop_first(), b);
        assert((a + b).drop_first() =~= a.drop_first() + b);
        assert(encode_utf8(a + b) =~= encode_utf8(a) + encode_utf8(b));
    } else {
        assert(a + b =~= b);
        assert(encode_utf8(a) =~= Seq::<u8>::empty());
    }
}

proof fn lemma_encode_ascii(s: Seq<char>, b: Seq<u8>)
    requires
        s.len() == b.len(),
        is_ascii_chars(s),
        forall|i: int| 0 <= i < s.len() ==> (#[trigger] s[i]) as u8 == b[i],
    ensures
        encode_utf8(s) == b,
{
    is_ascii_chars_encode_utf8(s);
    assert(encode_utf8(s) =~= b);
}

proof fn lemma_find_first(s: Seq<u8>, pat: Seq<u8>, i: int, k: int)
    requires
        0 <= i <= k,
        occurs_at(s, pat, k),
        forall|j: int| i <= j < k ==> !occurs_at(s, pat, j),
    ensures
        find_from(s, pat, i) == Some(k),
    decreases k - i,
{
    if i < k {
        lemma_find_first(s, pat, i + 1, k);
    }
}

/// A post file written by `create_post_on` reads back: the header found
/// between the delimiters is the header written, the body is exactly the
/// summary marker, and the marker starts the body. The header must not
/// itself run into a `---`.
pub proof fn lemma_new_post_reads_back(header: Seq<char>)
    requires
        forall|j: int| 0 <= j < encode_utf8(header).len() ==> !occurs_at(
            encode_utf8(header) + delimiter(),
            delimiter(),
            j,
        ),
    ensures
        is_framed(encode_utf8(new_post_text(header))),
        header_of(encode_utf8(new_post_text(header))) == encode_utf8(header),
        body_of(encode_utf8(new_post_text(header))) == top_marker(),
        top_of(top_marker()) == Some(0usize),
{
    let open = seq!['-', '-', '-', '\n'];
    let close = seq!['-', '-', '-', '\n', '\n'];
    let mark = seq!['<', '!', '-', '-', ' ', 't', 'o', 'p', ' ', '-', '-', '>'];
    let eo = seq![45u8, 45u8, 45u8, 10u8];
    let ec = seq![45u8, 45u8, 45u8, 10u8, 10u8];
    lemma_encode_ascii(open, eo);
    lemma_encode_ascii(close, ec);
    lemma_encode_ascii(mark, top_marker());
    let eh = encode_utf8(header);
    assert(new_post_text(header) == open + header + close + mark);
    lemma_encode_concat(open, header);
    lemma_encode_concat(open + header, close);
    lemma_encode_concat(open + header + close, mark);
    let b = encode_utf8(new_post_text(header));
    assert(b == eo + eh + ec + top_marker());
    let e: int = 4 + eh.len() as int;
    assert(b.subrange(e, e + 3) =~= delimiter());
    assert forall|j: int| 4 <= j < e implies !occurs_at(b, delimiter(), j) by {
        let x = eh + delimiter();
        assert(!occurs_at(x, delimiter(), j - 4));
        assert forall|t: int| 0 <= t < 3 implies #[trigger] b[j + t] == x[j - 4 + t] by {
            if j + t < e {
                assert(b[j + t] == eh[j + t - 4]);
            } else {
                assert(b[j + t] == ec[j + t - e]);
            }
        }
        if occurs_at(b, delimiter(), j) {
            assert(x.subrange(j - 4, j - 1) =~= b.subrange(j, j + 3));
        }
    }
    lemma_find_first(b, delimiter(), 4, e);
    assert(header_end(b) == Some(e));
    assert(body_start(b, e) == e + 5);
    encode_utf8_valid_utf8(new_post_text(header));
    lemma_ascii_boundary(b, e + 5);
    if eh.len() > 0 {
        encode_utf8_first_scalar(header);
        assert(b[4] == eh[0]);
        lemma_ascii_or_leading(eh);
        is_char_boundary_iff_not_is_continuation_byte(b, 4);
    } else {
        lemma_ascii_boundary(b, 4);
    }
    assert(header_of(b) =~= eh);
    assert(body_of(b) =~= top_marker());
    assert(top_marker().subrange(0, 12) =~= top_marker());
    assert(find_from(top_marker(), top_marker(), 0) == Some(0int));
}

proof fn lemma_ascii_or_leading(b: Seq<u8>)
    requires
        b.len() > 0,
        valid_first_scalar(b),
    ensures
        !is_continuation_byte(b[0]),
{
}

} // verus!
