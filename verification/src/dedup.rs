//! Availability dedup/merge: collected phrases are ordered longest first,
//! then a greedy pass keeps a phrase only if no phrase already kept contains
//! it and it contains no phrase already kept; overlapping fragments of one
//! underlying phrase thus collapse into the longest representative. The
//! result is sorted lexicographically so that output is deterministic
//! whatever the discovery order.

use vstd::prelude::*;
use crate::text::chars_of;
use crate::text::match_at;
use crate::text::lemma_sort_desc_len_multiset;
use crate::text::lemma_sort_lex_multiset;
use crate::text::contains_seq;
use crate::text::contains_sub;
use crate::text::sort_desc_len;
use crate::text::sort_desc_len_spec;
use crate::text::sort_lex;
use crate::text::sort_lex_spec;
use crate::text::strings_of;
use crate::text::views_of;
use crate::text::views_of_strings;

verus! {

/// One phrase contains the other as a substring.
pub open spec fn overlapping(a: Seq<char>, b: Seq<char>) -> bool {
    contains_seq(a, b) || contains_seq(b, a)
}

/// Some already-kept phrase overlaps `x`.
pub open spec fn blocked_by(kept: Seq<Seq<char>>, x: Seq<char>) -> bool {
    exists|k: int| 0 <= k < kept.len() && overlapping(kept[k], x)
}

/// The greedy pass: keep each phrase, in order, unless an already-kept phrase
/// overlaps it.
pub open spec fn dedup_from(items: Seq<Seq<char>>, kept: Seq<Seq<char>>) -> Seq<Seq<char>>
    decreases items.len(),
{
    if items.len() == 0 {
        kept
    } else {
        let kept2 = if blocked_by(kept, items[0]) {
            kept
        } else {
            kept.push(items[0])
        };
        dedup_from(items.drop_first(), kept2)
    }
}

/// The whole merge: longest phrases first, then the greedy containment
/// filter, then lexicographic order.
pub open spec fn spec_dedup_merge(raw: Seq<Seq<char>>) -> Seq<Seq<char>> {
    sort_lex_spec(dedup_from(sort_desc_len_spec(raw), Seq::empty()))
}

/// Every phrase contains itself, so equal phrases always overlap.
proof fn lemma_overlapping_self(a: Seq<char>)
    ensures
        overlapping(a, a),
{
    assert(a.subrange(0, a.len() as int) =~= a);
    assert(match_at(a, a, 0));
}

/// No phrase in `s` contains another at a different position.
pub open spec fn no_mutual_containment(s: Seq<Seq<char>>) -> bool {
    forall|i: int, j: int| 0 <= i < j < s.len() ==> !overlapping(s[i], s[j])
}

/// The greedy pass only appends: what was kept stays, in place.
proof fn lemma_dedup_from_prefix(items: Seq<Seq<char>>, kept: Seq<Seq<char>>)
    ensures
        dedup_from(items, kept).len() >= kept.len(),
        forall|k: int| 0 <= k < kept.len() ==> dedup_from(items, kept)[k] == kept[k],
    decreases items.len(),
{
    if items.len() > 0 {
        if blocked_by(kept, items[0]) {
            lemma_dedup_from_prefix(items.drop_first(), kept);
        } else {
            let kept2 = kept.push(items[0]);
            lemma_dedup_from_prefix(items.drop_first(), kept2);
            assert(dedup_from(items, kept) == dedup_from(items.drop_first(), kept2));
            assert forall|k: int| 0 <= k < kept.len() implies dedup_from(items, kept)[k]
                == kept[k] by {
                assert(dedup_from(items, kept)[k] == kept2[k]);
            }
        }
    }
}

/// The greedy pass keeps the no-overlap property it starts with.
proof fn lemma_dedup_from_no_overlap(items: Seq<Seq<char>>, kept: Seq<Seq<char>>)
    requires
        no_mutual_containment(kept),
    ensures
        no_mutual_containment(dedup_from(items, kept)),
    decreases items.len(),
{
    if items.len() > 0 {
        if blocked_by(kept, items[0]) {
            lemma_dedup_from_no_overlap(items.drop_first(), kept);
        } else {
            let kept2 = kept.push(items[0]);
            assert forall|i: int, j: int| 0 <= i < j < kept2.len() implies !overlapping(
                kept2[i],
                kept2[j],
            ) by {
                if j == kept.len() {
                    assert(!overlapping(kept[i], items[0]));
                }
            }
            lemma_dedup_from_no_overlap(items.drop_first(), kept2);
        }
    }
}

/// Every phrase the greedy pass saw is represented: it overlaps something kept.
proof fn lemma_dedup_from_represents(items: Seq<Seq<char>>, kept: Seq<Seq<char>>)
    ensures
        forall|p: Seq<char>| #[trigger] items.contains(p) ==> blocked_by(
            dedup_from(items, kept),
            p,
        ),
    decreases items.len(),
{
    if items.len() > 0 {
        let x = items[0];
        let kept2 = if blocked_by(kept, x) {
            kept
        } else {
            kept.push(x)
        };
        lemma_dedup_from_represents(items.drop_first(), kept2);
        lemma_dedup_from_prefix(items.drop_first(), kept2);
        let d = dedup_from(items, kept);
        assert forall|p: Seq<char>| #[trigger] items.contains(p) implies blocked_by(d, p) by {
            let idx = choose|idx: int| 0 <= idx < items.len() && items[idx] == p;
            if idx == 0 {
                if blocked_by(kept, x) {
                    let k = choose|k: int| 0 <= k < kept.len() && overlapping(kept[k], x);
                    assert(d[k] == kept[k]);
                    assert(overlapping(d[k], p));
                } else {
                    lemma_overlapping_self(x);
                    let k = kept.len() as int;
                    assert(kept2[k] == x);
                    assert(d[k] == x);
                    assert(overlapping(d[k], p));
                }
            } else {
                assert(items.drop_first()[idx - 1] == p);
                assert(items.drop_first().contains(p));
            }
        }
    }
}

/// No retained phrase contains another: the merge keeps only maximal
/// representatives of each group of overlapping fragments.
pub proof fn lemma_dedup_merge_no_overlap(raw: Seq<Seq<char>>)
    ensures
        no_mutual_containment(spec_dedup_merge(raw)),
{
    broadcast use vstd::seq_lib::group_to_multiset_ensures;

    let sorted_in = sort_desc_len_spec(raw);
    let d = dedup_from(sorted_in, Seq::empty());
    let r = spec_dedup_merge(raw);
    lemma_dedup_from_no_overlap(sorted_in, Seq::empty());
    lemma_sort_lex_multiset(d);
    assert(d.no_duplicates()) by {
        assert forall|i: int, j: int|
            0 <= i < d.len() && 0 <= j < d.len() && i != j implies d[i] != d[j] by {
            if d[i] == d[j] {
                lemma_overlapping_self(d[i]);
            }
        }
    }
    d.lemma_multiset_has_no_duplicates();
    r.lemma_multiset_has_no_duplicates_conv();
    assert forall|i: int, j: int| 0 <= i < j < r.len() implies !overlapping(r[i], r[j]) by {
        assert(r.contains(r[i]));
        assert(r.contains(r[j]));
        assert(r.to_multiset().count(r[i]) > 0);
        assert(r.to_multiset().count(r[j]) > 0);
        assert(d.to_multiset().count(r[i]) > 0);
        assert(d.to_multiset().count(r[j]) > 0);
        assert(d.contains(r[i]));
        assert(d.contains(r[j]));
        let a = choose|a: int| 0 <= a < d.len() && d[a] == r[i];
        let b = choose|b: int| 0 <= b < d.len() && d[b] == r[j];
        assert(r[i] != r[j]);
        if a < b {
            assert(!overlapping(d[a], d[b]));
        } else {
            assert(!overlapping(d[b], d[a]));
        }
    }
}

/// Every collected phrase is represented in the merge's result: some retained
/// phrase contains it or is contained in it.
pub proof fn lemma_dedup_merge_represents(raw: Seq<Seq<char>>)
    ensures
        forall|p: Seq<char>| #[trigger] raw.contains(p) ==> blocked_by(spec_dedup_merge(raw), p),
{
    broadcast use vstd::seq_lib::group_to_multiset_ensures;

    let sorted_in = sort_desc_len_spec(raw);
    let d = dedup_from(sorted_in, Seq::empty());
    let r = spec_dedup_merge(raw);
    lemma_sort_desc_len_multiset(raw);
    lemma_dedup_from_represents(sorted_in, Seq::empty());
    lemma_sort_lex_multiset(d);
    assert forall|p: Seq<char>| #[trigger] raw.contains(p) implies blocked_by(r, p) by {
        assert(raw.to_multiset().count(p) > 0);
        assert(sorted_in.to_multiset().count(p) > 0);
        assert(sorted_in.contains(p));
        let k = choose|k: int| 0 <= k < d.len() && overlapping(d[k], p);
        assert(d.contains(d[k]));
        assert(d.to_multiset().count(d[k]) > 0);
        assert(r.to_multiset().count(d[k]) > 0);
        assert(r.contains(d[k]));
        let m = choose|m: int| 0 <= m < r.len() && r[m] == d[k];
        assert(overlapping(r[m], p));
    }
}

/// Whether some phrase in `kept` overlaps `x`.
fn blocked_by_exec(kept: &Vec<Vec<char>>, x: &Vec<char>) -> (r: bool)
    ensures
        r == blocked_by(views_of(kept@), x@),
{
    let mut k: usize = 0;
    while k < kept.len()
        invariant
            k <= kept@.len(),
            forall|j: int| 0 <= j < k ==> !overlapping(views_of(kept@)[j], x@),
        decreases kept@.len() - k,
    {
        if contains_sub(&kept[k], x) || contains_sub(x, &kept[k]) {
            proof {
                assert(overlapping(views_of(kept@)[k as int], x@));
            }
            return true;
        }
        k = k + 1;
    }
    false
}

/// The dedup/merge over character vectors.
pub fn dedup_merge_chars(raw: Vec<Vec<char>>) -> (r: Vec<Vec<char>>)
    ensures
        views_of(r@) == spec_dedup_merge(views_of(raw@)),
{
    let ghost raw_views = views_of(raw@);
    let mut rest = sort_desc_len(raw);
    let mut kept: Vec<Vec<char>> = Vec::new();
    proof {
        assert(views_of(kept@) =~= Seq::<Seq<char>>::empty());
    }
    while rest.len() > 0
        invariant
            dedup_from(views_of(rest@), views_of(kept@)) == dedup_from(
                sort_desc_len_spec(raw_views),
                Seq::empty(),
            ),
        decreases rest@.len(),
    {
        let ghost rrest = views_of(rest@);
        let ghost rkept = views_of(kept@);
        let x = rest.remove(0);
        if !blocked_by_exec(&kept, &x) {
            kept.push(x);
            proof {
                assert(views_of(kept@) =~= rkept.push(rrest[0]));
            }
        }
        proof {
            assert(views_of(rest@) =~= rrest.drop_first());
        }
    }
    proof {
        assert(views_of(rest@) =~= Seq::<Seq<char>>::empty());
    }
    sort_lex(kept)
}

/// The availability dedup/merge, over strings.
pub fn dedup_merge(phrases: Vec<String>) -> (r: Vec<String>)
    ensures
        views_of_strings(r@) == spec_dedup_merge(views_of_strings(phrases@)),
{
    let mut raw: Vec<Vec<char>> = Vec::new();
    let mut i: usize = 0;
    while i < phrases.len()
        invariant
            i <= phrases@.len(),
            raw@.len() == i,
            forall|j: int| 0 <= j < i ==> raw@[j]@ == phrases@[j]@,
        decreases phrases@.len() - i,
    {
        raw.push(chars_of(phrases[i].as_str()));
        i = i + 1;
    }
    proof {
        assert(views_of(raw@) =~= views_of_strings(phrases@));
    }
    let merged = dedup_merge_chars(raw);
    strings_of(&merged)
}

} // verus!
