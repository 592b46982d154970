//! Character-sequence utilities shared by the extraction pipeline: substring
//! search, trimming, lexicographic order and sorting, joining, and the
//! conversions between `String` and `Vec<char>`. All string logic works on
//! characters, so lengths and windows count characters, never bytes.

use vstd::prelude::*;
use vstd::multiset::Multiset;
use vstd::string::StrSliceExecFns;

verus! {

/// The characters of `s`, in order, as a vector.
pub fn chars_of(s: &str) -> (r: Vec<char>)
    ensures
        r@ == s@,
{
    let n = s.unicode_len();
    let mut r: Vec<char> = Vec::new();
    let mut i: usize = 0;
    while i < n
        invariant
            n == s@.len(),
            i <= n,
            r@ =~= s@.subrange(0, i as int),
        decreases n - i,
    {
        r.push(s.get_char(i));
        i = i + 1;
    }
    assert(r@ =~= s@);
    r
}

/// Relies on `String: FromIterator<char>`: collecting characters yields the
/// string of exactly those characters, in order.
#[verifier::external_body]
pub fn string_from_chars(v: &Vec<char>) -> (r: String)
    ensures
        r@ == v@,
{
    v.iter().collect()
}

/// Character-wise equality of two string slices.
pub fn str_eq(a: &str, b: &str) -> (r: bool)
    ensures
        r == (a@ == b@),
{
    let an = a.unicode_len();
    let bn = b.unicode_len();
    if an != bn {
        return false;
    }
    let mut i: usize = 0;
    while i < an
        invariant
            an == a@.len(),
            an == b@.len(),
            i <= an,
            forall|j: int| 0 <= j < i ==> a@[j] == b@[j],
        decreases an - i,
    {
        if a.get_char(i) != b.get_char(i) {
            return false;
        }
        i = i + 1;
    }
    assert(a@ =~= b@);
    true
}

/// Element-wise equality of two character vectors.
pub fn chars_eq(a: &Vec<char>, b: &Vec<char>) -> (r: bool)
    ensures
        r == (a@ == b@),
{
    if a.len() != b.len() {
        return false;
    }
    let mut i: usize = 0;
    while i < a.len()
        invariant
            a@.len() == b@.len(),
            i <= a@.len(),
            forall|j: int| 0 <= j < i ==> a@[j] == b@[j],
        decreases a@.len() - i,
    {
        if a[i] != b[i] {
            return false;
        }
        i = i + 1;
    }
    assert(a@ =~= b@);
    true
}

/// `needle` occurs in `hay` starting at position `i`.
pub open spec fn match_at(hay: Seq<char>, needle: Seq<char>, i: int) -> bool {
    0 <= i && i + needle.len() <= hay.len() && hay.subrange(i, i + needle.len()) == needle
}

/// The first position at or after `from` where `needle` occurs in `hay`.
pub open spec fn first_match_from(hay: Seq<char>, needle: Seq<char>, from: int) -> Option<int>
    decreases hay.len() + 1 - from,
{
    if from < 0 || from + needle.len() > hay.len() {
        None
    } else if match_at(hay, needle, from) {
        Some(from)
    } else {
        first_match_from(hay, needle, from + 1)
    }
}

/// `needle` occurs somewhere in `hay`.
pub open spec fn contains_seq(hay: Seq<char>, needle: Seq<char>) -> bool {
    exists|i: int| match_at(hay, needle, i)
}

/// What `first_match_from` finds: the match it returns is real and first,
/// and when it returns nothing there is no match at or after `from`.
pub proof fn lemma_first_match_from(hay: Seq<char>, needle: Seq<char>, from: int)
    requires
        from >= 0,
    ensures
        match first_match_from(hay, needle, from) {
            Some(i) => from <= i && match_at(hay, needle, i) && forall|j: int|
                from <= j < i ==> !match_at(hay, needle, j),
            None => forall|j: int| j >= from ==> !match_at(hay, needle, j),
        },
    decreases hay.len() + 1 - from,
{
    if from + needle.len() > hay.len() {
        assert forall|j: int| j >= from implies !match_at(hay, needle, j) by {}
    } else if match_at(hay, needle, from) {
    } else {
        lemma_first_match_from(hay, needle, from + 1);
    }
}

/// Whether a match at some position exists exactly when one at or after 0 does.
pub proof fn lemma_contains_via_first_match(hay: Seq<char>, needle: Seq<char>)
    ensures
        contains_seq(hay, needle) == (first_match_from(hay, needle, 0) is Some),
{
    lemma_first_match_from(hay, needle, 0);
    if contains_seq(hay, needle) {
        let i = choose|i: int| match_at(hay, needle, i);
        assert(i >= 0);
    }
}

/// `needle` occurs at position `i` of `hay`.
pub fn match_at_exec(hay: &Vec<char>, needle: &Vec<char>, i: usize) -> (r: bool)
    requires
        i + needle@.len() <= hay@.len(),
    ensures
        r == match_at(hay@, needle@, i as int),
{
    let hlen = hay.len();
    let mut k: usize = 0;
    while k < needle.len()
        invariant
            hlen == hay@.len(),
            i + needle@.len() <= hay@.len(),
            k <= needle@.len(),
            forall|j: int| 0 <= j < k ==> hay@[i + j] == needle@[j],
        decreases needle@.len() - k,
    {
        if hay[i + k] != needle[k] {
            assert(hay@.subrange(i as int, i + needle@.len())[k as int] != needle@[k as int]);
            return false;
        }
        k = k + 1;
    }
    assert(hay@.subrange(i as int, i + needle@.len()) =~= needle@);
    true
}

/// The first occurrence of `needle` in `hay` at or after `from`.
pub fn find_from(hay: &Vec<char>, needle: &Vec<char>, from: usize) -> (r: Option<usize>)
    ensures
        match r {
            Some(i) => first_match_from(hay@, needle@, from as int) == Some(i as int),
            None => first_match_from(hay@, needle@, from as int) is None,
        },
{
    let hlen = hay.len();
    let nlen = needle.len();
    if nlen > hlen || from > hlen - nlen {
        return None;
    }
    let mut i: usize = from;
    loop
        invariant
            hlen == hay@.len(),
            nlen == needle@.len(),
            nlen <= hlen,
            from <= i <= hlen - nlen,
            first_match_from(hay@, needle@, from as int) == first_match_from(
                hay@,
                needle@,
                i as int,
            ),
        decreases hlen - i,
    {
        if match_at_exec(hay, needle, i) {
            return Some(i);
        }
        if i == hlen - nlen {
            proof {
                assert(first_match_from(hay@, needle@, i + 1) is None);
            }
            return None;
        }
        i = i + 1;
    }
}

/// `needle` occurs somewhere in `hay`.
pub fn contains_sub(hay: &Vec<char>, needle: &Vec<char>) -> (r: bool)
    ensures
        r == contains_seq(hay@, needle@),
{
    proof {
        lemma_contains_via_first_match(hay@, needle@);
    }
    match find_from(hay, needle, 0) {
        Some(_) => true,
        None => false,
    }
}

/// A copy of `v[a..b]`.
pub fn sub_vec(v: &Vec<char>, a: usize, b: usize) -> (r: Vec<char>)
    requires
        a <= b <= v@.len(),
    ensures
        r@ == v@.subrange(a as int, b as int),
{
    let mut r: Vec<char> = Vec::new();
    let mut i: usize = a;
    while i < b
        invariant
            a <= i <= b <= v@.len(),
            r@ =~= v@.subrange(a as int, i as int),
        decreases b - i,
    {
        r.push(v[i]);
        i = i + 1;
    }
    assert(r@ =~= v@.subrange(a as int, b as int));
    r
}

/// The views of a sequence of character vectors.
pub open spec fn views_of(s: Seq<Vec<char>>) -> Seq<Seq<char>> {
    s.map_values(|v: Vec<char>| v@)
}

/// The views of a sequence of strings.
pub open spec fn views_of_strings(s: Seq<String>) -> Seq<Seq<char>> {
    s.map_values(|v: String| v@)
}

/// `s` without its leading spaces.
pub open spec fn trim_start_spaces(s: Seq<char>) -> Seq<char>
    decreases s.len(),
{
    if s.len() > 0 && s[0] == ' ' {
        trim_start_spaces(s.drop_first())
    } else {
        s
    }
}

/// `s` without its trailing spaces.
pub open spec fn trim_end_spaces(s: Seq<char>) -> Seq<char>
    decreases s.len(),
{
    if s.len() > 0 && s[s.len() - 1] == ' ' {
        trim_end_spaces(s.drop_last())
    } else {
        s
    }
}

/// `s` without leading and trailing spaces.
pub open spec fn trim_spaces_spec(s: Seq<char>) -> Seq<char> {
    trim_end_spaces(trim_start_spaces(s))
}

/// A comma or period, as trimmed from the end of a candidate product name.
pub open spec fn is_trail_punct(c: char) -> bool {
    c == ',' || c == '.'
}

/// `s` without its trailing commas and periods.
pub open spec fn trim_end_punct_spec(s: Seq<char>) -> Seq<char>
    decreases s.len(),
{
    if s.len() > 0 && is_trail_punct(s[s.len() - 1]) {
        trim_end_punct_spec(s.drop_last())
    } else {
        s
    }
}

/// `v` without leading and trailing spaces.
pub fn trim_spaces(v: &Vec<char>) -> (r: Vec<char>)
    ensures
        r@ == trim_spaces_spec(v@),
{
    proof {
        assert(v@.skip(0) =~= v@);
    }
    let mut a: usize = 0;
    while a < v.len() && v[a] == ' '
        invariant
            a <= v@.len(),
            trim_start_spaces(v@) == trim_start_spaces(v@.skip(a as int)),
        decreases v@.len() - a,
    {
        proof {
            assert(v@.skip(a as int).drop_first() =~= v@.skip(a as int + 1));
        }
        a = a + 1;
    }
    proof {
        assert(trim_start_spaces(v@.skip(a as int)) == v@.skip(a as int));
        assert(v@.skip(a as int) =~= v@.subrange(a as int, v@.len() as int));
    }
    let mut b: usize = v.len();
    while b > a && v[b - 1] == ' '
        invariant
            a <= b <= v@.len(),
            trim_end_spaces(v@.subrange(a as int, v@.len() as int)) == trim_end_spaces(
                v@.subrange(a as int, b as int),
            ),
        decreases b,
    {
        proof {
            assert(v@.subrange(a as int, b as int).drop_last() =~= v@.subrange(
                a as int,
                b as int - 1,
            ));
        }
        b = b - 1;
    }
    proof {
        assert(trim_end_spaces(v@.subrange(a as int, b as int)) == v@.subrange(a as int, b as int));
    }
    sub_vec(v, a, b)
}

/// `v` without its trailing commas and periods.
pub fn trim_end_punct(v: &Vec<char>) -> (r: Vec<char>)
    ensures
        r@ == trim_end_punct_spec(v@),
{
    proof {
        assert(v@.subrange(0, v@.len() as int) =~= v@);
    }
    let mut b: usize = v.len();
    while b > 0 && (v[b - 1] == ',' || v[b - 1] == '.')
        invariant
            b <= v@.len(),
            trim_end_punct_spec(v@) == trim_end_punct_spec(v@.subrange(0, b as int)),
        decreases b,
    {
        proof {
            assert(v@.subrange(0, b as int).drop_last() =~= v@.subrange(0, b as int - 1));
        }
        b = b - 1;
    }
    proof {
        assert(trim_end_punct_spec(v@.subrange(0, b as int)) == v@.subrange(0, b as int));
    }
    sub_vec(v, 0, b)
}

/// Lexicographic order on character sequences, by Unicode scalar value: the
/// order `String`'s own comparison uses.
pub open spec fn lex_leq(a: Seq<char>, b: Seq<char>) -> bool
    decreases a.len(),
{
    if a.len() == 0 {
        true
    } else if b.len() == 0 {
        false
    } else if (a[0] as u32) < (b[0] as u32) {
        true
    } else if (b[0] as u32) < (a[0] as u32) {
        false
    } else {
        lex_leq(a.drop_first(), b.drop_first())
    }
}

/// Any two character sequences are ordered one way or the other.
pub proof fn lemma_lex_total(a: Seq<char>, b: Seq<char>)
    ensures
        lex_leq(a, b) || lex_leq(b, a),
    decreases a.len(),
{
    if a.len() > 0 && b.len() > 0 && !((a[0] as u32) < (b[0] as u32)) && !((b[0] as u32) < (a[0]
        as u32)) {
        lemma_lex_total(a.drop_first(), b.drop_first());
    }
}

/// Lexicographic order is transitive.
pub proof fn lemma_lex_trans(a: Seq<char>, b: Seq<char>, c: Seq<char>)
    requires
        lex_leq(a, b),
        lex_leq(b, c),
    ensures
        lex_leq(a, c),
    decreases a.len(),
{
    if a.len() > 0 && b.len() > 0 && c.len() > 0 {
        if (a[0] as u32) == (b[0] as u32) && (b[0] as u32) == (c[0] as u32) {
            lemma_lex_trans(a.drop_first(), b.drop_first(), c.drop_first());
        }
    }
}

/// Whether `a` comes at or before `b` in lexicographic order.
pub fn lex_leq_exec(a: &Vec<char>, b: &Vec<char>) -> (r: bool)
    ensures
        r == lex_leq(a@, b@),
{
    proof {
        assert(a@.skip(0) =~= a@);
        assert(b@.skip(0) =~= b@);
    }
    let mut i: usize = 0;
    loop
        invariant
            i <= a@.len(),
            i <= b@.len(),
            lex_leq(a@, b@) == lex_leq(a@.skip(i as int), b@.skip(i as int)),
        decreases a@.len() - i,
    {
        if i == a.len() {
            return true;
        }
        if i == b.len() {
            return false;
        }
        let ca = a[i] as u32;
        let cb = b[i] as u32;
        if ca < cb {
            return true;
        }
        if cb < ca {
            return false;
        }
        proof {
            assert(a@.skip(i as int).drop_first() =~= a@.skip(i as int + 1));
            assert(b@.skip(i as int).drop_first() =~= b@.skip(i as int + 1));
        }
        i = i + 1;
    }
}

/// All pairs in `s` are in lexicographic order.
pub open spec fn sorted_lex(s: Seq<Seq<char>>) -> bool {
    forall|i: int, j: int| 0 <= i < j < s.len() ==> lex_leq(s[i], s[j])
}

/// `x` inserted into an ascending list: after every element at or before it.
pub open spec fn insert_lex(sorted: Seq<Seq<char>>, x: Seq<char>) -> Seq<Seq<char>>
    decreases sorted.len(),
{
    if sorted.len() == 0 {
        seq![x]
    } else if lex_leq(sorted[0], x) {
        seq![sorted[0]] + insert_lex(sorted.drop_first(), x)
    } else {
        seq![x] + sorted
    }
}

/// Every element of `rest`, in order, inserted into `acc`.
pub open spec fn sort_lex_from(acc: Seq<Seq<char>>, rest: Seq<Seq<char>>) -> Seq<Seq<char>>
    decreases rest.len(),
{
    if rest.len() == 0 {
        acc
    } else {
        sort_lex_from(insert_lex(acc, rest[0]), rest.drop_first())
    }
}

/// `s` sorted into ascending lexicographic order by insertion.
pub open spec fn sort_lex_spec(s: Seq<Seq<char>>) -> Seq<Seq<char>> {
    sort_lex_from(Seq::empty(), s)
}

/// Where the scan for the insertion point stops, that is what `insert_lex`
/// produces: the prefix, then `x`, then the rest.
proof fn lemma_insert_lex_at(s: Seq<Seq<char>>, x: Seq<char>, idx: int)
    requires
        0 <= idx <= s.len(),
        forall|j: int| 0 <= j < idx ==> lex_leq(s[j], x),
        idx < s.len() ==> !lex_leq(s[idx], x),
    ensures
        insert_lex(s, x) == s.subrange(0, idx) + seq![x] + s.skip(idx),
    decreases idx,
{
    if idx == 0 {
        assert(insert_lex(s, x) =~= s.subrange(0, 0) + seq![x] + s.skip(0));
    } else {
        lemma_insert_lex_at(s.drop_first(), x, idx - 1);
        assert(s.drop_first().subrange(0, idx - 1) =~= s.subrange(1, idx));
        assert(s.drop_first().skip(idx - 1) =~= s.skip(idx));
        assert(insert_lex(s, x) =~= s.subrange(0, idx) + seq![x] + s.skip(idx));
    }
}

/// Inserting into a sorted list keeps it sorted and adds the element.
pub proof fn lemma_insert_lex_sorted(s: Seq<Seq<char>>, x: Seq<char>, idx: int)
    requires
        0 <= idx <= s.len(),
        forall|j: int| 0 <= j < idx ==> lex_leq(s[j], x),
        idx < s.len() ==> !lex_leq(s[idx], x),
        sorted_lex(s),
    ensures
        insert_lex(s, x) == s.subrange(0, idx) + seq![x] + s.skip(idx),
        sorted_lex(insert_lex(s, x)),
{
    lemma_insert_lex_at(s, x, idx);
    let r = s.subrange(0, idx) + seq![x] + s.skip(idx);
    assert forall|i: int, j: int| 0 <= i < j < r.len() implies lex_leq(r[i], r[j]) by {
        if j == idx {
            assert(lex_leq(r[i], x));
        } else if i == idx {
            assert(r[j] == s[j - 1]);
            lemma_lex_total(s[idx], x);
            if j - 1 > idx {
                lemma_lex_trans(x, s[idx], s[j - 1]);
            }
        } else if i < idx && j > idx {
            assert(lex_leq(s[i], s[j - 1]));
        }
    }
}

/// Where `insert_lex` places `x`: past every element at or before it.
pub open spec fn insert_pos_lex(s: Seq<Seq<char>>, x: Seq<char>) -> int
    decreases s.len(),
{
    if s.len() == 0 {
        0
    } else if lex_leq(s[0], x) {
        1 + insert_pos_lex(s.drop_first(), x)
    } else {
        0
    }
}

proof fn lemma_insert_pos_lex(s: Seq<Seq<char>>, x: Seq<char>)
    ensures
        0 <= insert_pos_lex(s, x) <= s.len(),
        forall|j: int| 0 <= j < insert_pos_lex(s, x) ==> lex_leq(s[j], x),
        insert_pos_lex(s, x) < s.len() ==> !lex_leq(s[insert_pos_lex(s, x)], x),
    decreases s.len(),
{
    if s.len() > 0 && lex_leq(s[0], x) {
        lemma_insert_pos_lex(s.drop_first(), x);
        assert forall|j: int| 0 <= j < insert_pos_lex(s, x) implies lex_leq(s[j], x) by {
            if j > 0 {
                assert(s[j] == s.drop_first()[j - 1]);
            }
        }
    }
}

/// Inserting into a sorted list keeps it sorted.
pub proof fn lemma_insert_lex_keeps_sorted(s: Seq<Seq<char>>, x: Seq<char>)
    requires
        sorted_lex(s),
    ensures
        sorted_lex(insert_lex(s, x)),
{
    lemma_insert_pos_lex(s, x);
    lemma_insert_lex_sorted(s, x, insert_pos_lex(s, x));
}

proof fn lemma_sort_lex_from_sorted(acc: Seq<Seq<char>>, rest: Seq<Seq<char>>)
    requires
        sorted_lex(acc),
    ensures
        sorted_lex(sort_lex_from(acc, rest)),
    decreases rest.len(),
{
    if rest.len() > 0 {
        lemma_insert_lex_keeps_sorted(acc, rest[0]);
        lemma_sort_lex_from_sorted(insert_lex(acc, rest[0]), rest.drop_first());
    }
}

/// Whatever order the input came in, the insertion sort's output is in
/// ascending lexicographic order.
pub proof fn lemma_sort_lex_sorted(s: Seq<Seq<char>>)
    ensures
        sorted_lex(sort_lex_spec(s)),
{
    lemma_sort_lex_from_sorted(Seq::empty(), s);
}

/// Inserting `x` adds it and keeps everything else: a permutation statement.
pub proof fn lemma_insert_lex_multiset(s: Seq<Seq<char>>, x: Seq<char>)
    ensures
        insert_lex(s, x).to_multiset() == s.to_multiset().insert(x),
{
    broadcast use vstd::seq_lib::lemma_multiset_commutative;
    broadcast use vstd::seq_lib::group_to_multiset_ensures;
    broadcast use vstd::multiset::group_multiset_axioms;

    lemma_insert_pos_lex(s, x);
    let idx = insert_pos_lex(s, x);
    lemma_insert_lex_at(s, x, idx);
    let a = s.subrange(0, idx);
    let b = s.skip(idx);
    assert(s =~= a + b);
    assert(seq![x] =~= Seq::<Seq<char>>::empty().push(x));
    assert(Seq::<Seq<char>>::empty().push(x).to_multiset() =~= Multiset::<Seq<char>>::empty().insert(x));
    assert(insert_lex(s, x) == (a + seq![x]) + b);
    assert((a + seq![x]).to_multiset() =~= a.to_multiset().insert(x));
    assert(insert_lex(s, x).to_multiset() =~= s.to_multiset().insert(x));
}

proof fn lemma_sort_lex_from_multiset(acc: Seq<Seq<char>>, rest: Seq<Seq<char>>)
    ensures
        sort_lex_from(acc, rest).to_multiset() == acc.to_multiset().add(rest.to_multiset()),
    decreases rest.len(),
{
    broadcast use vstd::seq_lib::lemma_multiset_commutative;
    broadcast use vstd::seq_lib::group_to_multiset_ensures;
    broadcast use vstd::multiset::group_multiset_axioms;

    if rest.len() == 0 {
        assert(rest.to_multiset() =~= Multiset::<Seq<char>>::empty());
        assert(acc.to_multiset().add(rest.to_multiset()) =~= acc.to_multiset());
    } else {
        lemma_insert_lex_multiset(acc, rest[0]);
        lemma_sort_lex_from_multiset(insert_lex(acc, rest[0]), rest.drop_first());
        assert(rest =~= seq![rest[0]] + rest.drop_first());
        assert(seq![rest[0]] =~= Seq::<Seq<char>>::empty().push(rest[0]));
        assert(seq![rest[0]].to_multiset() =~= Multiset::<Seq<char>>::empty().insert(rest[0]));
        assert(sort_lex_from(acc, rest).to_multiset() =~= acc.to_multiset().add(
            rest.to_multiset(),
        ));
    }
}

/// The sort is a permutation: same phrases, same multiplicities.
pub proof fn lemma_sort_lex_multiset(s: Seq<Seq<char>>)
    ensures
        sort_lex_spec(s).to_multiset() == s.to_multiset(),
{
    broadcast use vstd::seq_lib::group_to_multiset_ensures;
    broadcast use vstd::multiset::group_multiset_axioms;

    lemma_sort_lex_from_multiset(Seq::empty(), s);
    assert(Seq::<Seq<char>>::empty().to_multiset() =~= Multiset::<Seq<char>>::empty());
    assert(sort_lex_spec(s).to_multiset() =~= s.to_multiset());
}

/// Insert `x` into the ascending vector `r`, keeping it ascending.
pub fn insert_lex_exec(r: &mut Vec<Vec<char>>, x: Vec<char>)
    ensures
        views_of(final (r)@) == insert_lex(views_of(old(r)@), x@),
{
    let ghost s = views_of(r@);
    let mut idx: usize = 0;
    while idx < r.len() && lex_leq_exec(&r[idx], &x)
        invariant
            idx <= r@.len(),
            s == views_of(r@),
            forall|j: int| 0 <= j < idx ==> lex_leq(s[j], x@),
        decreases r@.len() - idx,
    {
        idx = idx + 1;
    }
    proof {
        lemma_insert_lex_at(s, x@, idx as int);
    }
    r.insert(idx, x);
    proof {
        assert(views_of(r@) =~= s.subrange(0, idx as int) + seq![x@] + s.skip(idx as int));
    }
}

/// Sort into ascending lexicographic order by insertion.
pub fn sort_lex(v: Vec<Vec<char>>) -> (r: Vec<Vec<char>>)
    ensures
        views_of(r@) == sort_lex_spec(views_of(v@)),
{
    let ghost full = views_of(v@);
    let mut rest = v;
    let mut r: Vec<Vec<char>> = Vec::new();
    while rest.len() > 0
        invariant
            sort_lex_from(views_of(r@), views_of(rest@)) == sort_lex_from(Seq::empty(), full),
        decreases rest@.len(),
    {
        let ghost racc = views_of(r@);
        let ghost rrest = views_of(rest@);
        let x = rest.remove(0);
        insert_lex_exec(&mut r, x);
        proof {
            assert(views_of(rest@) =~= rrest.drop_first());
        }
    }
    proof {
        assert(views_of(rest@).len() == 0);
        assert(views_of(rest@) =~= Seq::<Seq<char>>::empty());
    }
    r
}

/// `x` inserted into a list ordered by descending length: after every element
/// at least as long.
pub open spec fn insert_desc_len(sorted: Seq<Seq<char>>, x: Seq<char>) -> Seq<Seq<char>>
    decreases sorted.len(),
{
    if sorted.len() == 0 {
        seq![x]
    } else if sorted[0].len() >= x.len() {
        seq![sorted[0]] + insert_desc_len(sorted.drop_first(), x)
    } else {
        seq![x] + sorted
    }
}

/// Every element of `rest`, in order, inserted by descending length.
pub open spec fn sort_desc_len_from(acc: Seq<Seq<char>>, rest: Seq<Seq<char>>) -> Seq<Seq<char>>
    decreases rest.len(),
{
    if rest.len() == 0 {
        acc
    } else {
        sort_desc_len_from(insert_desc_len(acc, rest[0]), rest.drop_first())
    }
}

/// `s` sorted by descending length by insertion.
pub open spec fn sort_desc_len_spec(s: Seq<Seq<char>>) -> Seq<Seq<char>> {
    sort_desc_len_from(Seq::empty(), s)
}

proof fn lemma_insert_desc_len_at(s: Seq<Seq<char>>, x: Seq<char>, idx: int)
    requires
        0 <= idx <= s.len(),
        forall|j: int| 0 <= j < idx ==> s[j].len() >= x.len(),
        idx < s.len() ==> !(s[idx].len() >= x.len()),
    ensures
        insert_desc_len(s, x) == s.subrange(0, idx) + seq![x] + s.skip(idx),
    decreases idx,
{
    if idx == 0 {
        assert(insert_desc_len(s, x) =~= s.subrange(0, 0) + seq![x] + s.skip(0));
    } else {
        lemma_insert_desc_len_at(s.drop_first(), x, idx - 1);
        assert(s.drop_first().subrange(0, idx - 1) =~= s.subrange(1, idx));
        assert(s.drop_first().skip(idx - 1) =~= s.skip(idx));
        assert(insert_desc_len(s, x) =~= s.subrange(0, idx) + seq![x] + s.skip(idx));
    }
}

/// Where `insert_desc_len` places `x`: past every element at least as long.
pub open spec fn insert_pos_desc(s: Seq<Seq<char>>, x: Seq<char>) -> int
    decreases s.len(),
{
    if s.len() == 0 {
        0
    } else if s[0].len() >= x.len() {
        1 + insert_pos_desc(s.drop_first(), x)
    } else {
        0
    }
}

proof fn lemma_insert_pos_desc(s: Seq<Seq<char>>, x: Seq<char>)
    ensures
        0 <= insert_pos_desc(s, x) <= s.len(),
        forall|j: int| 0 <= j < insert_pos_desc(s, x) ==> s[j].len() >= x.len(),
        insert_pos_desc(s, x) < s.len() ==> !(s[insert_pos_desc(s, x)].len() >= x.len()),
    decreases s.len(),
{
    if s.len() > 0 && s[0].len() >= x.len() {
        lemma_insert_pos_desc(s.drop_first(), x);
        assert forall|j: int| 0 <= j < insert_pos_desc(s, x) implies s[j].len() >= x.len() by {
            if j > 0 {
                assert(s[j] == s.drop_first()[j - 1]);
            }
        }
    }
}

/// Inserting `x` adds it and keeps everything else: a permutation statement.
pub proof fn lemma_insert_desc_len_multiset(s: Seq<Seq<char>>, x: Seq<char>)
    ensures
        insert_desc_len(s, x).to_multiset() == s.to_multiset().insert(x),
{
    broadcast use vstd::seq_lib::lemma_multiset_commutative;
    broadcast use vstd::seq_lib::group_to_multiset_ensures;
    broadcast use vstd::multiset::group_multiset_axioms;

    lemma_insert_pos_desc(s, x);
    let idx = insert_pos_desc(s, x);
    lemma_insert_desc_len_at(s, x, idx);
    let a = s.subrange(0, idx);
    let b = s.skip(idx);
    assert(s =~= a + b);
    assert(seq![x] =~= Seq::<Seq<char>>::empty().push(x));
    assert(Seq::<Seq<char>>::empty().push(x).to_multiset() =~= Multiset::<Seq<char>>::empty().insert(x));
    assert(insert_desc_len(s, x) == (a + seq![x]) + b);
    assert((a + seq![x]).to_multiset() =~= a.to_multiset().insert(x));
    assert(insert_desc_len(s, x).to_multiset() =~= s.to_multiset().insert(x));
}

proof fn lemma_sort_desc_len_from_multiset(acc: Seq<Seq<char>>, rest: Seq<Seq<char>>)
    ensures
        sort_desc_len_from(acc, rest).to_multiset() == acc.to_multiset().add(rest.to_multiset()),
    decreases rest.len(),
{
    broadcast use vstd::seq_lib::lemma_multiset_commutative;
    broadcast use vstd::seq_lib::group_to_multiset_ensures;
    broadcast use vstd::multiset::group_multiset_axioms;

    if rest.len() == 0 {
        assert(rest.to_multiset() =~= Multiset::<Seq<char>>::empty());
        assert(acc.to_multiset().add(rest.to_multiset()) =~= acc.to_multiset());
    } else {
        lemma_insert_desc_len_multiset(acc, rest[0]);
        lemma_sort_desc_len_from_multiset(insert_desc_len(acc, rest[0]), rest.drop_first());
        assert(rest =~= seq![rest[0]] + rest.drop_first());
        assert(seq![rest[0]] =~= Seq::<Seq<char>>::empty().push(rest[0]));
        assert(seq![rest[0]].to_multiset() =~= Multiset::<Seq<char>>::empty().insert(rest[0]));
        assert(sort_desc_len_from(acc, rest).to_multiset() =~= acc.to_multiset().add(
            rest.to_multiset(),
        ));
    }
}

/// The length sort is a permutation: same phrases, same multiplicities.
pub proof fn lemma_sort_desc_len_multiset(s: Seq<Seq<char>>)
    ensures
        sort_desc_len_spec(s).to_multiset() == s.to_multiset(),
{
    broadcast use vstd::seq_lib::group_to_multiset_ensures;
    broadcast use vstd::multiset::group_multiset_axioms;

    lemma_sort_desc_len_from_multiset(Seq::empty(), s);
    assert(Seq::<Seq<char>>::empty().to_multiset() =~= Multiset::<Seq<char>>::empty());
    assert(sort_desc_len_spec(s).to_multiset() =~= s.to_multiset());
}

/// Insert `x` into the vector `r` ordered by descending length.
pub fn insert_desc_len_exec(r: &mut Vec<Vec<char>>, x: Vec<char>)
    ensures
        views_of(final (r)@) == insert_desc_len(views_of(old(r)@), x@),
{
    let ghost s = views_of(r@);
    let mut idx: usize = 0;
    while idx < r.len() && r[idx].len() >= x.len()
        invariant
            idx <= r@.len(),
            s == views_of(r@),
            forall|j: int| 0 <= j < idx ==> s[j].len() >= x@.len(),
        decreases r@.len() - idx,
    {
        idx = idx + 1;
    }
    proof {
        lemma_insert_desc_len_at(s, x@, idx as int);
    }
    r.insert(idx, x);
    proof {
        assert(views_of(r@) =~= s.subrange(0, idx as int) + seq![x@] + s.skip(idx as int));
    }
}

/// Sort by descending length by insertion.
pub fn sort_desc_len(v: Vec<Vec<char>>) -> (r: Vec<Vec<char>>)
    ensures
        views_of(r@) == sort_desc_len_spec(views_of(v@)),
{
    let ghost full = views_of(v@);
    let mut rest = v;
    let mut r: Vec<Vec<char>> = Vec::new();
    while rest.len() > 0
        invariant
            sort_desc_len_from(views_of(r@), views_of(rest@)) == sort_desc_len_from(
                Seq::empty(),
                full,
            ),
        decreases rest@.len(),
    {
        let ghost rrest = views_of(rest@);
        let x = rest.remove(0);
        insert_desc_len_exec(&mut r, x);
        proof {
            assert(views_of(rest@) =~= rrest.drop_first());
        }
    }
    proof {
        assert(views_of(rest@) =~= Seq::<Seq<char>>::empty());
    }
    r
}

/// The items from position `i` on, separated by `sep`.
pub open spec fn join_from(items: Seq<Seq<char>>, sep: Seq<char>, i: int) -> Seq<char>
    decreases items.len() - i,
{
    if i < 0 || i >= items.len() {
        Seq::empty()
    } else if i == items.len() - 1 {
        items[i]
    } else {
        items[i] + sep + join_from(items, sep, i + 1)
    }
}

/// All items separated by `sep`.
pub open spec fn join_with(items: Seq<Seq<char>>, sep: Seq<char>) -> Seq<char> {
    join_from(items, sep, 0)
}

/// The strings of `items` joined with the separator `sep`.
pub fn join_strings(items: &Vec<String>, sep: &str) -> (r: String)
    ensures
        r@ == join_with(views_of_strings(items@), sep@),
{
    let ghost vs = views_of_strings(items@);
    let mut r = String::new();
    let n = items.len();
    let mut i: usize = 0;
    while i < n
        invariant
            n == items@.len(),
            vs == views_of_strings(items@),
            i <= n,
            r@ + join_from(vs, sep@, i as int) == join_with(vs, sep@),
        decreases n - i,
    {
        r.append(items[i].as_str());
        if i + 1 < n {
            r.append(sep);
        }
        proof {
            if i + 1 < n {
                assert(join_from(vs, sep@, i as int) =~= vs[i as int] + sep@ + join_from(
                    vs,
                    sep@,
                    i + 1,
                ));
            }
        }
        i = i + 1;
    }
    proof {
        assert(r@ + join_from(vs, sep@, n as int) =~= r@);
    }
    r
}

/// Each character vector as a `String`, in order.
pub fn strings_of(vs: &Vec<Vec<char>>) -> (r: Vec<String>)
    ensures
        views_of_strings(r@) == views_of(vs@),
{
    let mut r: Vec<String> = Vec::new();
    let mut i: usize = 0;
    while i < vs.len()
        invariant
            i <= vs@.len(),
            r@.len() == i,
            forall|j: int| 0 <= j < i ==> r@[j]@ == vs@[j]@,
        decreases vs@.len() - i,
    {
        r.push(string_from_chars(&vs[i]));
        i = i + 1;
    }
    proof {
        assert(views_of_strings(r@) =~= views_of(vs@));
    }
    r
}

} // verus!
