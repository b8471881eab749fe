//! First-match search over sequences: the specification-level analogue of
//! the row lookups the catalog performs, with the lemmas the rest of the
//! crate needs to reason about appends and scans.

use vstd::prelude::*;

verus! {

/// The first element of `s` satisfying `p`, scanning left to right.
pub open spec fn find_first<T>(s: Seq<T>, p: spec_fn(T) -> bool) -> Option<T>
    decreases s.len(),
{
    if s.len() <= 0 {
        None
    } else if p(s[0]) {
        Some(s[0])
    } else {
        find_first(s.drop_first(), p)
    }
}

/// Scanning the suffix that starts at `i` either stops at `s[i]` or
/// continues with the suffix that starts at `i + 1`.
pub proof fn lemma_find_first_skip_step<T>(s: Seq<T>, p: spec_fn(T) -> bool, i: int)
    requires
        0 <= i < s.len(),
    ensures
        find_first(s.skip(i), p) == if p(s[i]) {
            Some(s[i])
        } else {
            find_first(s.skip(i + 1), p)
        },
{
    let t = s.skip(i);
    assert(t[0] == s[i]);
    assert(t.drop_first() =~= s.skip(i + 1));
}

/// Scanning the whole sequence is scanning the suffix that starts at 0.
pub proof fn lemma_find_first_skip_zero<T>(s: Seq<T>, p: spec_fn(T) -> bool)
    ensures
        find_first(s.skip(0), p) == find_first(s, p),
{
    assert(s.skip(0) =~= s);
}

/// A miss means no element matches; a hit is a matching element of `s`.
pub proof fn lemma_find_first_characterizes<T>(s: Seq<T>, p: spec_fn(T) -> bool)
    ensures
        find_first(s, p) is None <==> (forall|i: int| 0 <= i < s.len() ==> !p(#[trigger] s[i])),
        find_first(s, p) matches Some(x) ==> p(x) && exists|i: int|
            0 <= i < s.len() && #[trigger] s[i] == x,
    decreases s.len(),
{
    if s.len() > 0 && !p(s[0]) {
        lemma_find_first_characterizes(s.drop_first(), p);
        assert forall|i: int| 1 <= i < s.len() implies s.drop_first()[i - 1] == s[i] by {}
        match find_first(s, p) {
            Some(x) => {
                let j = choose|j: int| 0 <= j < s.drop_first().len() && #[trigger] s.drop_first()[j]
                    == x;
                assert(s[j + 1] == x);
            },
            None => {},
        }
    }
}

/// Searching a concatenation searches the left part first.
pub proof fn lemma_find_first_concat<T>(s: Seq<T>, t: Seq<T>, p: spec_fn(T) -> bool)
    ensures
        find_first(s + t, p) == match find_first(s, p) {
            Some(x) => Some(x),
            None => find_first(t, p),
        },
    decreases s.len(),
{
    if s.len() == 0 {
        assert(s + t =~= t);
    } else {
        assert((s + t)[0] == s[0]);
        if !p(s[0]) {
            assert((s + t).drop_first() =~= s.drop_first() + t);
            lemma_find_first_concat(s.drop_first(), t, p);
        }
    }
}

/// Appending one element changes a hit not at all, and turns a miss into
/// a hit exactly when the new element matches.
pub proof fn lemma_find_first_push<T>(s: Seq<T>, p: spec_fn(T) -> bool, x: T)
    ensures
        find_first(s.push(x), p) == match find_first(s, p) {
            Some(y) => Some(y),
            None => if p(x) {
                Some(x)
            } else {
                None
            },
        },
{
    assert(s.push(x) =~= s + seq![x]);
    lemma_find_first_concat(s, seq![x], p);
    assert(seq![x].len() == 1 && seq![x][0] == x);
    let t = seq![x];
    assert(t.drop_first() =~= Seq::<T>::empty());
    assert(find_first(t.drop_first(), p) is None);
    assert(find_first(t, p) == if p(x) {
        Some(x)
    } else {
        None
    });
}

/// Predicates that agree on every element of `s` find the same thing.
pub proof fn lemma_find_first_congruent<T>(s: Seq<T>, p: spec_fn(T) -> bool, q: spec_fn(T) -> bool)
    requires
        forall|i: int| 0 <= i < s.len() ==> p(#[trigger] s[i]) == q(s[i]),
    ensures
        find_first(s, p) == find_first(s, q),
    decreases s.len(),
{
    if s.len() > 0 {
        assert forall|i: int| 0 <= i < s.drop_first().len() implies p(
            #[trigger] s.drop_first()[i],
        ) == q(s.drop_first()[i]) by {
            assert(s.drop_first()[i] == s[i + 1]);
        }
        lemma_find_first_congruent(s.drop_first(), p, q);
    }
}

/// How many elements of `s` satisfy `p`.
pub open spec fn count_matching<T>(s: Seq<T>, p: spec_fn(T) -> bool) -> int
    decreases s.len(),
{
    if s.len() <= 0 {
        0
    } else {
        (if p(s[0]) {
            1int
        } else {
            0int
        }) + count_matching(s.drop_first(), p)
    }
}

/// The count over the suffix at `i` counts `s[i]` and continues at
/// `i + 1`.
pub proof fn lemma_count_matching_skip_step<T>(s: Seq<T>, p: spec_fn(T) -> bool, i: int)
    requires
        0 <= i < s.len(),
    ensures
        count_matching(s.skip(i), p) == (if p(s[i]) {
            1int
        } else {
            0int
        }) + count_matching(s.skip(i + 1), p),
{
    let t = s.skip(i);
    assert(t[0] == s[i]);
    assert(t.drop_first() =~= s.skip(i + 1));
}

/// The elements of `s` satisfying `p`, in order.
pub open spec fn filter_matching<T>(s: Seq<T>, p: spec_fn(T) -> bool) -> Seq<T>
    decreases s.len(),
{
    if s.len() <= 0 {
        Seq::empty()
    } else {
        let rest = filter_matching(s.drop_first(), p);
        if p(s[0]) {
            seq![s[0]] + rest
        } else {
            rest
        }
    }
}

/// Filtering the suffix at `i` keeps or drops `s[i]` and continues at
/// `i + 1`.
pub proof fn lemma_filter_matching_skip_step<T>(s: Seq<T>, p: spec_fn(T) -> bool, i: int)
    requires
        0 <= i < s.len(),
    ensures
        filter_matching(s.skip(i), p) == if p(s[i]) {
            seq![s[i]] + filter_matching(s.skip(i + 1), p)
        } else {
            filter_matching(s.skip(i + 1), p)
        },
{
    let t = s.skip(i);
    assert(t[0] == s[i]);
    assert(t.drop_first() =~= s.skip(i + 1));
}

/// A filter keeps exactly as many elements as the count counts.
pub proof fn lemma_filter_matching_count<T>(s: Seq<T>, p: spec_fn(T) -> bool)
    ensures
        filter_matching(s, p).len() == count_matching(s, p),
        0 <= count_matching(s, p) <= s.len(),
    decreases s.len(),
{
    if s.len() > 0 {
        lemma_filter_matching_count(s.drop_first(), p);
    }
}

/// When at most one element can match, a hit is that element.
pub proof fn lemma_find_first_unique_witness<T>(s: Seq<T>, p: spec_fn(T) -> bool, i: int)
    requires
        0 <= i < s.len(),
        p(s[i]),
        forall|j: int| 0 <= j < s.len() && p(#[trigger] s[j]) ==> s[j] == s[i],
    ensures
        find_first(s, p) == Some(s[i]),
{
    lemma_find_first_characterizes(s, p);
}

} // verus!
