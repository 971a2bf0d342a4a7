use vstd::prelude::*;
use crate::span::Span;

verus! {

/// The largest end of the spans, 0 for none.
pub open spec fn max_end(s: Seq<Span>) -> nat
    decreases s.len(),
{
    if s.len() == 0 {
        0
    } else {
        let m = max_end(s.drop_last());
        if s.last().end > m {
            s.last().end as nat
        } else {
            m
        }
    }
}

pub proof fn lemma_max_end_bounds(s: Seq<Span>)
    ensures
        forall|i: int| 0 <= i < s.len() ==> (#[trigger] s[i]).end <= max_end(s),
    decreases s.len(),
{
    if s.len() > 0 {
        lemma_max_end_bounds(s.drop_last());
        assert forall|i: int| 0 <= i < s.len() implies (#[trigger] s[i]).end <= max_end(s) by {
            if i < s.len() - 1 {
                assert(s[i] == s.drop_last()[i]);
            }
        }
    }
}

pub open spec fn appears_within(s: Seq<Span>, v: Span, n: int) -> bool {
    exists|m: int| 0 <= m < n && #[trigger] s[m] == v
}

pub open spec fn all_distinct(s: Seq<Span>) -> bool {
    forall|i: int, j: int| 0 <= i < j < s.len() ==> s[i] != s[j]
}

/// Whether `s[i]` repeats a span that comes before it.
pub open spec fn repeats_earlier(s: Seq<Span>, i: int) -> bool {
    s.subrange(0, i).contains(s[i])
}

/// What normalization gives: every span is distinct; a span seen for the first
/// time is kept; a repeated one becomes an empty span past the end of every
/// input span, in order.
pub open spec fn normalized(old: Seq<Span>, new: Seq<Span>) -> bool {
    &&& new.len() == old.len()
    &&& all_distinct(new)
    &&& forall|i: int| 0 <= i < old.len() && !repeats_earlier(old, i) ==> #[trigger] new[i] == old[i]
    &&& forall|i: int| 0 <= i < old.len() && repeats_earlier(old, i) ==> {
        &&& (#[trigger] new[i]).start == new[i].end
        &&& new[i].start > max_end(old)
    }
}

fn largest_end(spans: &Vec<Span>) -> (r: u32)
    ensures
        r == max_end(spans@),
{
    let mut m: u32 = 0;
    let mut i: usize = 0;
    while i < spans.len()
        invariant
            i <= spans@.len(),
            m == max_end(spans@.subrange(0, i as int)),
        decreases spans@.len() - i,
    {
        assert(spans@.subrange(0, i as int + 1).drop_last() =~= spans@.subrange(0, i as int));
        if spans[i].end > m {
            m = spans[i].end;
        }
        i = i + 1;
    }
    assert(spans@.subrange(0, i as int) =~= spans@);
    m
}

fn occurs_before(spans: &Vec<Span>, i: usize) -> (r: bool)
    requires
        i < spans@.len(),
    ensures
        r == spans@.subrange(0, i as int).contains(spans@[i as int]),
{
    let mut j: usize = 0;
    while j < i
        invariant
            j <= i < spans@.len(),
            forall|k: int| 0 <= k < j ==> spans@[k] != spans@[i as int],
        decreases i - j,
    {
        if spans[j] == spans[i] {
            assert(spans@.subrange(0, i as int)[j as int] == spans@[i as int]);
            return true;
        }
        j = j + 1;
    }
    proof {
        if spans@.subrange(0, i as int).contains(spans@[i as int]) {
            let k = choose|k: int| 0 <= k < i && spans@.subrange(0, i as int)[k] == spans@[i as int];
            assert(spans@[k] == spans@[i as int]);
        }
    }
    false
}

/// Gives every repeated span a fresh empty span of its own, so that no two
/// spans are equal: `spans` holds the spans of a tree's nodes in visit order.
pub fn ensure_span_uniqueness(spans: &mut Vec<Span>)
    requires
        max_end(old(spans)@) + old(spans)@.len() < u32::MAX,
    ensures
        normalized(old(spans)@, final(spans)@),
{
    let ghost orig = spans@;
    let top = largest_end(spans);
    proof { lemma_max_end_bounds(orig); }
    let mut next: u32 = top + 1;
    let mut i: usize = 0;
    while i < spans.len()
        invariant
            spans@.len() == orig.len(),
            top == max_end(orig),
            forall|k: int| 0 <= k < orig.len() ==> (#[trigger] orig[k]).end <= top,
            top + orig.len() < u32::MAX,
            i <= orig.len(),
            next <= top + 1 + i,
            next > top,
            forall|k: int| i <= k < orig.len() ==> #[trigger] spans@[k] == orig[k],
            forall|a: int, b: int| 0 <= a < b < i ==> spans@[a] != spans@[b],
            forall|k: int| 0 <= k < i && !repeats_earlier(orig, k) ==> #[trigger] spans@[k] == orig[k],
            forall|k: int| 0 <= k < i && repeats_earlier(orig, k) ==> {
                &&& (#[trigger] spans@[k]).start == spans@[k].end
                &&& top < spans@[k].start < next
            },
            forall|k: int| 0 <= k < i ==> appears_within(spans@, #[trigger] orig[k], i as int),
        decreases orig.len() - i,
    {
        let ghost before = spans@;
        let repeated = occurs_before(spans, i);
        proof {
            // a span already in the prefix was in the input prefix too
            if repeated {
                let m = choose|m: int| 0 <= m < i && before.subrange(0, i as int)[m] == before[i as int];
                assert(before[m] == orig[i as int]);
                if repeats_earlier(orig, m) {
                    assert(orig[i as int].end <= top);
                    assert(false);
                }
                assert(orig.subrange(0, i as int)[m] == orig[i as int]);
            } else {
                if repeats_earlier(orig, i as int) {
                    let k = choose|k: int| 0 <= k < i && orig.subrange(0, i as int)[k] == orig[i as int];
                    assert(orig[k] == orig[i as int]);
                    assert(appears_within(before, orig[k], i as int));
                    let m = choose|m: int| 0 <= m < i && #[trigger] before[m] == orig[k];
                    assert(before.subrange(0, i as int)[m] == before[i as int]);
                }
            }
        }
        if repeated {
            spans.set(i, Span::new(next, next));
            next = next + 1;
        }
        proof {
            assert forall|k: int| 0 <= k < i + 1 implies appears_within(spans@, #[trigger] orig[k], i + 1) by {
                if k < i {
                    assert(appears_within(before, orig[k], i as int));
                    let m = choose|m: int| 0 <= m < i && #[trigger] before[m] == orig[k];
                    assert(spans@[m] == orig[k]);
                } else if repeated {
                    let m = choose|m: int| 0 <= m < i && before.subrange(0, i as int)[m] == before[i as int];
                    assert(spans@[m] == orig[k]);
                } else {
                    assert(spans@[i as int] == orig[k]);
                }
            }
            assert forall|a: int, b: int| 0 <= a < b < i + 1 implies spans@[a] != spans@[b] by {
                if b == i && !repeated {
                    assert(before.subrange(0, i as int)[a] == before[a]);
                }
                if b == i && repeated {
                    assert(spans@[a] == before[a]);
                    if !repeats_earlier(orig, a) {
                        assert(orig[a].end <= top);
                    }
                }
            }
        }
        i = i + 1;
    }
}

/// Normalizing spans that are already distinct leaves them as they are.
pub proof fn lemma_distinct_spans_are_kept(old: Seq<Span>, new: Seq<Span>)
    requires
        all_distinct(old),
        normalized(old, new),
    ensures
        new == old,
{
    assert forall|i: int| 0 <= i < old.len() implies new[i] == old[i] by {
        if repeats_earlier(old, i) {
            let k = choose|k: int| 0 <= k < i && old.subrange(0, i)[k] == old[i];
            assert(old[k] == old[i]);
        }
    }
    assert(new =~= old);
}

/// Normalization is idempotent: normalizing its result again changes
/// nothing.
pub proof fn lemma_span_uniqueness_idempotent(s: Seq<Span>, once: Seq<Span>, twice: Seq<Span>)
    requires
        normalized(s, once),
        normalized(once, twice),
    ensures
        twice == once,
{
    lemma_distinct_spans_are_kept(once, twice);
}

} // verus!
