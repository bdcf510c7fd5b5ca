//! The size scan: summing the sizes of every file the sources name, before
//! any copying, so the progress display knows its total. The caller walks the
//! filesystem and hands the sizes in; the sum, and its overflow check, are
//! owned here.

use vstd::prelude::*;

verus! {

/// The sum of a sequence of file sizes.
pub open spec fn sum_sizes(s: Seq<u64>) -> int
    decreases s.len(),
{
    if s.len() == 0 {
        0
    } else {
        s[0] + sum_sizes(s.subrange(1, s.len() as int))
    }
}

/// Appending one size adds it to the sum.
pub proof fn lemma_sum_sizes_push(s: Seq<u64>, x: u64)
    ensures
        sum_sizes(s.push(x)) == sum_sizes(s) + x,
    decreases s.len(),
{
    if s.len() == 0 {
        assert(s.push(x).subrange(1, 1) =~= Seq::<u64>::empty());
        assert(sum_sizes(Seq::<u64>::empty()) == 0);
    } else {
        assert(s.push(x).subrange(1, s.len() as int + 1) =~= s.subrange(1, s.len() as int).push(
            x,
        ));
        lemma_sum_sizes_push(s.subrange(1, s.len() as int), x);
    }
}

/// A prefix never sums to more than the whole: sizes are not negative.
pub proof fn lemma_sum_sizes_prefix_le(s: Seq<u64>, i: int)
    requires
        0 <= i <= s.len(),
    ensures
        sum_sizes(s.subrange(0, i)) <= sum_sizes(s),
    decreases s.len() - i,
{
    if i == s.len() {
        assert(s.subrange(0, i) =~= s);
    } else {
        lemma_sum_sizes_prefix_le(s, i + 1);
        assert(s.subrange(0, i + 1) =~= s.subrange(0, i).push(s[i]));
        lemma_sum_sizes_push(s.subrange(0, i), s[i]);
    }
}

/// Sums the scanned file sizes. Returns the exact total together with the
/// file count, or `None` when the true total does not fit the counter.
pub fn scan_total(sizes: &Vec<u64>) -> (r: Option<(u64, usize)>)
    ensures
        r matches Some(t) ==> t.0 == sum_sizes(sizes@) && t.1 == sizes@.len(),
        r is None ==> sum_sizes(sizes@) > u64::MAX,
{
    let mut acc: u64 = 0;
    let mut i: usize = 0;
    while i < sizes.len()
        invariant
            i <= sizes@.len(),
            acc == sum_sizes(sizes@.subrange(0, i as int)),
        decreases sizes@.len() - i,
    {
        proof {
            assert(sizes@.subrange(0, i + 1) =~= sizes@.subrange(0, i as int).push(
                sizes@[i as int],
            ));
            lemma_sum_sizes_push(sizes@.subrange(0, i as int), sizes@[i as int]);
        }
        match acc.checked_add(sizes[i]) {
            Some(v) => {
                acc = v;
            },
            None => {
                proof {
                    lemma_sum_sizes_prefix_le(sizes@, i + 1);
                }
                return None;
            },
        }
        i += 1;
    }
    proof {
        assert(sizes@.subrange(0, sizes@.len() as int) =~= sizes@);
    }
    Some((acc, sizes.len()))
}

} // verus!
