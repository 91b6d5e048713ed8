use vstd::prelude::*;
use vstd::seq_lib::seq_to_set_is_finite;
use vstd::set_lib::lemma_len_subset;

verus! {

/// How many entries of `flags` are set.
pub open spec fn count_true(flags: Seq<bool>) -> nat
    decreases flags.len(),
{
    if flags.len() == 0 {
        0
    } else {
        count_true(flags.drop_last()) + if flags.last() { 1nat } else { 0nat }
    }
}

/// Changing one entry changes the count by that entry alone.
pub proof fn lemma_count_update(flags: Seq<bool>, i: int, b: bool)
    requires
        0 <= i < flags.len(),
    ensures
        count_true(flags.update(i, b)) + (if flags[i] { 1nat } else { 0nat }) == count_true(flags) + (if b { 1nat } else { 0nat }),
    decreases flags.len(),
{
    let after = flags.update(i, b);
    if i == flags.len() - 1 {
        assert(after.drop_last() =~= flags.drop_last());
    } else {
        lemma_count_update(flags.drop_last(), i, b);
        assert(after.drop_last() =~= flags.drop_last().update(i, b));
    }
}

/// A positive count has a set entry behind it, and a set entry makes the count positive.
pub proof fn lemma_count_positive(flags: Seq<bool>)
    ensures
        count_true(flags) > 0 <==> exists|i: int| 0 <= i < flags.len() && flags[i],
    decreases flags.len(),
{
    if flags.len() > 0 {
        lemma_count_positive(flags.drop_last());
        if flags.last() {
            assert(flags[flags.len() - 1]);
        } else if count_true(flags) > 0 {
            let i = choose|i: int| 0 <= i < flags.drop_last().len() && flags.drop_last()[i];
            assert(flags[i]);
        } else if exists|i: int| 0 <= i < flags.len() && flags[i] {
            let i = choose|i: int| 0 <= i < flags.len() && flags[i];
            assert(flags.drop_last()[i]);
        }
    }
}

/// With two or more entries set, every seat has a set entry other than itself.
pub proof fn lemma_count_other(flags: Seq<bool>, a: int)
    requires
        0 <= a < flags.len(),
        count_true(flags) >= 2,
    ensures
        exists|j: int| 0 <= j < flags.len() && j != a && flags[j],
{
    let rest = flags.update(a, false);
    lemma_count_update(flags, a, false);
    lemma_count_positive(rest);
    let j = choose|j: int| 0 <= j < rest.len() && rest[j];
    assert(flags[j] && j != a);
}

/// Two different set entries make a count of two or more.
pub proof fn lemma_count_pair(flags: Seq<bool>, a: int, b: int)
    requires
        0 <= a < flags.len(),
        0 <= b < flags.len(),
        a != b,
        flags[a],
        flags[b],
    ensures
        count_true(flags) >= 2,
{
    let rest = flags.update(a, false);
    lemma_count_update(flags, a, false);
    lemma_count_update(rest, b, false);
}

/// One set entry makes a count of one or more.
pub proof fn lemma_count_single(flags: Seq<bool>, a: int)
    requires
        0 <= a < flags.len(),
        flags[a],
    ensures
        count_true(flags) >= 1,
{
    lemma_count_update(flags, a, false);
}

/// Where `some` is set only where `all` is, and `rest` marks the entries of `all` that `some`
/// leaves out, the counts of `some` and `rest` add up to that of `all`.
pub proof fn lemma_count_split(all: Seq<bool>, some: Seq<bool>, rest: Seq<bool>)
    requires
        all.len() == some.len() == rest.len(),
        forall|i: int| 0 <= i < all.len() ==> (some[i] ==> all[i]),
        forall|i: int| 0 <= i < all.len() ==> rest[i] == (all[i] && !some[i]),
    ensures
        count_true(all) == count_true(some) + count_true(rest),
    decreases all.len(),
{
    if all.len() > 0 {
        lemma_count_split(all.drop_last(), some.drop_last(), rest.drop_last());
    }
}

/// The count of a prefix that is one entry longer.
pub proof fn lemma_count_take(flags: Seq<bool>, k: int)
    requires
        0 <= k < flags.len(),
    ensures
        count_true(flags.take(k + 1)) == count_true(flags.take(k)) + if flags[k] { 1nat } else { 0nat },
{
    assert(flags.take(k + 1).drop_last() =~= flags.take(k));
}

/// The lengths of the rows of `rows`, added up.
pub open spec fn total_len<T>(rows: Seq<Seq<T>>) -> nat
    decreases rows.len(),
{
    if rows.len() == 0 {
        0
    } else {
        total_len(rows.drop_last()) + rows.last().len()
    }
}

/// Replacing one row changes the total by the change in that row's length.
pub proof fn lemma_total_update<T>(rows: Seq<Seq<T>>, i: int, row: Seq<T>)
    requires
        0 <= i < rows.len(),
    ensures
        total_len(rows.update(i, row)) + rows[i].len() == total_len(rows) + row.len(),
    decreases rows.len(),
{
    let after = rows.update(i, row);
    if i == rows.len() - 1 {
        assert(after.drop_last() =~= rows.drop_last());
    } else {
        lemma_total_update(rows.drop_last(), i, row);
        assert(after.drop_last() =~= rows.drop_last().update(i, row));
    }
}

/// The total is zero exactly when every row is empty.
pub proof fn lemma_total_zero<T>(rows: Seq<Seq<T>>)
    ensures
        total_len(rows) == 0 <==> forall|i: int| 0 <= i < rows.len() ==> (#[trigger] rows[i]).len() == 0,
    decreases rows.len(),
{
    if rows.len() > 0 {
        lemma_total_zero(rows.drop_last());
        if total_len(rows) == 0 {
            assert forall|i: int| 0 <= i < rows.len() implies (#[trigger] rows[i]).len() == 0 by {
                if i < rows.len() - 1 {
                    assert(rows.drop_last()[i].len() == 0);
                }
            }
        } else if forall|i: int| 0 <= i < rows.len() ==> (#[trigger] rows[i]).len() == 0 {
            assert forall|i: int| 0 <= i < rows.drop_last().len() implies (#[trigger] rows.drop_last()[i]).len() == 0 by {
                assert(rows[i].len() == 0);
            }
            assert(rows[rows.len() - 1].len() == 0);
        }
    }
}

/// With no row longer than four, the total is at most four per row.
pub proof fn lemma_total_bounded<T>(rows: Seq<Seq<T>>)
    requires
        forall|i: int| 0 <= i < rows.len() ==> (#[trigger] rows[i]).len() <= 4,
    ensures
        total_len(rows) <= 4 * rows.len(),
    decreases rows.len(),
{
    if rows.len() > 0 {
        assert forall|i: int| 0 <= i < rows.drop_last().len() implies (#[trigger] rows.drop_last()[i]).len() <= 4 by {
            assert(rows[i].len() <= 4);
        }
        lemma_total_bounded(rows.drop_last());
        assert(rows[rows.len() - 1].len() <= 4);
    }
}

/// The total of a prefix that is one row longer.
pub proof fn lemma_total_take<T>(rows: Seq<Seq<T>>, k: int)
    requires
        0 <= k < rows.len(),
    ensures
        total_len(rows.take(k + 1)) == total_len(rows.take(k)) + rows[k].len(),
{
    assert(rows.take(k + 1).drop_last() =~= rows.take(k));
}

/// The seat after `i` at a table of `n` seats.
pub open spec fn after(i: int, n: int) -> int {
    if i + 1 >= n {
        0
    } else {
        i + 1
    }
}

/// How many seats lie between `from` and `i`, going round a table of `n` seats: 0 for `from`
/// itself, 1 for the seat after it, up to `n - 1` for the seat before it.
pub open spec fn ahead(from: int, i: int, n: int) -> int {
    if i >= from {
        i - from
    } else {
        i + n - from
    }
}

/// How many steps lead from `from` to `i`, going round a table of `n` seats and taking at
/// least one step: `n` for `from` itself.
pub open spec fn gap(from: int, i: int, n: int) -> int {
    if i > from {
        i - from
    } else {
        i + n - from
    }
}

/// The first open seat among `at` and the `tries` seats after it, or the last of them if
/// none is open.
pub open spec fn seek(open: Seq<bool>, at: int, tries: nat) -> int
    decreases tries,
{
    if tries == 0 || open[at] {
        at
    } else {
        seek(open, after(at, open.len() as int), (tries - 1) as nat)
    }
}

/// The first open seat after `from`, going round the table; `from` itself comes last.
pub open spec fn next_open(open: Seq<bool>, from: int) -> int {
    seek(open, after(from, open.len() as int), (open.len() - 1) as nat)
}

proof fn lemma_seek(open: Seq<bool>, from: int, at: int, tries: nat)
    requires
        0 <= from < open.len(),
        0 <= at < open.len(),
        gap(from, at, open.len() as int) + tries == open.len(),
        forall|j: int| 0 <= j < open.len() && gap(from, j, open.len() as int) < gap(from, at, open.len() as int) ==> !open[j],
    ensures
        0 <= seek(open, at, tries) < open.len(),
        forall|j: int| 0 <= j < open.len() && gap(from, j, open.len() as int) < gap(from, seek(open, at, tries), open.len() as int) ==> !open[j],
        open[seek(open, at, tries)] || seek(open, at, tries) == from,
    decreases tries,
{
    let n = open.len() as int;
    if tries == 0 || open[at] {
    } else {
        let then = after(at, n);
        assert forall|j: int| 0 <= j < n && gap(from, j, n) < gap(from, then, n) implies !open[j] by {
            if gap(from, j, n) == gap(from, at, n) {
                assert(j == at);
            }
        }
        lemma_seek(open, from, then, (tries - 1) as nat);
    }
}

/// `next_open` gives a seat of the table. No seat that comes before it, going round from
/// `from`, is open; and it is open itself if any seat is.
pub proof fn lemma_next_open(open: Seq<bool>, from: int)
    requires
        0 <= from < open.len(),
    ensures
        0 <= next_open(open, from) < open.len(),
        forall|j: int| 0 <= j < open.len() && gap(from, j, open.len() as int) < gap(from, next_open(open, from), open.len() as int) ==> !open[j],
        (exists|j: int| 0 <= j < open.len() && open[j]) ==> open[next_open(open, from)],
        (exists|j: int| 0 <= j < open.len() && j != from && open[j]) ==> next_open(open, from) != from,
{
    let n = open.len() as int;
    lemma_seek(open, from, after(from, n), (n - 1) as nat);
    let r = next_open(open, from);
    if exists|j: int| 0 <= j < open.len() && j != from && open[j] {
        let j = choose|j: int| 0 <= j < open.len() && j != from && open[j];
        assert(gap(from, j, n) < n);
    }
    if exists|j: int| 0 <= j < open.len() && open[j] {
        let j = choose|j: int| 0 <= j < open.len() && open[j];
        if !open[r] {
            assert(r == from);
            assert(gap(from, j, n) <= n);
            assert(j == from);
        }
    }
}

/// The positions from `lo` up to, not including, `hi`, in rising order.
pub open spec fn span(lo: int, hi: int) -> Seq<usize> {
    Seq::new((hi - lo) as nat, |k: int| (lo + k) as usize)
}

/// Whether `marks` names positions of a pile of `len` cards, none of them twice.
pub open spec fn marks_fit(marks: Seq<usize>, len: nat) -> bool {
    &&& marks.no_duplicates()
    &&& forall|k: int| 0 <= k < marks.len() ==> marks[k] < len
}

/// Positions of a pile, none named twice, are no more than the pile has cards.
pub proof fn lemma_marks_fit_len(marks: Seq<usize>, len: nat)
    requires
        marks_fit(marks, len),
        len <= usize::MAX,
    ensures
        marks.len() <= len,
{
    broadcast use seq_to_set_is_finite;

    let cover = span(0, len as int);
    assert forall|x: usize| marks.to_set().contains(x) implies cover.to_set().contains(x) by {
        assert(cover[x as int] == x);
    }
    cover.lemma_cardinality_of_set();
    lemma_len_subset(marks.to_set(), cover.to_set());
    marks.unique_seq_to_set();
}

/// A span of positions below `len` fits a pile of `len` cards.
pub proof fn lemma_span_fits(lo: int, hi: int, len: nat)
    requires
        0 <= lo <= hi <= len,
        len <= usize::MAX,
    ensures
        marks_fit(span(lo, hi), len),
        span(lo, hi).len() == hi - lo,
{
}

} // verus!
