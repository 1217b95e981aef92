use vstd::prelude::*;

use crate::text::chars_of;

verus! {

/// The value of a list of decimal digits.
pub open spec fn digits_value(s: Seq<char>) -> int
    decreases s.len(),
{
    if s.len() == 0 {
        0
    } else {
        digits_value(s.drop_last()) * 10 + (s.last() as u32 - '0' as u32)
    }
}

pub open spec fn all_digits(s: Seq<char>) -> bool {
    forall|i: int| 0 <= i < s.len() ==> '0' <= #[trigger] s[i] <= '9'
}

/// The digits of an unsigned decimal number, after an optional `+`.
pub open spec fn number_digits(s: Seq<char>) -> Seq<char> {
    if s.len() > 0 && s[0] == '+' {
        s.drop_first()
    } else {
        s
    }
}

/// The number that `s` spells, when it spells one that fits in a `usize`.
pub open spec fn decimal_number(s: Seq<char>) -> Option<usize> {
    let d = number_digits(s);
    if d.len() > 0 && all_digits(d) && digits_value(d) <= usize::MAX {
        Some(digits_value(d) as usize)
    } else {
        None
    }
}

/// Reads an unsigned decimal number, as `str::parse::<usize>` does.
pub fn parse_decimal(s: &str) -> (r: Option<usize>)
    ensures
        r == decimal_number(s@),
{
    let v = chars_of(s);
    let start: usize = if v.len() > 0 && v[0] == '+' {
        1
    } else {
        0
    };
    let ghost d = number_digits(s@);
    assert(d =~= v@.subrange(start as int, v.len() as int));
    if start >= v.len() {
        return None;
    }
    let mut value: usize = 0;
    let mut i: usize = start;
    while i < v.len()
        invariant
            v@ == s@,
            start <= i <= v.len(),
            d == v@.subrange(start as int, v.len() as int),
            d == number_digits(s@),
            all_digits(v@.subrange(start as int, i as int)),
            value as int == digits_value(v@.subrange(start as int, i as int)),
        decreases v.len() - i,
    {
        assert(v@.subrange(start as int, i + 1).drop_last() =~= v@.subrange(
            start as int,
            i as int,
        ));
        let c = v[i];
        if c < '0' || c > '9' {
            assert(d[i - start] == c);
            assert(!all_digits(d));
            return None;
        }
        let digit = (c as u32 - '0' as u32) as usize;
        if value > (usize::MAX - digit) / 10 {
            proof {
                let p = v@.subrange(start as int, i + 1);
                assert(p.drop_last() =~= v@.subrange(start as int, i as int));
                assert(all_digits(p));
                assert(value * 10 + digit > usize::MAX) by (nonlinear_arith)
                    requires
                        value > (usize::MAX - digit) / 10,
                        digit <= 9,
                ;
                assert(digits_value(p) > usize::MAX);
                lemma_prefix_value_grows(v@, start as int, i + 1, v.len() as int);
            }
            return None;
        }
        value = value * 10 + digit;
        i = i + 1;
    }
    Some(value)
}

proof fn lemma_prefix_value_grows(v: Seq<char>, start: int, a: int, b: int)
    requires
        0 <= start <= a <= b <= v.len(),
        all_digits(v.subrange(start, a)),
        digits_value(v.subrange(start, a)) > usize::MAX,
    ensures
        all_digits(v.subrange(start, b)) ==> digits_value(v.subrange(start, b)) > usize::MAX,
    decreases b - a,
{
    if b > a && all_digits(v.subrange(start, b)) {
        assert(v.subrange(start, b).drop_last() =~= v.subrange(start, b - 1));
        assert(all_digits(v.subrange(start, b - 1)));
        lemma_prefix_value_grows(v, start, a, b - 1);
        assert(v.subrange(start, b)[b - 1 - start] == v[b - 1]);
    }
}

/// The concurrency that an option asks for: empty means one worker, `max`
/// means one per core, a number means that many (at least one), anything
/// else one.
pub open spec fn requested_concurrency(s: Seq<char>, cores: usize) -> usize {
    if s.len() == 0 {
        1
    } else if s == seq!['m', 'a', 'x'] {
        cores
    } else {
        match decimal_number(s) {
            Some(n) => if n < 1 {
                1
            } else {
                n
            },
            None => 1,
        }
    }
}

pub fn parse_generation_concurrency(s: &str, cores: usize) -> (r: usize)
    ensures
        r == requested_concurrency(s@, cores),
{
    let v = chars_of(s);
    if v.len() == 0 {
        return 1;
    }
    if v.len() == 3 && v[0] == 'm' && v[1] == 'a' && v[2] == 'x' {
        assert(s@ =~= seq!['m', 'a', 'x']);
        return cores;
    }
    assert(s@ != seq!['m', 'a', 'x']);
    match parse_decimal(s) {
        Some(n) => if n < 1 {
            1
        } else {
            n
        },
        None => 1,
    }
}

/// The number of workers a run uses: one unless duplicate ids are checked
/// (workers could otherwise clash on a shared card), and never more than the
/// cores, nor fewer than one.
pub open spec fn effective_concurrency_spec(
    requested: usize,
    check_duplicates: bool,
    cores: usize,
) -> usize {
    if !check_duplicates && requested > 1 {
        1
    } else if requested > cores {
        if cores < 1 {
            1
        } else {
            cores
        }
    } else if requested < 1 {
        1
    } else {
        requested
    }
}

pub fn effective_concurrency(requested: usize, check_duplicates: bool, cores: usize) -> (r: usize)
    ensures
        r == effective_concurrency_spec(requested, check_duplicates, cores),
        r >= 1,
        r <= requested || r == 1,
{
    if !check_duplicates && requested > 1 {
        1
    } else if requested > cores {
        if cores < 1 {
            1
        } else {
            cores
        }
    } else if requested < 1 {
        1
    } else {
        requested
    }
}

/// Ranges of positions that follow each other from `0` to `total`.
pub open spec fn tiles(r: Seq<(usize, usize)>, total: int) -> bool {
    &&& r.len() == 0 ==> total == 0
    &&& r.len() > 0 ==> r[0].0 == 0 && r.last().1 == total
    &&& forall|i: int| 0 <= i < r.len() ==> #[trigger] r[i].0 <= r[i].1
    &&& forall|i: int| 0 <= i < r.len() - 1 ==> #[trigger] r[i].1 == r[i + 1].0
}

/// The items of `s` that the batches `r` hold, batch after batch.
pub open spec fn batched<T>(s: Seq<T>, r: Seq<(usize, usize)>) -> Seq<T>
    decreases r.len(),
{
    if r.len() == 0 {
        Seq::empty()
    } else {
        batched(s, r.drop_last()) + s.subrange(r.last().0 as int, r.last().1 as int)
    }
}

/// The ceiling of `a / b`.
pub open spec fn ceil_div(a: int, b: int) -> int {
    (a + b - 1) / b
}

/// The `i`-th batch when batches hold `chunk` positions each, cut at `total`.
pub open spec fn batch_range(i: int, chunk: int, total: int) -> (usize, usize) {
    (
        (if i * chunk < total {
            i * chunk
        } else {
            total
        }) as usize,
        (if (i + 1) * chunk < total {
            (i + 1) * chunk
        } else {
            total
        }) as usize,
    )
}

/// The batches of `total` positions for `workers` workers.
pub open spec fn batch_plan(total: int, workers: int) -> Seq<(usize, usize)> {
    if workers <= 1 {
        seq![(0usize, total as usize)]
    } else if total == 0 {
        Seq::empty()
    } else {
        let n = if total < workers {
            total
        } else {
            workers
        };
        Seq::new(n as nat, |i: int| batch_range(i, ceil_div(total, n), total))
    }
}

/// Splits `total` cards into batches for `workers` workers: one batch of all
/// cards for a single worker; else `min(workers, total)` ranges of
/// `ceil(total / batches)` positions each, the last ones cut at `total`.
pub fn batch_ranges(total: usize, workers: usize) -> (r: Vec<(usize, usize)>)
    ensures
        r@ == batch_plan(total as int, workers as int),
        tiles(r@, total as int),
        workers <= 1 ==> r@ == seq![(0usize, total)],
        workers > 1 ==> r.len() == if total < workers {
            total
        } else {
            workers
        },
        workers > 1 ==> forall|i: int|
            0 <= i < r.len() ==> #[trigger] r[i] == batch_range(
                i,
                ceil_div(total as int, r.len() as int),
                total as int,
            ),
{
    if workers <= 1 {
        return vec![(0, total)];
    }
    if total == 0 {
        return Vec::new();
    }
    let n_batches: usize = if workers < total {
        workers
    } else {
        total
    };
    let q: usize = total / n_batches;
    let rem: usize = total % n_batches;
    assert(q * n_batches + rem == total && q >= 1 && q <= q * n_batches) by (nonlinear_arith)
        requires
            0 < n_batches <= total,
            q == total / n_batches,
            rem == total % n_batches,
    ;
    let chunk: usize = if rem == 0 {
        q
    } else {
        q + 1
    };
    assert(chunk == ceil_div(total as int, n_batches as int)) by (nonlinear_arith)
        requires
            n_batches > 0,
            chunk == total / n_batches + if total % n_batches == 0 {
                0int
            } else {
                1int
            },
    ;
    assert(chunk * n_batches >= total) by (nonlinear_arith)
        requires
            n_batches > 0,
            chunk == total / n_batches + if total % n_batches == 0 {
                0int
            } else {
                1int
            },
    ;
    let mut r: Vec<(usize, usize)> = Vec::new();
    let mut start: usize = 0;
    let mut i: usize = 0;
    while i < n_batches
        invariant
            0 < n_batches <= total,
            chunk >= 1,
            chunk * n_batches >= total,
            i <= n_batches,
            r.len() == i,
            start <= total,
            i < n_batches ==> start as int == if i * chunk < total {
                i * chunk
            } else {
                total as int
            },
            i > 0 ==> r[i - 1].1 == start,
            i > 0 ==> r[0].0 == 0,
            i == 0 ==> start == 0,
            forall|j: int| 0 <= j < i ==> #[trigger] r[j].0 <= r[j].1,
            forall|j: int| 0 <= j < i ==> #[trigger] r[j] == batch_range(j, chunk as int, total as int),
            forall|j: int| 0 <= j < i - 1 ==> #[trigger] r[j].1 == r[j + 1].0,
            i == n_batches ==> start == total,
            n_batches == if total < workers {
                total
            } else {
                workers
            },
            workers > 1,
        decreases n_batches - i,
    {
        let end: usize = if total - start < chunk {
            total
        } else {
            start + chunk
        };
        r.push((start, end));
        proof {
            if i + 1 < n_batches {
                assert((i + 1) * chunk == i * chunk + chunk) by (nonlinear_arith);
            } else {
                assert(n_batches * chunk >= total);
                assert((i + 1) * chunk == i * chunk + chunk) by (nonlinear_arith);
            }
        }
        start = end;
        i = i + 1;
    }
    assert(r@ =~= batch_plan(total as int, workers as int));
    r
}

/// The batches of a list, for any number of workers, hold each of its items
/// once, in the list's order: put one after another, they give back the list.
pub proof fn lemma_batches_partition<T>(s: Seq<T>, workers: usize)
    requires
        s.len() <= usize::MAX,
    ensures
        batched(s, batch_plan(s.len() as int, workers as int)) == s,
{
    let total = s.len() as int;
    let r = batch_plan(total, workers as int);
    lemma_batch_plan_tiles(total, workers as int);
    if r.len() > 0 {
        lemma_batched_prefix(s, r);
        assert(s.subrange(0, s.len() as int) =~= s);
    }
}

proof fn lemma_batch_plan_tiles(total: int, workers: int)
    requires
        0 <= total <= usize::MAX,
    ensures
        tiles(batch_plan(total, workers), total),
{
    if workers > 1 && total > 0 {
        let n = if total < workers {
            total
        } else {
            workers
        };
        let chunk = ceil_div(total, n);
        assert(chunk * n >= total && chunk >= 1) by (nonlinear_arith)
            requires
                0 < n <= total,
                chunk == (total + n - 1) / n,
        ;
        let r = batch_plan(total, workers);
        assert forall|i: int| 0 <= i < r.len() implies #[trigger] r[i].0 <= r[i].1 by {
            assert(i * chunk <= (i + 1) * chunk) by (nonlinear_arith)
                requires
                    chunk >= 1,
            ;
        }
        assert(r.len() == n);
        assert(r.last() == batch_range(n - 1, chunk, total));
        assert(((n - 1) + 1) * chunk >= total) by (nonlinear_arith)
            requires
                chunk * n >= total,
        ;
    }
}

proof fn lemma_batched_prefix<T>(s: Seq<T>, r: Seq<(usize, usize)>)
    requires
        r.len() > 0,
        r[0].0 == 0,
        r.last().1 <= s.len(),
        forall|i: int| 0 <= i < r.len() ==> #[trigger] r[i].0 <= r[i].1,
        forall|i: int| 0 <= i < r.len() - 1 ==> #[trigger] r[i].1 == r[i + 1].0,
    ensures
        batched(s, r) == s.subrange(0, r.last().1 as int),
    decreases r.len(),
{
    let p = r.drop_last();
    if p.len() == 0 {
        assert(batched(s, p) == Seq::<T>::empty());
        assert(batched(s, r) =~= s.subrange(0, r.last().1 as int));
    } else {
        assert(p[p.len() - 1].1 == r[r.len() - 2].1);
        assert(r[r.len() - 2].1 == r[r.len() - 1].0);
        assert forall|i: int| 0 <= i < p.len() implies #[trigger] p[i].0 <= p[i].1 by {
            assert(r[i].0 <= r[i].1);
        }
        assert forall|i: int| 0 <= i < p.len() - 1 implies #[trigger] p[i].1 == p[i + 1].0 by {
            assert(r[i].1 == r[i + 1].0);
        }
        lemma_batched_prefix(s, p);
        assert(batched(s, r) =~= s.subrange(0, r.last().1 as int));
    }
}

} // verus!
