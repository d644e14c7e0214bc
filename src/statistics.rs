//! Population bookkeeping: a bounded history of live-cell counts, one per
//! generation, and the figures drawn from it.

use vstd::prelude::*;

verus! {

/// The largest element of a non-empty sequence.
pub open spec fn max_of(s: Seq<usize>) -> int
    decreases s.len(),
{
    if s.len() <= 1 {
        s[0] as int
    } else if max_of(s.drop_last()) >= s.last() {
        max_of(s.drop_last())
    } else {
        s.last() as int
    }
}

/// The smallest element of a non-empty sequence.
pub open spec fn min_of(s: Seq<usize>) -> int
    decreases s.len(),
{
    if s.len() <= 1 {
        s[0] as int
    } else if min_of(s.drop_last()) <= s.last() {
        min_of(s.drop_last())
    } else {
        s.last() as int
    }
}

/// The sum of a sequence.
pub open spec fn sum_of(s: Seq<usize>) -> int
    decreases s.len(),
{
    if s.len() == 0 {
        0
    } else {
        sum_of(s.drop_last()) + s.last()
    }
}

/// The last `n` elements of `s`.
pub open spec fn last_n(s: Seq<usize>, n: int) -> Seq<usize> {
    s.subrange(s.len() - n, s.len() as int)
}

/// The `n` elements of `s` that come before its last `n`.
pub open spec fn previous_n(s: Seq<usize>, n: int) -> Seq<usize> {
    s.subrange(s.len() - 2 * n, s.len() - n)
}

/// The trend between the two most recent windows of `w` entries: 1 where
/// the newer window's average exceeds the older one's by more than one, -1
/// where it falls short by more than one, 0 otherwise.
pub open spec fn trend(recent_sum: int, previous_sum: int, w: int) -> i32 {
    if recent_sum - previous_sum > w {
        1
    } else if recent_sum - previous_sum < -w {
        -1i32
    } else {
        0
    }
}

/// The history after recording `p`: `p` is appended, and the oldest entry
/// goes when the history would exceed `max_len`.
pub open spec fn recorded(history: Seq<usize>, p: usize, max_len: nat) -> Seq<usize> {
    if history.len() + 1 > max_len {
        history.push(p).drop_first()
    } else {
        history.push(p)
    }
}

/// What the statistics hold: the history, oldest first, its bound and
/// whether the statistics are shown.
pub struct StatisticsView {
    pub history: Seq<usize>,
    pub max_len: nat,
    pub visible: bool,
}

/// A bounded history of population counts.
#[derive(Clone, Debug)]
pub struct PopulationStatistics {
    history: Vec<usize>,
    max_history_length: usize,
    show_statistics: bool,
}

impl View for PopulationStatistics {
    type V = StatisticsView;

    closed spec fn view(&self) -> StatisticsView {
        StatisticsView {
            history: self.history@,
            max_len: self.max_history_length as nat,
            visible: self.show_statistics,
        }
    }
}

proof fn lemma_max_of_step(s: Seq<usize>, i: int)
    requires
        1 <= i < s.len(),
    ensures
        max_of(s.take(i + 1)) == if max_of(s.take(i)) >= s[i] {
            max_of(s.take(i))
        } else {
            s[i] as int
        },
        min_of(s.take(i + 1)) == if min_of(s.take(i)) <= s[i] {
            min_of(s.take(i))
        } else {
            s[i] as int
        },
{
    assert(s.take(i + 1).drop_last() =~= s.take(i));
}

proof fn lemma_sum_step(s: Seq<usize>, i: int)
    requires
        0 <= i < s.len(),
    ensures
        sum_of(s.take(i + 1)) == sum_of(s.take(i)) + s[i],
{
    assert(s.take(i + 1).drop_last() =~= s.take(i));
}

proof fn lemma_sum_bound(s: Seq<usize>)
    ensures
        0 <= sum_of(s) <= s.len() * usize::MAX,
    decreases s.len(),
{
    if s.len() > 0 {
        lemma_sum_bound(s.drop_last());
        assert(sum_of(s) <= s.len() * usize::MAX) by (nonlinear_arith)
            requires
                sum_of(s) == sum_of(s.drop_last()) + s.last(),
                sum_of(s.drop_last()) <= (s.len() - 1) * usize::MAX,
                s.last() <= usize::MAX,
        ;
    }
}

/// The largest and smallest elements of a non-empty slice of a vector.
fn extremes(v: &Vec<usize>, from: usize) -> (r: (usize, usize))
    requires
        from < v@.len(),
    ensures
        r.0 == max_of(v@.subrange(from as int, v@.len() as int)),
        r.1 == min_of(v@.subrange(from as int, v@.len() as int)),
{
    let ghost s = v@.subrange(from as int, v@.len() as int);
    let n = v.len();
    let mut hi = v[from];
    let mut lo = v[from];
    let mut i: usize = from + 1;
    assert(s.take(1) =~= seq![v@[from as int]]);
    while i < n
        invariant
            n == v@.len(),
            s == v@.subrange(from as int, v@.len() as int),
            from < i <= v@.len(),
            hi == max_of(s.take(i - from)),
            lo == min_of(s.take(i - from)),
        decreases n - i,
    {
        proof {
            lemma_max_of_step(s, i - from);
        }
        if v[i] > hi {
            hi = v[i];
        }
        if v[i] < lo {
            lo = v[i];
        }
        i += 1;
    }
    assert(s.take(i - from) =~= s);
    (hi, lo)
}

/// The sum of `v[from..to]`, exactly.
fn sum_range(v: &Vec<usize>, from: usize, to: usize) -> (r: u128)
    requires
        from <= to <= v@.len(),
    ensures
        r == sum_of(v@.subrange(from as int, to as int)),
        r <= (to - from) * usize::MAX,
{
    let ghost s = v@.subrange(from as int, to as int);
    let mut acc: u128 = 0;
    let mut i: usize = from;
    while i < to
        invariant
            s == v@.subrange(from as int, to as int),
            from <= i <= to <= v@.len(),
            acc == sum_of(s.take(i - from)),
        decreases to - i,
    {
        proof {
            lemma_sum_step(s, i - from);
            lemma_sum_bound(s.take(i - from + 1));
            assert((i - from + 1) * usize::MAX < 0x1_0000_0000_0000_0000_0000_0000_0000_0000)
                by (nonlinear_arith)
                requires
                    i - from + 1 <= usize::MAX,
            ;
        }
        acc = acc + v[i] as u128;
        i += 1;
    }
    assert(s.take(i - from) =~= s);
    proof {
        lemma_sum_bound(s);
    }
    acc
}

impl PopulationStatistics {
    /// Empty statistics that keep at most `max_history_length` entries and
    /// are shown.
    pub fn new(max_history_length: usize) -> (r: PopulationStatistics)
        ensures
            r@.history == Seq::<usize>::empty(),
            r@.max_len == max_history_length,
            r@.visible,
    {
        PopulationStatistics { history: Vec::new(), max_history_length, show_statistics: true }
    }

    /// Appends `population`, dropping the oldest entry when the history would
    /// grow past its bound.
    pub fn add_population(&mut self, population: usize)
        ensures
            final(self)@.history == recorded(old(self)@.history, population, old(self)@.max_len),
            final(self)@.max_len == old(self)@.max_len,
            final(self)@.visible == old(self)@.visible,
            old(self)@.history.len() <= old(self)@.max_len ==> final(self)@.history.len()
                <= final(self)@.max_len,
    {
        self.history.push(population);
        if self.history.len() > self.max_history_length {
            self.history.remove(0);
            assert(self.history@ =~= old(self)@.history.push(population).drop_first());
        }
    }

    /// Forgets every entry.
    pub fn clear_history(&mut self)
        ensures
            final(self)@.history == Seq::<usize>::empty(),
            final(self)@.max_len == old(self)@.max_len,
            final(self)@.visible == old(self)@.visible,
    {
        self.history.clear();
    }

    /// The entries, oldest first.
    pub fn get_history(&self) -> (r: &Vec<usize>)
        ensures
            r@ == self@.history,
    {
        &self.history
    }

    pub fn get_history_length(&self) -> (r: usize)
        ensures
            r == self@.history.len(),
    {
        self.history.len()
    }

    /// The bound on the number of entries.
    pub fn max_history_length(&self) -> (r: usize)
        ensures
            r == self@.max_len,
    {
        self.max_history_length
    }

    /// The newest entry, if any.
    pub fn get_current_population(&self) -> (r: Option<usize>)
        ensures
            r == if self@.history.len() == 0 {
                None
            } else {
                Some(self@.history.last())
            },
    {
        if self.history.len() == 0 {
            None
        } else {
            Some(self.history[self.history.len() - 1])
        }
    }

    /// The largest entry, if any.
    pub fn get_max_population(&self) -> (r: Option<usize>)
        ensures
            r == if self@.history.len() == 0 {
                None
            } else {
                Some(max_of(self@.history) as usize)
            },
    {
        if self.history.len() == 0 {
            None
        } else {
            let (hi, _) = extremes(&self.history, 0);
            assert(self@.history.subrange(0, self@.history.len() as int) =~= self@.history);
            Some(hi)
        }
    }

    /// The smallest entry, if any.
    pub fn get_min_population(&self) -> (r: Option<usize>)
        ensures
            r == if self@.history.len() == 0 {
                None
            } else {
                Some(min_of(self@.history) as usize)
            },
    {
        if self.history.len() == 0 {
            None
        } else {
            let (_, lo) = extremes(&self.history, 0);
            assert(self@.history.subrange(0, self@.history.len() as int) =~= self@.history);
            Some(lo)
        }
    }

    pub fn has_data(&self) -> (r: bool)
        ensures
            r == (self@.history.len() > 0),
    {
        self.history.len() > 0
    }

    pub fn is_statistics_visible(&self) -> (r: bool)
        ensures
            r == self@.visible,
    {
        self.show_statistics
    }

    pub fn set_statistics_visible(&mut self, visible: bool)
        ensures
            final(self)@.visible == visible,
            final(self)@.history == old(self)@.history,
            final(self)@.max_len == old(self)@.max_len,
    {
        self.show_statistics = visible;
    }

    /// Compares the averages of the last `window_size` entries and of the
    /// `window_size` before them; `None` while fewer than twice
    /// `window_size` entries are recorded.
    pub fn get_population_trend(&self, window_size: usize) -> (r: Option<i32>)
        ensures
            r == if self@.history.len() < 2 * window_size {
                None
            } else {
                Some(
                    trend(
                        sum_of(last_n(self@.history, window_size as int)),
                        sum_of(previous_n(self@.history, window_size as int)),
                        window_size as int,
                    ),
                )
            },
    {
        let len = self.history.len();
        if window_size > len / 2 {
            return None;
        }
        let recent = sum_range(&self.history, len - window_size, len);
        let previous = sum_range(&self.history, len - 2 * window_size, len - window_size);
        proof {
            assert(window_size * usize::MAX < 0x1_0000_0000_0000_0000_0000_0000_0000_0000)
                by (nonlinear_arith)
                requires
                    window_size <= usize::MAX,
            ;
        }
        let w = window_size as u128;
        if recent > previous + w {
            Some(1)
        } else if previous > recent + w {
            Some(-1)
        } else {
            Some(0)
        }
    }

    /// Whether the last `window_size` entries lie within `threshold` of each
    /// other; false while fewer than `window_size` entries are recorded.
    pub fn is_stable(&self, window_size: usize, threshold: usize) -> (r: bool)
        ensures
            r == if self@.history.len() < window_size {
                false
            } else if window_size == 0 {
                true
            } else {
                max_of(last_n(self@.history, window_size as int)) - min_of(
                    last_n(self@.history, window_size as int),
                ) <= threshold
            },
    {
        let len = self.history.len();
        if len < window_size {
            return false;
        }
        if window_size == 0 {
            return true;
        }
        let (hi, lo) = extremes(&self.history, len - window_size);
        proof {
            lemma_max_at_least_min(last_n(self@.history, window_size as int));
        }
        hi - lo <= threshold
    }
}

proof fn lemma_max_at_least_min(s: Seq<usize>)
    requires
        s.len() > 0,
    ensures
        min_of(s) <= max_of(s),
    decreases s.len(),
{
    if s.len() > 1 {
        lemma_max_at_least_min(s.drop_last());
    }
}

impl Default for PopulationStatistics {
    /// Statistics that keep the last 200 entries.
    fn default() -> (r: PopulationStatistics)
        ensures
            r@.history == Seq::<usize>::empty(),
            r@.max_len == 200,
            r@.visible,
    {
        PopulationStatistics::new(200)
    }
}

} // verus!
