//! Changes to cell formatting, and a run-length encoded store of them.

use vstd::prelude::*;

verus! {

/// Horizontal alignment of a cell's content.
#[derive(Clone, Copy, Debug, PartialEq, Eq, Structural)]
pub enum CellAlign {
    Center,
    Left,
    Right,
}

/// How a number is displayed.
#[derive(Clone, Copy, Debug, PartialEq, Eq, Structural)]
pub enum NumericFormatKind {
    Number,
    Currency,
    Percentage,
    Exponential,
}

/// How a date, a time or both are displayed.
#[derive(Clone, Copy, Debug, PartialEq, Eq, Structural)]
pub enum DateTimeFormat {
    /// Year, month and day: `%Y-%m-%d`.
    Date,
    /// Hour, minute and second: `%H:%M:%S`.
    Time,
    /// A date followed by a time: `%Y-%m-%d %H:%M:%S`.
    DateTime,
}

/// A change to the formatting of a cell. For each property, `None` leaves it
/// as it is, `Some(None)` clears it and `Some(Some(v))` sets it to `v`.
#[derive(Clone, Copy, Debug, PartialEq, Eq, Structural)]
pub struct FormatUpdate {
    pub align: Option<Option<CellAlign>>,
    pub bold: Option<Option<bool>>,
    pub italic: Option<Option<bool>>,
    pub numeric_format: Option<Option<NumericFormatKind>>,
    pub numeric_decimals: Option<Option<i16>>,
    pub numeric_commas: Option<Option<bool>>,
    pub date_time: Option<Option<DateTimeFormat>>,
}

impl FormatUpdate {
    /// The update that changes nothing.
    pub open spec fn spec_default() -> FormatUpdate {
        FormatUpdate {
            align: None,
            bold: None,
            italic: None,
            numeric_format: None,
            numeric_decimals: None,
            numeric_commas: None,
            date_time: None,
        }
    }

    /// Whether this update changes nothing.
    pub fn is_default(&self) -> (b: bool)
        ensures
            b == (*self == FormatUpdate::spec_default()),
    {
        self.align.is_none() && self.bold.is_none() && self.italic.is_none()
            && self.numeric_format.is_none() && self.numeric_decimals.is_none()
            && self.numeric_commas.is_none() && self.date_time.is_none()
    }

    /// The update that sets the display of dates and times to `format` and
    /// changes nothing else.
    pub fn with_date_time(format: DateTimeFormat) -> (u: FormatUpdate)
        ensures
            u == (FormatUpdate { date_time: Some(Some(format)), ..FormatUpdate::spec_default() }),
    {
        FormatUpdate {
            align: None,
            bold: None,
            italic: None,
            numeric_format: None,
            numeric_decimals: None,
            numeric_commas: None,
            date_time: Some(Some(format)),
        }
    }
}

impl Default for FormatUpdate {
    fn default() -> (u: FormatUpdate)
        ensures
            u == FormatUpdate::spec_default(),
    {
        FormatUpdate {
            align: None,
            bold: None,
            italic: None,
            numeric_format: None,
            numeric_decimals: None,
            numeric_commas: None,
            date_time: None,
        }
    }
}

/// The sequence that the runs `runs` stand for: each value as often as its
/// run is long, in order.
pub open spec fn expand(runs: Seq<(FormatUpdate, usize)>) -> Seq<FormatUpdate>
    decreases runs.len(),
{
    if runs.len() == 0 {
        Seq::empty()
    } else {
        expand(runs.drop_last()) + Seq::new(runs.last().1 as nat, |i: int| runs.last().0)
    }
}

/// Sum of the lengths of `runs`.
pub open spec fn total_len(runs: Seq<(FormatUpdate, usize)>) -> nat
    decreases runs.len(),
{
    if runs.len() == 0 {
        0
    } else {
        total_len(runs.drop_last()) + runs.last().1 as nat
    }
}

/// The runs after `value` is appended `count` times to the sequence that
/// `runs` stand for: the last run grows where it holds `value`, else a new
/// run follows.
pub open spec fn runs_with(runs: Seq<(FormatUpdate, usize)>, value: FormatUpdate, count: int) -> Seq<
    (FormatUpdate, usize),
> {
    if count <= 0 {
        runs
    } else if runs.len() > 0 && runs.last().0 == value {
        runs.update(runs.len() - 1, (value, (runs.last().1 + count) as usize))
    } else {
        runs.push((value, count as usize))
    }
}

/// The runs after `value` is appended `times` times, one at a time.
pub open spec fn runs_after_pushes(
    runs: Seq<(FormatUpdate, usize)>,
    value: FormatUpdate,
    times: nat,
) -> Seq<(FormatUpdate, usize)>
    decreases times,
{
    if times == 0 {
        runs
    } else {
        runs_with(runs_after_pushes(runs, value, (times - 1) as nat), value, 1)
    }
}

/// A sequence of format updates, stored as runs of equal values.
#[derive(Clone, Debug, PartialEq, Eq)]
pub struct RunLengthEncoding {
    pub runs: Vec<(FormatUpdate, usize)>,
}

impl View for RunLengthEncoding {
    type V = Seq<FormatUpdate>;

    open spec fn view(&self) -> Seq<FormatUpdate> {
        expand(self.runs@)
    }
}

/// Pushing one value `times` times onto an empty store leaves one run that
/// long, not as many runs.
pub proof fn lemma_repeated_push_is_one_run(value: FormatUpdate, times: nat)
    requires
        1 <= times <= usize::MAX,
    ensures
        runs_after_pushes(Seq::empty(), value, times) == seq![(value, times as usize)],
    decreases times,
{
    if times == 1 {
        assert(runs_after_pushes(Seq::empty(), value, 0) == Seq::<(FormatUpdate, usize)>::empty());
        assert(runs_after_pushes(Seq::empty(), value, 1) =~= seq![(value, 1usize)]);
    } else {
        lemma_repeated_push_is_one_run(value, (times - 1) as nat);
        assert(runs_after_pushes(Seq::empty(), value, times) =~= seq![(value, times as usize)]);
    }
}

/// Pushing one value any number of times onto any store adds at most one
/// run, and adds none where the last run already holds that value.
pub proof fn lemma_repeated_push_adds_one_run(
    runs: Seq<(FormatUpdate, usize)>,
    value: FormatUpdate,
    times: nat,
)
    ensures
        runs_after_pushes(runs, value, times).len() <= runs.len() + 1,
        runs.len() > 0 && runs.last().0 == value ==> runs_after_pushes(runs, value, times).len()
            == runs.len(),
        times > 0 ==> runs_after_pushes(runs, value, times).len() > 0 && runs_after_pushes(
            runs,
            value,
            times,
        ).last().0 == value,
    decreases times,
{
    if times > 0 {
        lemma_repeated_push_adds_one_run(runs, value, (times - 1) as nat);
    }
}

impl RunLengthEncoding {
    /// Every run holds at least one value, and the whole sequence is no
    /// longer than `usize` can count.
    pub open spec fn wf(&self) -> bool {
        &&& forall|i: int| 0 <= i < self.runs@.len() ==> (#[trigger] self.runs@[i]).1 >= 1
        &&& total_len(self.runs@) <= usize::MAX
    }

    /// The empty sequence.
    pub fn new() -> (r: RunLengthEncoding)
        ensures
            r.wf(),
            r.runs@.len() == 0,
            r@ == Seq::<FormatUpdate>::empty(),
    {
        RunLengthEncoding { runs: Vec::new() }
    }

    /// Appends `value` once.
    pub fn push(&mut self, value: FormatUpdate)
        requires
            old(self).wf(),
            old(self)@.len() < usize::MAX,
        ensures
            final(self).wf(),
            final(self)@ == old(self)@.push(value),
            final(self).runs@ == runs_with(old(self).runs@, value, 1),
    {
        self.push_n(value, 1);
        assert(Seq::new(1, |i: int| value) =~= seq![value]);
        assert(old(self)@ + seq![value] =~= old(self)@.push(value));
    }

    /// Appends `value` `count` times.
    pub fn push_n(&mut self, value: FormatUpdate, count: usize)
        requires
            old(self).wf(),
            old(self)@.len() + count <= usize::MAX,
        ensures
            final(self).wf(),
            final(self)@ == old(self)@ + Seq::new(count as nat, |i: int| value),
            final(self).runs@ == runs_with(old(self).runs@, value, count as int),
    {
        proof {
            lemma_expand_len(self.runs@);
        }
        if count == 0 {
            assert(old(self)@ + Seq::new(0, |i: int| value) =~= old(self)@);
            return ;
        }
        let n: usize = self.runs.len();
        if n > 0 && self.runs[n - 1].0 == value {
            let longer: usize = self.runs[n - 1].1 + count;
            let ghost head = self.runs@.drop_last();
            let ghost last = self.runs@.last();
            self.runs.set(n - 1, (value, longer));
            proof {
                assert(self.runs@ =~= head.push((value, longer)));
                assert(old(self).runs@ =~= head.push(last));
                lemma_expand_push(head, (value, longer));
                lemma_expand_push(head, last);
                assert(Seq::new(longer as nat, |i: int| value) =~= Seq::new(
                    last.1 as nat,
                    |i: int| last.0,
                ) + Seq::new(count as nat, |i: int| value));
                assert(self@ =~= old(self)@ + Seq::new(count as nat, |i: int| value));
                lemma_expand_len(self.runs@);
            }
        } else {
            self.runs.push((value, count));
            proof {
                lemma_expand_push(old(self).runs@, (value, count));
                lemma_expand_len(self.runs@);
            }
        }
    }

    /// Number of values in the sequence.
    pub fn size(&self) -> (n: usize)
        requires
            self.wf(),
        ensures
            n == self@.len(),
    {
        let mut n: usize = 0;
        let mut i: usize = 0;
        proof {
            lemma_expand_len(self.runs@);
        }
        while i < self.runs.len()
            invariant
                i <= self.runs@.len(),
                n == total_len(self.runs@.subrange(0, i as int)),
                total_len(self.runs@) <= usize::MAX,
            decreases self.runs@.len() - i,
        {
            proof {
                assert(self.runs@.subrange(0, i + 1).drop_last() =~= self.runs@.subrange(
                    0,
                    i as int,
                ));
                lemma_total_len_prefix(self.runs@, i + 1);
            }
            n = n + self.runs[i].1;
            i = i + 1;
        }
        assert(self.runs@.subrange(0, i as int) =~= self.runs@);
        n
    }

    /// Whether the sequence holds no value.
    pub fn is_empty(&self) -> (b: bool)
        requires
            self.wf(),
        ensures
            b == (self@.len() == 0),
    {
        proof {
            lemma_expand_len(self.runs@);
            if self.runs@.len() > 0 {
                assert(self.runs@.last().1 >= 1);
            }
        }
        self.runs.len() == 0
    }

    /// The value at position `index` of the sequence.
    pub fn get_at(&self, index: usize) -> (r: Option<&FormatUpdate>)
        requires
            self.wf(),
        ensures
            match r {
                Some(v) => index < self@.len() && *v == self@[index as int],
                None => index >= self@.len(),
            },
    {
        let mut start: usize = 0;
        let mut i: usize = 0;
        proof {
            lemma_expand_len(self.runs@);
        }
        while i < self.runs.len()
            invariant
                i <= self.runs@.len(),
                start == total_len(self.runs@.subrange(0, i as int)),
                start <= index,
                total_len(self.runs@) <= usize::MAX,
            decreases self.runs@.len() - i,
        {
            proof {
                assert(self.runs@.subrange(0, i + 1).drop_last() =~= self.runs@.subrange(
                    0,
                    i as int,
                ));
                lemma_total_len_prefix(self.runs@, i + 1);
            }
            let len: usize = self.runs[i].1;
            if index - start < len {
                proof {
                    lemma_expand_index(self.runs@, i as int, index - start);
                }
                return Some(&self.runs[i].0);
            }
            start = start + len;
            i = i + 1;
        }
        assert(self.runs@.subrange(0, i as int) =~= self.runs@);
        None
    }
}

/// Run-length encoded changes to apply to formatting.
#[derive(Clone, Debug, PartialEq, Eq)]
pub struct Formats {
    pub formats: RunLengthEncoding,
}

impl View for Formats {
    type V = Seq<FormatUpdate>;

    open spec fn view(&self) -> Seq<FormatUpdate> {
        self.formats@
    }
}

impl Formats {
    /// The runs are well formed.
    pub open spec fn wf(&self) -> bool {
        self.formats.wf()
    }

    /// The runs of the store.
    pub open spec fn runs(&self) -> Seq<(FormatUpdate, usize)> {
        self.formats.runs@
    }

    /// The empty store.
    pub fn new() -> (r: Formats)
        ensures
            r.wf(),
            r.runs().len() == 0,
            r@ == Seq::<FormatUpdate>::empty(),
    {
        Formats { formats: RunLengthEncoding::new() }
    }

    /// The store that holds `update` `count` times.
    pub fn repeat(update: FormatUpdate, count: usize) -> (r: Formats)
        ensures
            r.wf(),
            r@ == Seq::new(count as nat, |i: int| update),
            count > 0 ==> r.runs() == seq![(update, count)],
            count == 0 ==> r.runs().len() == 0,
    {
        let mut formats = Formats::new();
        formats.push_n(update, count);
        assert(formats@ =~= Seq::new(count as nat, |i: int| update));
        assert(count > 0 ==> formats.runs() =~= seq![(update, count)]);
        formats
    }

    /// Appends `update` once.
    pub fn push(&mut self, update: FormatUpdate)
        requires
            old(self).wf(),
            old(self)@.len() < usize::MAX,
        ensures
            final(self).wf(),
            final(self)@ == old(self)@.push(update),
            final(self).runs() == runs_with(old(self).runs(), update, 1),
    {
        self.formats.push(update);
    }

    /// Appends `update` `count` times.
    pub fn push_n(&mut self, update: FormatUpdate, count: usize)
        requires
            old(self).wf(),
            old(self)@.len() + count <= usize::MAX,
        ensures
            final(self).wf(),
            final(self)@ == old(self)@ + Seq::new(count as nat, |i: int| update),
            final(self).runs() == runs_with(old(self).runs(), update, count as int),
    {
        self.formats.push_n(update, count);
    }

    /// Number of updates in the store.
    pub fn size(&self) -> (n: usize)
        requires
            self.wf(),
        ensures
            n == self@.len(),
    {
        self.formats.size()
    }

    /// Whether the store holds no update.
    pub fn is_empty(&self) -> (b: bool)
        requires
            self.wf(),
        ensures
            b == (self@.len() == 0),
    {
        self.formats.is_empty()
    }

    /// The update at position `index`.
    pub fn get_at(&self, index: usize) -> (r: Option<&FormatUpdate>)
        requires
            self.wf(),
        ensures
            match r {
                Some(v) => index < self@.len() && *v == self@[index as int],
                None => index >= self@.len(),
            },
    {
        self.formats.get_at(index)
    }
}

impl Default for Formats {
    fn default() -> (r: Formats)
        ensures
            r.wf(),
            r.runs().len() == 0,
            r@ == Seq::<FormatUpdate>::empty(),
    {
        Formats::new()
    }
}

/// `expand` of runs with one more run at the end.
pub proof fn lemma_expand_push(runs: Seq<(FormatUpdate, usize)>, run: (FormatUpdate, usize))
    ensures
        expand(runs.push(run)) == expand(runs) + Seq::new(run.1 as nat, |i: int| run.0),
{
    assert(runs.push(run).drop_last() =~= runs);
}

/// The sequence that runs stand for is as long as the runs are together.
pub proof fn lemma_expand_len(runs: Seq<(FormatUpdate, usize)>)
    ensures
        expand(runs).len() == total_len(runs),
    decreases runs.len(),
{
    if runs.len() > 0 {
        lemma_expand_len(runs.drop_last());
    }
}

/// The runs before position `n` are together no longer than all of them.
pub proof fn lemma_total_len_prefix(runs: Seq<(FormatUpdate, usize)>, n: int)
    requires
        0 <= n <= runs.len(),
    ensures
        total_len(runs.subrange(0, n)) <= total_len(runs),
    decreases runs.len() - n,
{
    if n < runs.len() {
        lemma_total_len_prefix(runs, n + 1);
        assert(runs.subrange(0, n + 1).drop_last() =~= runs.subrange(0, n));
    } else {
        assert(runs.subrange(0, n) =~= runs);
    }
}

/// Position `k` of run `i` holds that run's value, and stands in the whole
/// sequence behind all earlier runs.
pub proof fn lemma_expand_index(runs: Seq<(FormatUpdate, usize)>, i: int, k: int)
    requires
        0 <= i < runs.len(),
        0 <= k < runs[i].1,
    ensures
        total_len(runs.subrange(0, i)) + k < expand(runs).len(),
        expand(runs)[total_len(runs.subrange(0, i)) + k] == runs[i].0,
    decreases runs.len(),
{
    lemma_expand_len(runs);
    lemma_expand_len(runs.drop_last());
    if i == runs.len() - 1 {
        assert(runs.subrange(0, i) =~= runs.drop_last());
    } else {
        lemma_expand_index(runs.drop_last(), i, k);
        assert(runs.drop_last().subrange(0, i) =~= runs.subrange(0, i));
    }
}

} // verus!
