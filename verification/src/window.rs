//! Sliding windows over a sequence of samples.
//!
//! A window of width `w` over `n` samples starts at index 0 and moves one
//! sample at a time. Each move drops the oldest index and takes in the next
//! one, so a running total over the window is kept up to date with two
//! updates per move, whatever the width.

use vstd::prelude::*;

verus! {

/// Number of full windows of width `width` that fit in `len` samples.
pub open spec fn window_count_spec(len: int, width: int) -> int {
    if 1 <= width <= len {
        len - width + 1
    } else {
        0
    }
}

/// Counts the windows of width `width` over `len` samples; a width of zero, or
/// one wider than the data, gives no window.
pub fn window_count(len: usize, width: usize) -> (count: usize)
    ensures
        count == window_count_spec(len as int, width as int),
{
    if width == 0 || width > len {
        0
    } else {
        len - width + 1
    }
}

/// The length two series share when they are read side by side: the longer one
/// is cut to the shorter.
pub fn shared_len(left: usize, right: usize) -> (len: usize)
    ensures
        len <= left,
        len <= right,
        len == left || len == right,
{
    if left <= right {
        left
    } else {
        right
    }
}

/// One move of a window: the index that left it and the index that entered.
#[derive(Debug, Clone, Copy, PartialEq, Eq, Structural)]
pub struct Step {
    pub leaving: usize,
    pub entering: usize,
}

/// A window of fixed width at some position over a series.
#[derive(Debug, Clone, Copy)]
pub struct Window {
    start: usize,
    width: usize,
    len: usize,
}

impl Window {
    #[verifier::type_invariant]
    spec fn well_formed(&self) -> bool {
        1 <= self.width && self.start + self.width <= self.len
    }

    /// Index of the first sample inside the window.
    pub closed spec fn lo(&self) -> int {
        self.start as int
    }

    /// Index just past the last sample inside the window.
    pub closed spec fn hi(&self) -> int {
        self.start + self.width
    }

    /// Length of the series the window moves over.
    pub closed spec fn series_len(&self) -> int {
        self.len as int
    }

    /// The indices of the samples inside the window.
    pub open spec fn indices(&self) -> Set<int> {
        Set::new(|i: int| self.lo() <= i < self.hi())
    }

    /// The first window of width `width` over `len` samples, if there is one.
    pub fn first(len: usize, width: usize) -> (out: Option<Window>)
        ensures
            out.is_some() <==> 1 <= width <= len,
            out.is_some() ==> {
                let w = out.unwrap();
                &&& w.lo() == 0
                &&& w.hi() == width
                &&& w.series_len() == len
            },
    {
        if width == 0 || width > len {
            None
        } else {
            Some(Window { start: 0, width, len })
        }
    }

    /// Index of the first sample inside the window. It is also the number of
    /// moves made so far.
    pub fn start(&self) -> (i: usize)
        ensures
            i == self.lo(),
            i < self.hi(),
    {
        proof {
            use_type_invariant(self);
        }
        self.start
    }

    /// Index just past the last sample inside the window.
    pub fn end(&self) -> (i: usize)
        ensures
            i == self.hi(),
            self.lo() < i <= self.series_len(),
    {
        proof {
            use_type_invariant(self);
        }
        self.start + self.width
    }

    /// Number of samples inside the window.
    pub fn width(&self) -> (w: usize)
        ensures
            w == self.hi() - self.lo(),
            w >= 1,
    {
        proof {
            use_type_invariant(self);
        }
        self.width
    }

    /// Moves the window one sample to the right and reports which index left
    /// and which entered. At the end of the series the window stays where it
    /// is and nothing is reported.
    pub fn slide(&mut self) -> (step: Option<Step>)
        ensures
            final(self).series_len() == old(self).series_len(),
            old(self).hi() < old(self).series_len() ==> {
                &&& step == Some(Step { leaving: old(self).lo() as usize, entering: old(self).hi() as usize })
                &&& final(self).lo() == old(self).lo() + 1
                &&& final(self).hi() == old(self).hi() + 1
                &&& final(self).indices() == old(self).indices().remove(old(self).lo()).insert(
                    old(self).hi(),
                )
            },
            old(self).hi() >= old(self).series_len() ==> {
                &&& step.is_none()
                &&& final(self).lo() == old(self).lo()
                &&& final(self).hi() == old(self).hi()
            },
    {
        proof {
            use_type_invariant(&*self);
        }
        let end = self.start + self.width;
        if end < self.len {
            let leaving = self.start;
            self.start = self.start + 1;
            Some(Step { leaving, entering: end })
        } else {
            None
        }
    }
}

/// The sum of the terms at the indices from `lo` up to, not including, `hi`.
pub open spec fn sum_over(terms: Seq<int>, lo: int, hi: int) -> int
    decreases hi - lo,
{
    if lo >= hi {
        0
    } else {
        sum_over(terms, lo, hi - 1) + terms[hi - 1]
    }
}

proof fn lemma_sum_without_first(terms: Seq<int>, lo: int, hi: int)
    requires
        lo < hi,
    ensures
        sum_over(terms, lo, hi) == terms[lo] + sum_over(terms, lo + 1, hi),
    decreases hi - lo,
{
    if lo + 1 < hi {
        lemma_sum_without_first(terms, lo, hi - 1);
    } else {
        assert(sum_over(terms, lo, lo) == 0);
        assert(sum_over(terms, lo + 1, hi) == 0);
    }
}

/// A running total follows the window. Where the arithmetic is exact, the
/// total over the window after a move is the total before the move, plus the
/// term that entered, minus the term that left: two updates per move keep the
/// total of any width right.
pub proof fn lemma_slide_keeps_sum_over(terms: Seq<int>, before: Window, after: Window)
    requires
        0 <= before.lo() < before.hi() < terms.len(),
        after.lo() == before.lo() + 1,
        after.hi() == before.hi() + 1,
    ensures
        sum_over(terms, after.lo(), after.hi()) == sum_over(terms, before.lo(), before.hi()) + terms[before.hi()]
            - terms[before.lo()],
{
    lemma_sum_without_first(terms, before.lo(), before.hi());
}

} // verus!
