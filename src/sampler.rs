use vstd::prelude::*;

verus! {

/// The ways a sampling or scoring request can be refused.
#[derive(Debug, Clone, Copy, PartialEq, Eq, Structural)]
pub enum StatsError {
    /// The distribution has a standard deviation that is not positive, or a
    /// lower bound above its upper bound.
    InvalidParameter,
    /// The sample is too short for its variance to be defined.
    InsufficientData,
}

/// The fewest points a normality score is computed on.
pub const MIN_SCORE_LEN: usize = 2;

/// Refuses a sample of `n` points that is too short to be scored.
pub fn check_score_len(n: usize) -> (r: Result<(), StatsError>)
    ensures
        r == (if n < MIN_SCORE_LEN {
            Err::<(), StatsError>(StatsError::InsufficientData)
        } else {
            Ok(())
        }),
{
    if n < MIN_SCORE_LEN {
        Err(StatsError::InsufficientData)
    } else {
        Ok(())
    }
}

/// The decisions of a rejection sampler: it keeps each offered draw that lies
/// within the bounds, drops the others, and is complete once it holds the
/// number of draws it was made for.
pub struct BoundedCollector<T> {
    target: usize,
    items: Vec<T>,
}

impl<T> View for BoundedCollector<T> {
    type V = Seq<T>;

    /// The draws kept so far, in the order they were offered.
    closed spec fn view(&self) -> Seq<T> {
        self.items@
    }
}

impl<T> BoundedCollector<T> {
    /// The number of draws the collector is made to keep.
    pub closed spec fn goal(&self) -> nat {
        self.target as nat
    }

    /// It never holds more draws than it was made for.
    pub closed spec fn wf(&self) -> bool {
        self.items@.len() <= self.target
    }

    /// A collector for `length` draws, holding none yet.
    pub fn new(length: usize) -> (r: Self)
        ensures
            r.wf(),
            r@ == Seq::<T>::empty(),
            r.goal() == length,
    {
        BoundedCollector { target: length, items: Vec::with_capacity(length) }
    }

    /// Whether it holds all the draws it was made for.
    pub fn is_complete(&self) -> (r: bool)
        requires
            self.wf(),
        ensures
            r == (self@.len() == self.goal()),
    {
        self.items.len() == self.target
    }

    /// How many more draws it has to keep.
    pub fn remaining(&self) -> (r: usize)
        requires
            self.wf(),
        ensures
            r == self.goal() - self@.len(),
    {
        self.target - self.items.len()
    }

    /// Offers one draw, with whether it lies within the bounds: a draw within
    /// them is kept, any other is dropped. Returns whether the collector is
    /// then complete.
    pub fn offer(&mut self, x: T, in_range: bool) -> (complete: bool)
        requires
            old(self).wf(),
            old(self)@.len() < old(self).goal(),
        ensures
            final(self).wf(),
            final(self).goal() == old(self).goal(),
            final(self)@ == (if in_range {
                old(self)@.push(x)
            } else {
                old(self)@
            }),
            complete == (final(self)@.len() == final(self).goal()),
    {
        if in_range {
            self.items.push(x);
        }
        self.items.len() == self.target
    }

    /// The kept draws, once it is complete.
    pub fn into_items(self) -> (r: Vec<T>)
        requires
            self.wf(),
            self@.len() == self.goal(),
        ensures
            r@ == self@,
            r@.len() == self.goal(),
    {
        self.items
    }
}

} // verus!
