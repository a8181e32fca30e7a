//! Bounded per-frame history: the newest values, oldest first.

use vstd::prelude::*;

verus! {

/// Frames kept for the history plots.
pub const HISTORY: usize = 240;

/// What one call of [`push`] makes of a history.
pub open spec fn pushed<T>(history: Seq<T>, value: T) -> Seq<T> {
    if history.len() == HISTORY {
        history.drop_first().push(value)
    } else {
        history.push(value)
    }
}

/// The history that a run of pushes builds from an empty one.
pub open spec fn history_of<T>(values: Seq<T>) -> Seq<T>
    decreases values.len(),
{
    if values.len() == 0 {
        Seq::empty()
    } else {
        pushed(history_of(values.drop_last()), values.last())
    }
}

/// The newest `HISTORY` values of `values` (all of them when there are fewer), oldest first.
pub open spec fn latest<T>(values: Seq<T>) -> Seq<T> {
    if values.len() <= HISTORY {
        values
    } else {
        values.subrange(values.len() - HISTORY, values.len() as int)
    }
}

/// Appends `value`; a full history first drops its oldest entry.
pub fn push<T>(history: &mut Vec<T>, value: T)
    ensures
        final(history)@ == pushed(old(history)@, value),
{
    if history.len() == HISTORY {
        history.remove(0);
    }
    history.push(value);
}

/// A history that is not over the limit stays within it after a push.
pub proof fn lemma_push_stays_bounded<T>(history: Seq<T>, value: T)
    requires
        history.len() <= HISTORY,
    ensures
        pushed(history, value).len() <= HISTORY,
        pushed(history, value).last() == value,
{
}

/// Pushing every value of `values` into an empty history leaves exactly the newest
/// `HISTORY` of them, oldest first.
pub proof fn lemma_history_keeps_latest<T>(values: Seq<T>)
    ensures
        history_of(values) == latest(values),
    decreases values.len(),
{
    if values.len() > 0 {
        let prefix = values.drop_last();
        lemma_history_keeps_latest(prefix);
        if prefix.len() < HISTORY {
            assert(prefix.push(values.last()) =~= values);
        } else {
            let old = latest(prefix);
            assert(old.len() == HISTORY);
            assert(old.drop_first().push(values.last()) =~= latest(values));
        }
    }
}

/// Two per-frame histories kept side by side: entry `i` of each belongs to the
/// same frame.
pub struct PairedHistory<A, B> {
    first: Vec<A>,
    second: Vec<B>,
}

impl<A, B> PairedHistory<A, B> {
    #[verifier::type_invariant]
    closed spec fn aligned(self) -> bool {
        &&& self.first.len() == self.second.len()
        &&& self.first.len() <= HISTORY
    }

    /// The first history, oldest first.
    pub closed spec fn first_view(&self) -> Seq<A> {
        self.first@
    }

    /// The second history, oldest first.
    pub closed spec fn second_view(&self) -> Seq<B> {
        self.second@
    }

    /// Two empty histories.
    pub fn new() -> (h: Self)
        ensures
            h.first_view() == Seq::<A>::empty(),
            h.second_view() == Seq::<B>::empty(),
    {
        PairedHistory { first: Vec::new(), second: Vec::new() }
    }

    /// Records one frame: `a` joins the first history and `b` the second, each
    /// dropping its oldest entry when full.
    pub fn record(&mut self, a: A, b: B)
        ensures
            final(self).first_view() == pushed(old(self).first_view(), a),
            final(self).second_view() == pushed(old(self).second_view(), b),
            final(self).first_view().len() == final(self).second_view().len(),
            final(self).first_view().len() <= HISTORY,
    {
        proof {
            use_type_invariant(&*self);
        }
        let mut taken = PairedHistory { first: Vec::new(), second: Vec::new() };
        std::mem::swap(&mut taken, self);
        let PairedHistory { mut first, mut second } = taken;
        push(&mut first, a);
        push(&mut second, b);
        *self = PairedHistory { first, second };
    }

    /// The first history, oldest first.
    pub fn first(&self) -> (v: &Vec<A>)
        ensures
            v@ == self.first_view(),
            v@.len() == self.second_view().len(),
    {
        proof {
            use_type_invariant(self);
        }
        &self.first
    }

    /// The second history, oldest first.
    pub fn second(&self) -> (v: &Vec<B>)
        ensures
            v@ == self.second_view(),
            v@.len() == self.first_view().len(),
    {
        proof {
            use_type_invariant(self);
        }
        &self.second
    }
}

/// Recording frame after frame into two empty histories keeps, in each, the
/// newest `HISTORY` entries, and entry `i` of one belongs with entry `i` of the
/// other.
pub proof fn lemma_paired_histories_stay_aligned<A, B>(firsts: Seq<A>, seconds: Seq<B>)
    requires
        firsts.len() == seconds.len(),
    ensures
        history_of(firsts) == latest(firsts),
        history_of(seconds) == latest(seconds),
        history_of(firsts).len() == history_of(seconds).len(),
{
    lemma_history_keeps_latest(firsts);
    lemma_history_keeps_latest(seconds);
}

} // verus!
