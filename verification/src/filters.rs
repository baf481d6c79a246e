//! The state of the low-pass action filter: the previous output and the
//! latest pushed action. Each output blends the previous output with the
//! latest action element by element; the blend itself is the caller's.
use vstd::prelude::*;

verus! {

/// `last` resized to `n` entries: cut, or padded with `zero`.
pub open spec fn resized<T>(last: Seq<T>, n: nat, zero: T) -> Seq<T> {
    if last.len() >= n {
        last.take(n as int)
    } else {
        last + Seq::new((n - last.len()) as nat, |i: int| zero)
    }
}

/// The state of the filter, as the contracts see it.
pub struct SmootherState<T> {
    pub last_action: Seq<T>,
    pub current_action: Seq<T>,
}

/// The previous output and the latest action of a low-pass filter.
#[derive(Debug, Clone)]
pub struct ActionSmoother<T> {
    last_action: Vec<T>,
    current_action: Vec<T>,
}

impl<T> View for ActionSmoother<T> {
    type V = SmootherState<T>;

    closed spec fn view(&self) -> SmootherState<T> {
        SmootherState { last_action: self.last_action@, current_action: self.current_action@ }
    }
}

/// Copies a slice into a vector.
fn slice_values<T: Copy>(values: &[T]) -> (copy: Vec<T>)
    ensures
        copy@ == values@,
{
    let mut copy: Vec<T> = Vec::new();
    for i in 0..values.len()
        invariant
            copy.len() == i,
            i <= values@.len(),
            forall|j: int| 0 <= j < i ==> copy@[j] == values@[j],
    {
        copy.push(values[i]);
    }
    assert(copy@ =~= values@);
    copy
}

impl<T: Copy> ActionSmoother<T> {
    /// A filter that has seen no action.
    pub fn new() -> (s: Self)
        ensures
            s@.last_action == Seq::<T>::empty(),
            s@.current_action == Seq::<T>::empty(),
    {
        ActionSmoother { last_action: Vec::new(), current_action: Vec::new() }
    }

    /// Records a new action; while there is no previous output yet, it also
    /// becomes the previous output.
    pub fn push(&mut self, action: &[T])
        ensures
            final(self)@.current_action == action@,
            final(self)@.last_action == if old(self)@.last_action.len() == 0 {
                action@
            } else {
                old(self)@.last_action
            },
    {
        if self.last_action.len() == 0 {
            self.last_action = slice_values(action);
        }
        self.current_action = slice_values(action);
    }

    /// The next output. With no action pushed it is the previous output.
    /// Otherwise the previous output is resized to the action's length
    /// (cut, or padded with `zero`) and entry `i` of the output is
    /// `blend(previous[i], action[i])`; the output becomes the previous
    /// output.
    pub fn filtered<F: Fn(T, T) -> T>(&mut self, zero: T, blend: F) -> (out: Vec<T>)
        requires
            forall|a: T, b: T| call_requires(blend, (a, b)),
        ensures
            old(self)@.current_action.len() == 0 ==> out@ == old(self)@.last_action && final(self)@
                == old(self)@,
            old(self)@.current_action.len() > 0 ==> {
                let current = old(self)@.current_action;
                let previous = resized(old(self)@.last_action, current.len(), zero);
                &&& out@.len() == current.len()
                &&& forall|i: int|
                    0 <= i < current.len() ==> call_ensures(blend, (previous[i], current[i]), #[trigger] out@[i])
                &&& final(self)@.last_action == out@
                &&& final(self)@.current_action == current
            },
    {
        let n = self.current_action.len();
        if n == 0 {
            let out = slice_values(self.last_action.as_slice());
            return out;
        }
        let ghost previous = resized(self.last_action@, n as nat, zero);
        let mut out: Vec<T> = Vec::new();
        for i in 0..n
            invariant
                n == self.current_action.len(),
                previous == resized(self.last_action@, n as nat, zero),
                forall|a: T, b: T| call_requires(blend, (a, b)),
                out.len() == i,
                forall|j: int| 0 <= j < i ==> call_ensures(blend, (previous[j], self.current_action@[j]), #[trigger] out@[j]),
        {
            let last = if i < self.last_action.len() {
                self.last_action[i]
            } else {
                zero
            };
            assert(last == previous[i as int]);
            let value = blend(last, self.current_action[i]);
            out.push(value);
        }
        self.last_action = slice_values(out.as_slice());
        out
    }
}

} // verus!
