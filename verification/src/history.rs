//! The samples a streaming resampler remembers from the end of the previous
//! input block, so that interpolation is continuous across block edges.
use vstd::prelude::*;

verus! {

/// History after a block in which `consumed` input samples were used up:
/// `(previous, before_previous)`.
pub open spec fn after_consume<T>(prev: Option<T>, prev_prev: Option<T>, input: Seq<T>, consumed: nat) -> (Option<T>, Option<T>) {
    let pp = if 2 <= consumed <= input.len() {
        Some(input[consumed - 2])
    } else if consumed == 1 {
        prev
    } else {
        prev_prev
    };
    let p = if 0 < consumed <= input.len() {
        Some(input[consumed - 1])
    } else if input.len() > 0 {
        Some(input[input.len() - 1])
    } else {
        prev
    };
    (p, pp)
}

/// History after `n` samples were passed through unchanged.
pub open spec fn after_passthrough<T>(prev: Option<T>, prev_prev: Option<T>, input: Seq<T>, n: nat) -> (Option<T>, Option<T>) {
    let pp = if n >= 2 {
        Some(input[n - 2])
    } else if n == 1 && prev.is_some() {
        prev
    } else {
        prev_prev
    };
    let p = if n > 0 {
        Some(input[n - 1])
    } else {
        prev
    };
    (p, pp)
}

pub struct SampleHistory<T> {
    prev: Option<T>,
    prev_prev: Option<T>,
}

impl<T: Copy> SampleHistory<T> {
    /// The last input sample consumed, if any.
    pub closed spec fn last(&self) -> Option<T> {
        self.prev
    }

    /// The input sample consumed before `last`, if any.
    pub closed spec fn before_last(&self) -> Option<T> {
        self.prev_prev
    }

    /// No history.
    pub fn new() -> (r: Self)
        ensures
            r.last() is None,
            r.before_last() is None,
    {
        SampleHistory { prev: None, prev_prev: None }
    }

    /// Forget the history; afterwards the state is that of `new()`.
    pub fn reset(&mut self)
        ensures
            final(self).last() is None,
            final(self).before_last() is None,
    {
        self.prev = None;
        self.prev_prev = None;
    }

    pub fn previous(&self) -> (r: Option<T>)
        ensures
            r == self.last(),
    {
        self.prev
    }

    pub fn before_previous(&self) -> (r: Option<T>)
        ensures
            r == self.before_last(),
    {
        self.prev_prev
    }

    /// Neighbour left of input position `int_pos` for four-point
    /// interpolation: the remembered sample (or the first input sample when
    /// nothing is remembered) at position 0, else the input sample before it.
    pub fn cubic_left(&self, input: &[T], int_pos: usize) -> (v: T)
        requires
            int_pos < input@.len(),
        ensures
            v == (if int_pos == 0 {
                match self.last() {
                    Some(p) => p,
                    None => input@[0],
                }
            } else {
                input@[int_pos - 1]
            }),
    {
        if int_pos == 0 {
            match self.prev {
                Some(p) => p,
                None => input[0],
            }
        } else {
            input[int_pos - 1]
        }
    }

    /// Left end of the two-point interpolation at input position `int_pos`:
    /// the remembered sample at position 0 when there is one, else the input
    /// sample at that position.
    pub fn linear_left(&self, input: &[T], int_pos: usize) -> (v: T)
        requires
            int_pos < input@.len(),
        ensures
            v == (if int_pos == 0 && self.last() is Some {
                self.last()->0
            } else {
                input@[int_pos as int]
            }),
    {
        if int_pos == 0 {
            match self.prev {
                Some(p) => p,
                None => input[int_pos],
            }
        } else {
            input[int_pos]
        }
    }

    /// Pass input through unchanged: copy as many samples as both buffers
    /// hold, leave the rest of `output` as it was, remember the end of what
    /// was copied, and return the count.
    pub fn passthrough(&mut self, input: &[T], output: &mut [T]) -> (n: usize)
        ensures
            n == (if input@.len() < old(output)@.len() {
                input@.len()
            } else {
                old(output)@.len()
            }),
            final(output)@ == input@.take(n as int) + old(output)@.skip(n as int),
            (final(self).last(), final(self).before_last()) == after_passthrough(
                old(self).last(),
                old(self).before_last(),
                input@,
                n as nat,
            ),
    {
        let n = if input.len() < output.len() {
            input.len()
        } else {
            output.len()
        };
        let mut i: usize = 0;
        while i < n
            invariant
                n <= input@.len(),
                n <= output@.len(),
                output@.len() == old(output)@.len(),
                i <= n,
                output@ == input@.take(i as int) + old(output)@.skip(i as int),
            decreases n - i,
        {
            let ghost before = output@;
            output[i] = input[i];
            assert(output@ == before.update(i as int, input@[i as int]));
            i += 1;
            assert(output@ =~= input@.take(i as int) + old(output)@.skip(i as int));
        }
        if n >= 2 {
            self.prev_prev = Some(input[n - 2]);
        } else if n == 1 && self.prev.is_some() {
            self.prev_prev = self.prev;
        }
        if n > 0 {
            self.prev = Some(input[n - 1]);
        }
        n
    }

    /// Record the end of a block in which `consumed` input samples were used
    /// up (the count may run past the block); returns the count capped at
    /// the block length.
    pub fn advance(&mut self, input: &[T], consumed: usize) -> (c: usize)
        ensures
            c == (if consumed < input@.len() {
                consumed
            } else {
                input@.len() as usize
            }),
            (final(self).last(), final(self).before_last()) == after_consume(
                old(self).last(),
                old(self).before_last(),
                input@,
                consumed as nat,
            ),
    {
        let len = input.len();
        if consumed >= 2 && consumed <= len {
            self.prev_prev = Some(input[consumed - 2]);
        } else if consumed == 1 {
            self.prev_prev = self.prev;
        }
        if consumed > 0 && consumed <= len {
            self.prev = Some(input[consumed - 1]);
        } else if len > 0 {
            self.prev = Some(input[len - 1]);
        }
        if consumed < len {
            consumed
        } else {
            len
        }
    }
}

} // verus!
