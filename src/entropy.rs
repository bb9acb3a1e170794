use vstd::prelude::*;

verus! {

/// A source of integers drawn from a half-open range.
pub trait EntropySource {
    /// A value in `[min, max)`.
    fn next_usize_in_range(&mut self, min: usize, max: usize) -> (r: usize)
        requires
            min < max,
        ensures
            min <= r < max;
}

/// The value that `raw` yields in `[min, max)`: `min + raw % (max - min)`.
pub open spec fn fold_into_range(raw: nat, min: nat, max: nat) -> nat
    recommends
        min < max,
{
    min + raw % ((max - min) as nat)
}

/// An entropy source that replays a fixed sequence of raw values, then zeros.
#[derive(Clone, Debug)]
pub struct ScriptedEntropy {
    pub values: Vec<usize>,
    pub next: usize,
}

impl ScriptedEntropy {
    pub fn new(values: Vec<usize>) -> (r: ScriptedEntropy)
        ensures
            r.values == values,
            r.next == 0,
    {
        ScriptedEntropy { values, next: 0 }
    }

    /// The raw value that the next draw uses.
    pub open spec fn upcoming(&self) -> nat {
        if self.next < self.values.len() {
            self.values@[self.next as int] as nat
        } else {
            0
        }
    }

    /// Draws the next raw value and folds it into `[min, max)`.
    pub fn draw(&mut self, min: usize, max: usize) -> (r: usize)
        requires
            min < max,
        ensures
            r == fold_into_range(old(self).upcoming(), min as nat, max as nat),
            min <= r < max,
            final(self).values == old(self).values,
            final(self).next == if old(self).next < old(self).values.len() {
                old(self).next + 1
            } else {
                old(self).next as int
            },
    {
        let raw: usize = if self.next < self.values.len() {
            let v = self.values[self.next];
            self.next = self.next + 1;
            v
        } else {
            0
        };
        min + raw % (max - min)
    }
}

impl EntropySource for ScriptedEntropy {
    fn next_usize_in_range(&mut self, min: usize, max: usize) -> (r: usize) {
        self.draw(min, max)
    }
}

} // verus!
