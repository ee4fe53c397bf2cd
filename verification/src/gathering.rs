//! The answers to requests that are made side by side, one for each account, and that
//! come back in any order.

use vstd::prelude::*;

verus! {

/// The answers that have come back so far, each at the place of its account.
#[derive(Debug)]
pub struct Gathering<T> {
    slots: Vec<Option<T>>,
}

impl<T> Gathering<T> {
    /// What has come back for each account; `None` where nothing has yet.
    pub closed spec fn answers(&self) -> Seq<Option<T>> {
        self.slots@
    }

    /// Whether an answer has come back for every account.
    pub open spec fn is_complete(&self) -> bool {
        forall|i: int| 0 <= i < self.answers().len() ==> (#[trigger] self.answers()[i]) is Some
    }

    /// Nothing has come back yet for any of `count` accounts.
    pub fn new(count: usize) -> (r: Self)
        ensures
            r.answers().len() == count,
            forall|i: int| 0 <= i < count ==> (#[trigger] r.answers()[i]) is None,
    {
        let mut slots: Vec<Option<T>> = Vec::new();
        let mut i: usize = 0;
        while i < count
            invariant
                i <= count,
                slots@.len() == i,
                forall|k: int| 0 <= k < i ==> (#[trigger] slots@[k]) is None,
            decreases count - i,
        {
            slots.push(None);
            i += 1;
        }
        Gathering { slots }
    }

    /// The number of accounts.
    pub fn len(&self) -> (r: usize)
        ensures
            r == self.answers().len(),
    {
        self.slots.len()
    }

    /// Whether `index` is the place of an account for which nothing has come back yet.
    pub fn is_open(&self, index: usize) -> (r: bool)
        ensures
            r == (index < self.answers().len() && self.answers()[index as int] is None),
    {
        index < self.slots.len() && self.slots[index].is_none()
    }

    /// Takes what has come back for the account at `index`. A failure is handed back
    /// at once, to end the round: nothing is kept of it, and what has come back for
    /// other accounts before or comes back after makes no difference to that. An
    /// answer is kept at the place of its account.
    pub fn accept<E>(&mut self, index: usize, answer: Result<T, E>) -> (r: Result<(), E>)
        requires
            index < old(self).answers().len(),
            old(self).answers()[index as int] is None,
        ensures
            match answer {
                Ok(value) => r is Ok && final(self).answers() == old(self).answers().update(
                    index as int,
                    Some(value),
                ),
                Err(e) => r == Err::<(), E>(e) && final(self).answers() == old(self).answers(),
            },
    {
        match answer {
            Ok(value) => {
                self.slots.set(index, Some(value));
                Ok(())
            },
            Err(e) => Err(e),
        }
    }

    /// Every account's answer, in the order of the accounts, whatever the order in
    /// which they came back; `None` while an answer is missing.
    pub fn finish(self) -> (r: Option<Vec<T>>)
        ensures
            match r {
                Some(values) => values@.len() == self.answers().len() && forall|i: int|
                    0 <= i < values@.len() ==> self.answers()[i] == Some(#[trigger] values@[i]),
                None => !self.is_complete(),
            },
    {
        let ghost all = self.slots@;
        let ghost n = all.len();
        let mut rest = self.slots;
        let mut reversed: Vec<T> = Vec::new();
        while rest.len() > 0
            invariant
                all == self.answers(),
                n == all.len(),
                rest@.len() <= n,
                rest@ == all.take(rest@.len() as int),
                reversed@.len() == n - rest@.len(),
                forall|k: int|
                    0 <= k < reversed@.len() ==> all[n - 1 - k] == Some(#[trigger] reversed@[k]),
            decreases rest@.len(),
        {
            let ghost at = rest@.len() - 1;
            let last = rest.pop();
            assert(rest@ =~= all.take(at));
            match last {
                Some(Some(value)) => {
                    reversed.push(value);
                },
                _ => {
                    assert(self.answers()[at] is None);
                    return None;
                },
            }
        }
        let mut values: Vec<T> = Vec::new();
        while reversed.len() > 0
            invariant
                all == self.answers(),
                n == all.len(),
                values@.len() + reversed@.len() == n,
                forall|k: int|
                    0 <= k < reversed@.len() ==> all[n - 1 - k] == Some(#[trigger] reversed@[k]),
                forall|i: int| 0 <= i < values@.len() ==> all[i] == Some(#[trigger] values@[i]),
            decreases reversed@.len(),
        {
            let ghost before = reversed@;
            match reversed.pop() {
                Some(value) => {
                    assert(value == before[before.len() - 1]);
                    values.push(value);
                },
                None => {},
            }
        }
        Some(values)
    }
}

} // verus!
