//! A bounded undo/redo history of whole-register snapshots.
use crate::number::Number;
use std::collections::VecDeque;
use vstd::prelude::*;

verus! {

/// Snapshots behind the current one (the current one last) and ahead of it
/// (the next one last).
#[derive(Debug)]
pub struct History {
    backward_list: VecDeque<Number>,
    forward_list: VecDeque<Number>,
    max_size: usize,
}

impl History {
    /// The snapshots up to the current one, oldest first.
    pub closed spec fn back(&self) -> Seq<Number> {
        self.backward_list@
    }

    /// The snapshots that redo brings back, the next one last.
    pub closed spec fn ahead(&self) -> Seq<Number> {
        self.forward_list@
    }

    /// How many snapshots are kept behind.
    pub closed spec fn limit(&self) -> nat {
        self.max_size as nat
    }

    /// Every snapshot is a well-formed register, and there is a current one.
    pub open spec fn holds_registers(&self) -> bool {
        &&& self.back().len() >= 1
        &&& forall|i: int| 0 <= i < self.back().len() ==> #[trigger] self.back()[i].wf()
        &&& forall|i: int| 0 <= i < self.ahead().len() ==> #[trigger] self.ahead()[i].wf()
    }

    /// An empty history keeping up to `max_size` snapshots.
    pub fn new(max_size: usize) -> (r: Self)
        ensures
            r.back() == Seq::<Number>::empty(),
            r.ahead() == Seq::<Number>::empty(),
            r.limit() == max_size,
    {
        History { backward_list: VecDeque::new(), forward_list: VecDeque::new(), max_size }
    }

    /// The snapshots behind after `number` is saved: the oldest dropped when
    /// the history is full, `number` added as the current one.
    pub open spec fn back_after_save(&self, number: Number) -> Seq<Number> {
        (if self.back().len() >= self.limit() && self.back().len() > 0 {
            self.back().drop_first()
        } else {
            self.back()
        }).push(number)
    }

    /// Records `number` as the current snapshot, dropping the oldest one when
    /// the history is full, and forgets what redo would bring back.
    pub fn save(&mut self, number: &Number)
        ensures
            final(self).limit() == old(self).limit(),
            final(self).ahead() == Seq::<Number>::empty(),
            final(self).back() == old(self).back_after_save(*number),
    {
        if self.backward_list.len() >= self.max_size {
            let _ = self.backward_list.pop_front();
        }
        self.backward_list.push_back(*number);
        if self.forward_list.len() != 0 {
            self.forward_list.clear();
        }
    }

    /// Steps back one snapshot and returns it; at the oldest snapshot, stays.
    pub fn backward(&mut self) -> (r: Number)
        requires
            old(self).back().len() >= 1,
        ensures
            final(self).limit() == old(self).limit(),
            final(self).back().len() >= 1,
            old(self).back().len() == 1 ==> *final(self) == *old(self),
            old(self).back().len() > 1 ==> {
                &&& final(self).back() == old(self).back().drop_last()
                &&& final(self).ahead() == old(self).ahead().push(old(self).back().last())
            },
            r == final(self).back().last(),
    {
        if self.backward_list.len() == 1 {
            self.backward_list[0]
        } else {
            match self.backward_list.pop_back() {
                Some(number) => self.forward_list.push_back(number),
                None => {},
            }
            let n = self.backward_list.len();
            self.backward_list[n - 1]
        }
    }

    /// Steps forward one snapshot and returns it; with nothing ahead, returns
    /// the current one.
    pub fn forward(&mut self) -> (r: Number)
        requires
            old(self).back().len() >= 1,
        ensures
            final(self).limit() == old(self).limit(),
            final(self).back().len() >= 1,
            old(self).ahead().len() == 0 ==> *final(self) == *old(self) && r == old(
                self,
            ).back().last(),
            old(self).ahead().len() > 0 ==> {
                &&& final(self).ahead() == old(self).ahead().drop_last()
                &&& final(self).back() == old(self).back().push(old(self).ahead().last())
                &&& r == old(self).ahead().last()
            },
    {
        if self.forward_list.len() == 0 {
            let n = self.backward_list.len();
            self.backward_list[n - 1]
        } else {
            let number = match self.forward_list.pop_back() {
                Some(number) => number,
                None => {
                    let n = self.backward_list.len();
                    self.backward_list[n - 1]
                },
            };
            self.backward_list.push_back(number);
            number
        }
    }
}

} // verus!
