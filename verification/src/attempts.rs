//! Attempts in turn: what to try next, and when to give up.

use vstd::prelude::*;

use crate::config::LoadBalanceHosts;
use crate::error::Error;
use crate::random::shuffle;

verus! {

/// What is left to try, in order.
#[derive(Debug, PartialEq, Eq)]
pub struct Attempts<T> {
    pub items: Vec<T>,
}

/// What to do next.
#[derive(Debug, PartialEq, Eq)]
pub enum AttemptAction<T> {
    /// Try this.
    Try(T),
    /// Nothing is left: fail with the error that came last.
    GiveUp(Error),
}

/// What is to be tried next, and what is left after it.
pub open spec fn taken<T>(items: Seq<T>) -> (Option<T>, Seq<T>) {
    if items.len() == 0 {
        (None, items)
    } else {
        (Some(items[0]), items.drop_first())
    }
}

/// What is to be done once an attempt has failed with `error`, and what is left
/// after that.
pub open spec fn after_failure<T>(items: Seq<T>, error: Error) -> (AttemptAction<T>, Seq<T>) {
    match taken(items) {
        (Some(item), left) => (AttemptAction::Try(item), left),
        (None, left) => (AttemptAction::GiveUp(error), left),
    }
}

impl<T> Attempts<T> {
    /// Takes the next item, if one is left.
    pub fn next(&mut self) -> (r: Option<T>)
        ensures
            (r, final(self).items@) == taken(old(self).items@),
    {
        if self.items.len() == 0 {
            None
        } else {
            let item: T = self.items.remove(0);
            assert(self.items@ =~= old(self).items@.drop_first());
            Some(item)
        }
    }

    /// What to do once an attempt has failed with `error`.
    pub fn failed(&mut self, error: Error) -> (r: AttemptAction<T>)
        ensures
            (r, final(self).items@) == after_failure(old(self).items@, error),
    {
        match self.next() {
            Some(item) => AttemptAction::Try(item),
            None => AttemptAction::GiveUp(error),
        }
    }
}

/// Puts `items` in the order in which they are to be tried: as they are, or at
/// random.
pub fn attempt_order<T>(items: Vec<T>, load_balance_hosts: LoadBalanceHosts) -> (r: Attempts<T>)
    ensures
        r.items@.to_multiset() == items@.to_multiset(),
        load_balance_hosts == LoadBalanceHosts::Disable ==> r.items@ == items@,
{
    let mut items: Vec<T> = items;
    if load_balance_hosts == LoadBalanceHosts::Random {
        shuffle(&mut items);
    }
    Attempts { items }
}

} // verus!
