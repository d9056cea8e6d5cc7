//! The smallest future: a sleep polled by hand until it says it is ready.

use vstd::prelude::*;
use crate::simple;

verus! {

/// The answer of one poll.
#[derive(PartialEq, Eq, Structural, Debug, Clone, Copy)]
pub enum MyPoll {
    Pending,
    Ready,
}

/// A future polled by hand.
pub trait MyFuture {
    fn poll(&mut self) -> MyPoll;
}

/// A future that is ready once a given time has passed since its first poll.
pub struct Sleep {
    clock: simple::Sleep,
}

impl Sleep {
    pub closed spec fn clock(&self) -> simple::Sleep {
        self.clock
    }

    pub fn new(duration: std::time::Duration) -> (s: Sleep)
        ensures
            !s.clock().started(),
            s.clock().wait_nanos() == crate::clock::duration_nanos(duration),
    {
        Sleep { clock: simple::Sleep::new(duration) }
    }

    pub fn from_nanos(nanos: u128) -> (s: Sleep)
        ensures
            !s.clock().started(),
            s.clock().wait_nanos() == nanos,
    {
        Sleep { clock: simple::Sleep::from_nanos(nanos) }
    }
}

impl MyFuture for Sleep {
    fn poll(&mut self) -> (r: MyPoll)
        ensures
            final(self).clock().started(),
            old(self).clock().started() ==> final(self).clock().start() == old(self).clock().start(),
            final(self).clock().wait_nanos() == old(self).clock().wait_nanos(),
            final(self).clock().last_reading() is Some,
            r == MyPoll::Ready <==> final(self).clock().wait_over(),
            old(self).clock().wait_nanos() == 0 ==> r == MyPoll::Ready,
    {
        match self.clock.poll_clock() {
            simple::MyPoll::Pending => MyPoll::Pending,
            simple::MyPoll::Ready(_) => MyPoll::Ready,
        }
    }
}

} // verus!
