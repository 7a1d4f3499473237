//! The connections of one dispatcher, each under a number of its own.

use vstd::prelude::*;
use crate::bytes::ascii;
use crate::connection::Connection;
use crate::handler::Handler;
use crate::message::Message;
use crate::protocol::CloseCode;
use crate::result::Error;
use crate::session::{written, SessionView, State};

verus! {

/// The connections that one dispatcher drives. A connection keeps its
/// number for as long as it is in the registry; the number of a connection
/// that has left is given out again.
pub struct Registry<H: Handler> {
    slots: Vec<Option<Connection<H>>>,
}

/// The session of a slot, if a connection is in it.
pub open spec fn slot_session<H: Handler>(slot: Option<Connection<H>>) -> Option<SessionView> {
    match slot {
        Some(c) => Some(c.session()),
        None => None,
    }
}

/// When the close of the connection under `i` is given up, if there is a
/// connection under `i` and it is closing.
pub open spec fn deadline_at(sessions: Seq<Option<SessionView>>, i: int) -> Option<u64> {
    match sessions[i] {
        Some(s) => s.deadline,
        None => None,
    }
}

/// Whether the slot holds a connection that has ended.
pub open spec fn has_ended<H: Handler>(slot: Option<Connection<H>>) -> bool {
    slot matches Some(c) && c.session().state == State::Closed
}

/// The number of connections among `slots` that have ended.
pub open spec fn ended_count<H: Handler>(slots: Seq<Option<Connection<H>>>) -> nat
    decreases slots.len(),
{
    if slots.len() == 0 {
        0
    } else {
        ended_count(slots.drop_last()) + (if has_ended(slots.last()) {
            1nat
        } else {
            0nat
        })
    }
}

/// Whether the connection under `token` is there before and after, and no
/// other slot has changed.
pub open spec fn changed_at<H: Handler>(
    before: Seq<Option<Connection<H>>>,
    after: Seq<Option<Connection<H>>>,
    token: int,
) -> bool {
    &&& 0 <= token < before.len()
    &&& before[token] is Some
    &&& after[token] is Some
    &&& after == before.update(token, after[token])
}

impl<H: Handler> Registry<H> {
    /// The connections by number; nothing where a number is free.
    pub closed spec fn connections(&self) -> Seq<Option<Connection<H>>> {
        self.slots@
    }

    /// The sessions of the connections by number.
    pub open spec fn sessions(&self) -> Seq<Option<SessionView>> {
        Seq::new(self.connections().len(), |i: int| slot_session(self.connections()[i]))
    }

    /// Whether a connection is under `token`.
    pub open spec fn holds(&self, token: usize) -> bool {
        token < self.connections().len() && self.connections()[token as int] is Some
    }

    /// A registry without connections.
    pub fn new() -> (r: Self)
        ensures
            r.connections() == Seq::<Option<Connection<H>>>::empty(),
    {
        Registry { slots: Vec::new() }
    }

    /// The number of numbers that were ever in use at one time.
    pub fn capacity(&self) -> (r: usize)
        ensures
            r == self.connections().len(),
    {
        self.slots.len()
    }

    /// Whether a connection is under `token`.
    pub fn contains(&self, token: usize) -> (r: bool)
        ensures
            r == self.holds(token),
    {
        token < self.slots.len() && self.slots[token].is_some()
    }

    /// Takes the connection under `token` out, if there is one.
    pub fn remove(&mut self, token: usize) -> (r: Option<Connection<H>>)
        ensures
            token < old(self).connections().len() ==> r == old(self).connections()[token as int]
                && final(self).connections() == old(self).connections().update(token as int, None),
            token >= old(self).connections().len() ==> r is None && final(self).connections()
                == old(self).connections(),
    {
        if token < self.slots.len() {
            self.slots.push(None);
            let taken = self.slots.swap_remove(token);
            assert(self.slots@ =~= old(self).slots@.update(token as int, None));
            taken
        } else {
            None
        }
    }

    /// Puts `conn` under `token`.
    fn put(&mut self, token: usize, conn: Connection<H>)
        requires
            token < old(self).connections().len(),
        ensures
            final(self).connections() == old(self).connections().update(token as int, Some(conn)),
    {
        self.slots.set(token, Some(conn));
    }

    /// Takes a connection in, under the least number that is free.
    pub fn insert(&mut self, conn: Connection<H>) -> (token: usize)
        ensures
            token <= old(self).connections().len(),
            token < old(self).connections().len() ==> old(self).connections()[token as int]
                is None && final(self).connections() == old(self).connections().update(
                token as int,
                Some(conn),
            ),
            token == old(self).connections().len() ==> final(self).connections() == old(
                self,
            ).connections().push(Some(conn)),
            forall|i: int| 0 <= i < token ==> old(self).connections()[i] is Some,
    {
        let n: usize = self.slots.len();
        let mut i: usize = 0;
        while i < n
            invariant
                n == self.slots@.len(),
                i <= n,
                self.slots@ == old(self).slots@,
                forall|j: int| 0 <= j < i ==> old(self).connections()[j] is Some,
            decreases n - i,
        {
            if self.slots[i].is_none() {
                self.put(i, conn);
                return i;
            }
            i += 1;
        }
        self.slots.push(Some(conn));
        n
    }

    /// The state of the connection under `token`.
    pub fn state(&self, token: usize) -> (r: Option<State>)
        ensures
            r == (if self.holds(token) {
                Some(self.connections()[token as int].unwrap().session().state)
            } else {
                None
            }),
    {
        if token < self.slots.len() {
            match &self.slots[token] {
                Some(c) => Some(c.state()),
                None => None,
            }
        } else {
            None
        }
    }

    /// A copy of the bytes that have not been written yet of the oldest
    /// chunk of output of the connection under `token`.
    pub fn next_output(&self, token: usize) -> (r: Option<Vec<u8>>)
        ensures
            r matches Some(chunk) ==> self.holds(token) && ({
                let s = self.connections()[token as int].unwrap().session();
                s.out.len() > 0 && chunk@ == s.out[0].skip(s.sent as int)
            }),
            r is None ==> !self.holds(token)
                || self.connections()[token as int].unwrap().session().out.len() == 0,
    {
        if token < self.slots.len() {
            match &self.slots[token] {
                Some(c) => match c.next_output() {
                    Some(rest) => Some(vstd::slice::slice_to_vec(rest)),
                    None => None,
                },
                None => None,
            }
        } else {
            None
        }
    }

    /// Hands over the errors that the connection under `token` has to
    /// report, oldest first, and has it forget them.
    pub fn take_reports(&mut self, token: usize) -> (r: Vec<Error>)
        ensures
            !old(self).holds(token) ==> r@ == Seq::<Error>::empty() && final(self).connections()
                == old(self).connections(),
            old(self).holds(token) ==> changed_at(
                old(self).connections(),
                final(self).connections(),
                token as int,
            ) && ({
                let before = old(self).connections()[token as int].unwrap();
                let after = final(self).connections()[token as int].unwrap();
                &&& r@ == before.reports()
                &&& after.reports() == Seq::<Error>::empty()
                &&& after.session() == before.session()
                &&& after.handler_value() == before.handler_value()
                &&& before.kept_input(after)
            }),
    {
        match self.remove(token) {
            Some(mut c) => {
                let reports = c.take_reports();
                self.put(token, c);
                assert(self.slots@ =~= old(self).slots@.update(token as int, Some(c)));
                reports
            },
            None => {
                assert(self.slots@ =~= old(self).slots@);
                Vec::new()
            },
        }
    }

    /// Hands bytes that arrived at `now` to the connection under `token`.
    /// Says whether there is one.
    pub fn receive(&mut self, token: usize, data: &[u8], now: u64) -> (r: bool)
        ensures
            r == old(self).holds(token),
            !r ==> final(self).connections() == old(self).connections(),
            r ==> changed_at(old(self).connections(), final(self).connections(), token as int)
                && old(self).connections()[token as int].unwrap().received(
                final(self).connections()[token as int].unwrap(),
                data@,
                now,
            ),
    {
        match self.remove(token) {
            Some(mut c) => {
                c.receive(data, now);
                self.put(token, c);
                assert(self.slots@ =~= old(self).slots@.update(token as int, Some(c)));
                true
            },
            None => {
                assert(self.slots@ =~= old(self).slots@);
                false
            },
        }
    }

    /// Sends a message on the connection under `token`. Says whether there
    /// is one and it is open.
    pub fn send(&mut self, token: usize, msg: Message, now: u64) -> (r: bool)
        ensures
            !old(self).holds(token) ==> !r && final(self).connections() == old(self).connections(),
            old(self).holds(token) ==> changed_at(
                old(self).connections(),
                final(self).connections(),
                token as int,
            ) && old(self).connections()[token as int].unwrap().sent(
                final(self).connections()[token as int].unwrap(),
                r,
            ),
    {
        match self.remove(token) {
            Some(mut c) => {
                let sent = c.send(msg, now);
                self.put(token, c);
                assert(self.slots@ =~= old(self).slots@.update(token as int, Some(c)));
                sent
            },
            None => {
                assert(self.slots@ =~= old(self).slots@);
                false
            },
        }
    }

    /// Starts to close the connection under `token`. Says whether there is
    /// one.
    pub fn close(&mut self, token: usize, code: CloseCode, reason: &str, now: u64) -> (r: bool)
        ensures
            r == old(self).holds(token),
            !r ==> final(self).connections() == old(self).connections(),
            r ==> changed_at(old(self).connections(), final(self).connections(), token as int)
                && old(self).connections()[token as int].unwrap().closed(
                final(self).connections()[token as int].unwrap(),
                code,
                ascii(reason@),
                now,
            ),
    {
        match self.remove(token) {
            Some(mut c) => {
                c.close(code, reason, now);
                self.put(token, c);
                assert(self.slots@ =~= old(self).slots@.update(token as int, Some(c)));
                true
            },
            None => {
                assert(self.slots@ =~= old(self).slots@);
                false
            },
        }
    }

    /// Takes note that `n` more bytes of the oldest chunk of output of the
    /// connection under `token` have been written.
    pub fn written(&mut self, token: usize, n: usize, now: u64) -> (r: bool)
        ensures
            r == old(self).holds(token),
            !r ==> final(self).connections() == old(self).connections(),
            r ==> changed_at(old(self).connections(), final(self).connections(), token as int)
                && ({
                let before = old(self).connections()[token as int].unwrap();
                before.moved_quietly(
                    final(self).connections()[token as int].unwrap(),
                    written(before.session(), n as nat).on_flushed(),
                )
            }),
    {
        match self.remove(token) {
            Some(mut c) => {
                c.written(n, now);
                self.put(token, c);
                assert(self.slots@ =~= old(self).slots@.update(token as int, Some(c)));
                true
            },
            None => {
                assert(self.slots@ =~= old(self).slots@);
                false
            },
        }
    }

    /// Takes note that the peer has closed the socket of the connection
    /// under `token`.
    pub fn disconnected(&mut self, token: usize, now: u64) -> (r: bool)
        ensures
            r == old(self).holds(token),
            !r ==> final(self).connections() == old(self).connections(),
            r ==> changed_at(old(self).connections(), final(self).connections(), token as int)
                && ({
                let before = old(self).connections()[token as int].unwrap();
                before.moved_quietly(
                    final(self).connections()[token as int].unwrap(),
                    before.session().on_disconnected(),
                )
            }),
    {
        match self.remove(token) {
            Some(mut c) => {
                c.disconnected(now);
                self.put(token, c);
                assert(self.slots@ =~= old(self).slots@.update(token as int, Some(c)));
                true
            },
            None => {
                assert(self.slots@ =~= old(self).slots@);
                false
            },
        }
    }

    /// Takes note of a fault of the socket of the connection under `token`,
    /// with the operating system's number of the fault if there is one.
    pub fn lost(&mut self, token: usize, os_error: Option<i32>, now: u64) -> (r: bool)
        ensures
            r == old(self).holds(token),
            !r ==> final(self).connections() == old(self).connections(),
            r ==> changed_at(old(self).connections(), final(self).connections(), token as int)
                && old(self).connections()[token as int].unwrap().lost(
                final(self).connections()[token as int].unwrap(),
                os_error,
            ),
    {
        match self.remove(token) {
            Some(mut c) => {
                c.io_error(os_error, now);
                self.put(token, c);
                assert(self.slots@ =~= old(self).slots@.update(token as int, Some(c)));
                true
            },
            None => {
                assert(self.slots@ =~= old(self).slots@);
                false
            },
        }
    }

    /// The earliest time at which a close that is under way is given up, if
    /// any is under way: the time up to which nothing is overdue.
    pub fn next_deadline(&self) -> (r: Option<u64>)
        ensures
            r matches Some(d) ==> exists|i: int|
                0 <= i < self.sessions().len() && deadline_at(self.sessions(), i) == Some(d),
            forall|i: int|
                0 <= i < self.sessions().len() ==> (#[trigger] deadline_at(self.sessions(), i)
                    matches Some(e) ==> r matches Some(d) && d <= e),
    {
        let n: usize = self.slots.len();
        let mut least: Option<u64> = None;
        let mut i: usize = 0;
        while i < n
            invariant
                n == self.sessions().len(),
                n == self.slots@.len(),
                i <= n,
                least matches Some(d) ==> exists|j: int|
                    0 <= j < i && deadline_at(self.sessions(), j) == Some(d),
                forall|j: int|
                    0 <= j < i ==> (#[trigger] deadline_at(self.sessions(), j) matches Some(e)
                        ==> least matches Some(d) && d <= e),
            decreases n - i,
        {
            let here: Option<u64> = match &self.slots[i] {
                Some(c) => c.deadline(),
                None => None,
            };
            assert(here == deadline_at(self.sessions(), i as int));
            match here {
                Some(e) => {
                    let smaller: bool = match least {
                        Some(d) => e < d,
                        None => true,
                    };
                    if smaller {
                        least = Some(e);
                    }
                },
                None => {},
            }
            i += 1;
        }
        least
    }

    /// Tells every connection that time has moved to `now`: each close that
    /// is overdue is given up.
    pub fn tick(&mut self, now: u64)
        ensures
            final(self).connections().len() == old(self).connections().len(),
            forall|i: int|
                0 <= i < old(self).connections().len() ==> (match old(self).connections()[i] {
                    Some(c) => (#[trigger] final(self).connections()[i]) matches Some(d)
                        && c.moved_quietly(d, c.session().on_tick(now)),
                    None => final(self).connections()[i] is None,
                }),
    {
        let n: usize = self.slots.len();
        let mut i: usize = 0;
        while i < n
            invariant
                n == old(self).connections().len(),
                self.connections().len() == n,
                i <= n,
                forall|j: int|
                    0 <= j < i ==> (match old(self).connections()[j] {
                        Some(c) => (#[trigger] self.connections()[j]) matches Some(d)
                            && c.moved_quietly(d, c.session().on_tick(now)),
                        None => self.connections()[j] is None,
                    }),
                forall|j: int|
                    i <= j < n ==> #[trigger] self.connections()[j] == old(self).connections()[j],
            decreases n - i,
        {
            match self.remove(i) {
                Some(mut c) => {
                    c.tick(now);
                    self.put(i, c);
                },
                None => {},
            }
            i += 1;
        }
    }

    /// Broadcasts a request to shut down: the handler of every connection is
    /// told once, every open connection starts a normal close, and every
    /// connection that was still connecting ends. Afterwards no connection
    /// is connecting or open.
    pub fn shutdown(&mut self, now: u64)
        ensures
            final(self).connections().len() == old(self).connections().len(),
            forall|i: int|
                0 <= i < old(self).connections().len() ==> (match old(self).connections()[i] {
                    Some(c) => (#[trigger] final(self).connections()[i]) matches Some(d)
                        && c.shut_down(d, now),
                    None => final(self).connections()[i] is None,
                }),
    {
        let n: usize = self.slots.len();
        let mut i: usize = 0;
        while i < n
            invariant
                n == old(self).connections().len(),
                self.connections().len() == n,
                i <= n,
                forall|j: int|
                    0 <= j < i ==> (match old(self).connections()[j] {
                        Some(c) => (#[trigger] self.connections()[j]) matches Some(d)
                            && c.shut_down(d, now),
                        None => self.connections()[j] is None,
                    }),
                forall|j: int|
                    i <= j < n ==> #[trigger] self.connections()[j] == old(self).connections()[j],
            decreases n - i,
        {
            match self.remove(i) {
                Some(mut c) => {
                    c.shutdown(now);
                    self.put(i, c);
                },
                None => {},
            }
            i += 1;
        }
    }

    /// Lets go of every connection that has ended, and says how many these
    /// were. Every other connection stays under its number as it is.
    pub fn sweep(&mut self) -> (removed: usize)
        ensures
            removed == ended_count(old(self).connections()),
            final(self).connections().len() == old(self).connections().len(),
            forall|i: int|
                0 <= i < old(self).connections().len() ==> #[trigger] final(self).connections()[i]
                    == (if has_ended(old(self).connections()[i]) {
                    None
                } else {
                    old(self).connections()[i]
                }),
    {
        let n: usize = self.slots.len();
        let mut removed: usize = 0;
        let mut i: usize = 0;
        assert(old(self).connections().take(0) =~= Seq::<Option<Connection<H>>>::empty());
        while i < n
            invariant
                n == old(self).connections().len(),
                self.connections().len() == n,
                i <= n,
                removed == ended_count(old(self).connections().take(i as int)),
                removed <= i,
                forall|j: int|
                    0 <= j < i ==> #[trigger] self.connections()[j] == (if has_ended(
                        old(self).connections()[j],
                    ) {
                        None
                    } else {
                        old(self).connections()[j]
                    }),
                forall|j: int|
                    i <= j < n ==> #[trigger] self.connections()[j] == old(self).connections()[j],
            decreases n - i,
        {
            proof {
                let upto = old(self).connections().take(i + 1);
                assert(upto.drop_last() =~= old(self).connections().take(i as int));
                assert(upto.last() == old(self).connections()[i as int]);
            }
            match self.state(i) {
                Some(State::Closed) => {
                    let _ = self.remove(i);
                    removed += 1;
                },
                _ => {},
            }
            i += 1;
        }
        assert(old(self).connections().take(n as int) =~= old(self).connections());
        removed
    }
}

} // verus!
