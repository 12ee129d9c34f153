//! The UDP sessions that share a connection.

use std::collections::HashMap;

use vstd::prelude::*;
use vstd::std_specs::iter::IteratorSpec;

use crate::hysteria::config::UDP_MESSAGE_CHAN_SIZE;
use crate::hysteria::conn::{fed, framed, fresh_session, InterConn, InterView};
use crate::hysteria::error::{HysteriaError, Result};
use crate::net::SocketAddress;
use crate::wire;

verus! {

broadcast use vstd::std_specs::hash::group_hash_axioms;

/// The contents of sessions.
pub open spec fn inter_views(sessions: Seq<InterConn>) -> Seq<InterView> {
    Seq::new(sessions.len(), |i: int| sessions[i]@)
}

/// Every session stands under its own number.
pub open spec fn numbered(sessions: Map<u32, InterView>) -> bool {
    forall|id: u32| #[trigger] sessions.contains_key(id) ==> sessions[id].id == id
}

/// Whether a session was idle for longer than the timeout.
pub open spec fn is_idle(c: InterView, timeout_ms: u64, now: u64) -> bool {
    now > c.last_active && now - c.last_active > timeout_ms
}

/// The sessions that are not idle.
pub open spec fn busy(sessions: Map<u32, InterView>, timeout_ms: u64, now: u64) -> Map<
    u32,
    InterView,
> {
    sessions.restrict(Set::new(|id: u32| !is_idle(sessions[id], timeout_ms, now)))
}

/// The sessions that are idle.
pub open spec fn idle(sessions: Map<u32, InterView>, timeout_ms: u64, now: u64) -> Map<
    u32,
    InterView,
> {
    sessions.restrict(Set::new(|id: u32| is_idle(sessions[id], timeout_ms, now)))
}

/// Whether those that ended are those sessions, each of them once and closed,
/// in whatever order.
pub open spec fn ends(ended: Seq<InterView>, sessions: Map<u32, InterView>) -> bool {
    &&& forall|i: int, j: int|
        0 <= i < j < ended.len() ==> (#[trigger] ended[i]).id != (#[trigger] ended[j]).id
    &&& forall|i: int|
        0 <= i < ended.len() ==> {
            &&& sessions.contains_key((#[trigger] ended[i]).id)
            &&& ended[i] == (InterView { closed: true, ..sessions[ended[i].id] })
        }
    &&& forall|id: u32| #[trigger]
        sessions.contains_key(id) ==> exists|i: int|
            0 <= i < ended.len() && (#[trigger] ended[i]).id == id
}

/// The contents of a [`UdpSessionManager`].
pub struct ManagerView {
    /// The sessions, by their numbers.
    pub sessions: Map<u32, InterView>,
    pub next_id: u32,
    pub closed: bool,
    pub idle_timeout_ms: u64,
}

/// What came of a datagram.
#[derive(Debug, Clone, Copy, PartialEq, Eq, Structural)]
pub enum Fed {
    /// It names no session.
    Ignored,
    /// It went to the session of that number.
    Delivered(u32),
    /// It went to a new session of that number.
    Opened(u32),
}

/// The manager after a datagram, and what came of it: it goes, without the
/// number in front, to the session of that number, which is opened where there
/// is none.
pub open spec fn feed_outcome(
    m: ManagerView,
    datagram: Seq<u8>,
    local: SocketAddress,
    remote: SocketAddress,
    now: u64,
) -> (ManagerView, Fed) {
    if datagram.len() < 4 {
        (m, Fed::Ignored)
    } else {
        let id = wire::be_u32(datagram, 0);
        let data = datagram.skip(4);
        let was = if m.sessions.contains_key(id) {
            m.sessions[id]
        } else {
            fresh_session(local, remote, id, 1024, now, false)
        };
        (
            ManagerView { sessions: m.sessions.insert(id, fed(was, data)), ..m },
            if m.sessions.contains_key(id) {
                Fed::Delivered(id)
            } else {
                Fed::Opened(id)
            },
        )
    }
}

/// The UDP sessions that share a connection.
pub struct UdpSessionManager {
    pub sessions: HashMap<u32, InterConn>,
    pub next_id: u32,
    pub closed: bool,
    pub idle_timeout_ms: u64,
}

impl View for UdpSessionManager {
    type V = ManagerView;

    open spec fn view(&self) -> ManagerView {
        ManagerView {
            sessions: self.sessions@.map_values(|c: InterConn| c@),
            next_id: self.next_id,
            closed: self.closed,
            idle_timeout_ms: self.idle_timeout_ms,
        }
    }
}

impl UdpSessionManager {
    /// Every session stands under its own number.
    pub open spec fn wf(&self) -> bool {
        numbered(self@.sessions)
    }

    /// No sessions yet. The first one that is created has the number one.
    pub fn new(idle_timeout_ms: u64) -> (m: Self)
        ensures
            m.wf(),
            m@ == (ManagerView {
                sessions: Map::empty(),
                next_id: 1,
                closed: false,
                idle_timeout_ms,
            }),
    {
        let m = UdpSessionManager {
            sessions: HashMap::new(),
            next_id: 1,
            closed: false,
            idle_timeout_ms,
        };
        assert(m@.sessions =~= Map::empty());
        m
    }

    /// The session of that number.
    pub fn session(&self, id: u32) -> (r: Option<&InterConn>)
        ensures
            match r {
                Some(c) => self@.sessions.get(id) == Some(c@),
                None => self@.sessions.get(id) is None,
            },
    {
        self.sessions.get(&id)
    }

    /// Takes a session out, to read or write, and puts what comes of it back.
    pub fn take_session(&mut self, id: u32) -> (r: Option<InterConn>)
        requires
            old(self).wf(),
        ensures
            final(self).wf(),
            final(self)@ == (ManagerView {
                sessions: old(self)@.sessions.remove(id),
                ..old(self)@
            }),
            match r {
                Some(c) => old(self)@.sessions.get(id) == Some(c@),
                None => old(self)@.sessions.get(id) is None,
            },
    {
        let ghost before = self@.sessions;
        let taken = self.sessions.remove(&id);
        assert(self@.sessions =~= before.remove(id));
        taken
    }

    /// Puts a session in. One of the same number makes room for it and is
    /// handed back.
    pub fn put_session(&mut self, conn: InterConn) -> (replaced: Option<InterConn>)
        requires
            old(self).wf(),
        ensures
            final(self).wf(),
            final(self)@ == (ManagerView {
                sessions: old(self)@.sessions.insert(conn@.id, conn@),
                ..old(self)@
            }),
            match replaced {
                Some(c) => old(self)@.sessions.get(conn@.id) == Some(c@),
                None => old(self)@.sessions.get(conn@.id) is None,
            },
    {
        let ghost before = self@.sessions;
        let ghost put = conn@;
        let id: u32 = conn.id;
        let replaced = self.sessions.insert(id, conn);
        assert(self@.sessions =~= before.insert(id, put));
        replaced
    }

    /// A new session, with the next number. Where a session of that number is
    /// left from before, it makes room and is handed back.
    pub fn create_session(
        &mut self,
        local: SocketAddress,
        remote: SocketAddress,
        now: u64,
    ) -> (r: Result<(u32, Option<InterConn>)>)
        requires
            old(self).wf(),
        ensures
            final(self).wf(),
            match r {
                Ok((id, replaced)) => {
                    let m = old(self)@;
                    &&& !m.closed
                    &&& id == m.next_id
                    &&& final(self)@ == (ManagerView {
                        sessions: m.sessions.insert(
                            id,
                            fresh_session(local, remote, id, 1024, now, true),
                        ),
                        next_id: ((id + 1) % 0x1_0000_0000) as u32,
                        ..m
                    })
                    &&& match replaced {
                        Some(c) => m.sessions.get(id) == Some(c@),
                        None => m.sessions.get(id) is None,
                    }
                },
                Err(e) => {
                    &&& old(self)@.closed
                    &&& e is ConnectionClosed
                    &&& final(self)@ == old(self)@
                },
            },
    {
        if self.closed {
            return Err(HysteriaError::ConnectionClosed);
        }
        let id: u32 = self.next_id;
        self.next_id = id.wrapping_add(1);
        let mut conn = InterConn::new(local, remote, id, UDP_MESSAGE_CHAN_SIZE, now);
        conn.set_close_fn();
        let replaced = self.put_session(conn);
        Ok((id, replaced))
    }

    /// A datagram came.
    pub fn feed(
        &mut self,
        datagram: &[u8],
        local: SocketAddress,
        remote: SocketAddress,
        now: u64,
    ) -> (f: Fed)
        requires
            old(self).wf(),
        ensures
            final(self).wf(),
            (final(self)@, f) == feed_outcome(old(self)@, datagram@, local, remote, now),
    {
        if datagram.len() < 4 {
            return Fed::Ignored;
        }
        let ghost before = self@.sessions;
        let id: u32 = wire::get_u32(datagram, 0);
        let data: Vec<u8> = wire::copy_range(datagram, 4, datagram.len());
        assert(data@ =~= datagram@.skip(4));
        let (mut conn, outcome) = match self.take_session(id) {
            Some(conn) => (conn, Fed::Delivered(id)),
            None => (
                InterConn::new(local, remote, id, UDP_MESSAGE_CHAN_SIZE, now),
                Fed::Opened(id),
            ),
        };
        conn.feed(data);
        let ghost after = conn@;
        let _ = self.put_session(conn);
        assert(self@.sessions =~= before.insert(id, after));
        outcome
    }

    /// Closes a session: whether there was one that was open. It is forgotten
    /// where it was created here; one that a datagram opened stays until it is
    /// idle.
    pub fn close_session(&mut self, id: u32) -> (b: bool)
        requires
            old(self).wf(),
        ensures
            final(self).wf(),
            ({
                let sessions = old(self)@.sessions;
                &&& b == (sessions.contains_key(id) && !sessions[id].closed)
                &&& final(self)@ == (ManagerView {
                    sessions: if !sessions.contains_key(id) {
                        sessions
                    } else if b && sessions[id].forget {
                        sessions.remove(id)
                    } else {
                        sessions.insert(id, InterView { closed: true, ..sessions[id] })
                    },
                    ..old(self)@
                })
            }),
    {
        let ghost before = self@.sessions;
        match self.take_session(id) {
            Some(mut conn) => {
                let was_open: bool = conn.close();
                if !(was_open && conn.forget) {
                    let ghost closed = conn@;
                    let _ = self.put_session(conn);
                    assert(self@.sessions =~= before.insert(id, closed));
                }
                was_open
            },
            None => {
                assert(self@.sessions =~= before);
                false
            },
        }
    }

    /// The numbers of the sessions, each of them once, in whatever order.
    fn numbers(&self) -> (ids: Vec<u32>)
        ensures
            ids@.no_duplicates(),
            forall|id: u32| ids@.contains(id) <==> #[trigger] self@.sessions.contains_key(id),
    {
        let mut ids: Vec<u32> = Vec::new();
        let ghost keys = IteratorSpec::remaining(&self.sessions.keys()).unref();
        for id in walk: self.sessions.keys()
            invariant
                walk.seq().unref() == keys,
                ids@ == keys.take(walk.index() as int),
        {
            ids.push(*id);
        }
        proof {
            assert(ids@ =~= keys);
            assert(ids@.to_set() == self.sessions@.dom());
            assert forall|id: u32|
                ids@.contains(id) <==> #[trigger] self@.sessions.contains_key(id) by {
                assert(ids@.contains(id) <==> ids@.to_set().contains(id));
            }
        }
        ids
    }

    /// Takes the sessions of those numbers out and closes them.
    fn end(&mut self, ids: &Vec<u32>) -> (ended: Vec<InterConn>)
        requires
            old(self).wf(),
            ids@.no_duplicates(),
            forall|id: u32| #[trigger] ids@.contains(id) ==> old(self)@.sessions.contains_key(id),
        ensures
            final(self)@ == (ManagerView {
                sessions: old(self)@.sessions.remove_keys(ids@.to_set()),
                ..old(self)@
            }),
            ends(inter_views(ended@), old(self)@.sessions.restrict(ids@.to_set())),
    {
        let ghost before = self@.sessions;
        let mut ended: Vec<InterConn> = Vec::new();
        let mut i: usize = 0;
        assert(self@.sessions =~= before.remove_keys(ids@.take(0).to_set()));
        while i < ids.len()
            invariant
                i <= ids@.len(),
                self.wf(),
                numbered(before),
                before == old(self)@.sessions,
                ids@.no_duplicates(),
                forall|id: u32| #[trigger] ids@.contains(id) ==> before.contains_key(id),
                self@ == (ManagerView {
                    sessions: before.remove_keys(ids@.take(i as int).to_set()),
                    ..old(self)@
                }),
                ended@.len() == i,
                forall|k: int|
                    0 <= k < i ==> (#[trigger] ended@[k])@ == (InterView {
                        closed: true,
                        ..before[ids@[k]]
                    }),
            decreases ids@.len() - i,
        {
            let id: u32 = ids[i];
            let ghost left = self@.sessions;
            proof {
                assert(ids@.contains(id));
                assert(!ids@.take(i as int).contains(id));
                assert(left.contains_key(id));
            }
            if let Some(mut conn) = self.take_session(id) {
                let _ = conn.close();
                ended.push(conn);
            }
            proof {
                assert(ids@.take(i + 1) =~= ids@.take(i as int).push(id));
                assert forall|k: u32|
                    ids@.take(i + 1).to_set().contains(k) <==> (ids@.take(
                        i as int,
                    ).to_set().contains(k) || k == id) by {
                    if k == id {
                        assert(ids@.take(i + 1)[i as int] == id);
                    }
                    if ids@.take(i as int).contains(k) {
                        let at = choose|at: int| 0 <= at < i && ids@.take(i as int)[at] == k;
                        assert(ids@.take(i + 1)[at] == k);
                    }
                }
                assert(self@.sessions =~= before.remove_keys(ids@.take(i + 1).to_set()));
            }
            i += 1;
        }
        proof {
            assert(ids@.take(i as int) =~= ids@);
            let views = inter_views(ended@);
            let gone = before.restrict(ids@.to_set());
            assert forall|k: int| 0 <= k < views.len() implies {
                &&& gone.contains_key((#[trigger] views[k]).id)
                &&& views[k] == (InterView { closed: true, ..gone[views[k].id] })
                &&& views[k].id == ids@[k]
            } by {
                assert(views[k] == ended@[k]@);
                assert(ids@.contains(ids@[k]));
            }
            assert forall|id: u32| #[trigger] gone.contains_key(id) implies exists|k: int|
                0 <= k < views.len() && (#[trigger] views[k]).id == id by {
                let k = choose|k: int| 0 <= k < ids@.len() && ids@[k] == id;
                assert(views[k].id == id);
            }
        }
        ended
    }

    /// Closes and forgets the sessions that were idle for longer than the
    /// timeout, and hands them back in whatever order. Nothing is returned once
    /// the manager is closed.
    pub fn clean(&mut self, now: u64) -> (r: Option<Vec<InterConn>>)
        requires
            old(self).wf(),
        ensures
            final(self).wf(),
            r is None <==> old(self)@.closed,
            match r {
                Some(ended) => {
                    let m = old(self)@;
                    &&& final(self)@ == (ManagerView {
                        sessions: busy(m.sessions, m.idle_timeout_ms, now),
                        ..m
                    })
                    &&& ends(inter_views(ended@), idle(m.sessions, m.idle_timeout_ms, now))
                },
                None => final(self)@ == old(self)@,
            },
    {
        if self.closed {
            return None;
        }
        let timeout: u64 = self.idle_timeout_ms;
        let ghost sessions = self@.sessions;
        let all: Vec<u32> = self.numbers();
        let mut over: Vec<u32> = Vec::new();
        let mut i: usize = 0;
        while i < all.len()
            invariant
                i <= all@.len(),
                *self == *old(self),
                sessions == self@.sessions,
                all@.no_duplicates(),
                forall|id: u32| all@.contains(id) <==> #[trigger] sessions.contains_key(id),
                over@.no_duplicates(),
                forall|id: u32| #[trigger]
                    over@.contains(id) <==> all@.take(i as int).contains(id) && is_idle(
                        sessions[id],
                        timeout,
                        now,
                    ),
            decreases all@.len() - i,
        {
            let id: u32 = all[i];
            let ghost over_before = over@;
            proof {
                assert(all@.contains(id));
                assert(sessions.contains_key(id));
                assert(all@.take(i + 1) =~= all@.take(i as int).push(id));
                assert(!all@.take(i as int).contains(id));
                assert(!over@.contains(id));
            }
            if let Some(conn) = self.sessions.get(&id) {
                if now > conn.last_active && now - conn.last_active > timeout {
                    over.push(id);
                }
            }
            proof {
                assert forall|k: u32| #[trigger]
                    over@.contains(k) <==> all@.take(i + 1).contains(k) && is_idle(
                        sessions[k],
                        timeout,
                        now,
                    ) by {
                    lemma_push_contains(all@.take(i as int), id, k);
                    lemma_push_contains(over_before, id, k);
                }
            }
            i += 1;
        }
        proof {
            assert(all@.take(i as int) =~= all@);
        }
        let ended: Vec<InterConn> = self.end(&over);
        proof {
            assert(self@.sessions =~= busy(sessions, timeout, now));
            assert(sessions.restrict(over@.to_set()) =~= idle(sessions, timeout, now));
        }
        Some(ended)
    }

    /// Closes all sessions and forgets them, and hands them back in whatever
    /// order. No more are created.
    pub fn close_all(&mut self) -> (ended: Vec<InterConn>)
        requires
            old(self).wf(),
        ensures
            final(self).wf(),
            final(self)@ == (ManagerView { sessions: Map::empty(), closed: true, ..old(self)@ }),
            ends(inter_views(ended@), old(self)@.sessions),
    {
        self.closed = true;
        let ghost sessions = self@.sessions;
        let ids: Vec<u32> = self.numbers();
        let ended: Vec<InterConn> = self.end(&ids);
        proof {
            assert(self@.sessions =~= Map::empty());
            assert(sessions.restrict(ids@.to_set()) =~= sessions);
        }
        ended
    }

    /// The number of sessions.
    pub fn session_count(&self) -> (n: usize)
        ensures
            n == self@.sessions.len(),
    {
        assert(self@.sessions.dom() =~= self.sessions@.dom());
        self.sessions.len()
    }
}

proof fn lemma_push_contains(s: Seq<u32>, x: u32, k: u32)
    ensures
        s.push(x).contains(k) <==> s.contains(k) || k == x,
{
    if s.contains(k) {
        let at = choose|at: int| 0 <= at < s.len() && s[at] == k;
        assert(s.push(x)[at] == k);
    }
    assert(s.push(x)[s.len() as int] == x);
}

/// What one side writes to a session the other side's session of that number
/// gets to read, where it is open and has room.
pub proof fn law_written_is_fed(
    m: ManagerView,
    id: u32,
    data: Seq<u8>,
    local: SocketAddress,
    remote: SocketAddress,
    now: u64,
)
    requires
        m.sessions.get(id) matches Some(c) ==> !c.closed && c.queue.len() < c.capacity,
    ensures
        ({
            let (after, f) = feed_outcome(m, framed(id, data), local, remote, now);
            &&& f == if m.sessions.contains_key(id) {
                Fed::Delivered(id)
            } else {
                Fed::Opened(id)
            }
            &&& after.sessions.contains_key(id)
            &&& after.sessions[id].queue.len() > 0
            &&& after.sessions[id].queue.last() == data
        }),
{
    let d = framed(id, data);
    assert(d.subrange(0, 4) =~= wire::u32_be(id));
    wire::lemma_u32_round_trip(d, 0, id);
    assert(d.skip(4) =~= data);
}

/// A session that was created is found under its number, and the others are
/// found as before.
pub proof fn law_created_is_found(
    m: ManagerView,
    id: u32,
    local: SocketAddress,
    remote: SocketAddress,
    now: u64,
    other: u32,
)
    ensures
        ({
            let c = fresh_session(local, remote, id, 1024, now, true);
            let after = m.sessions.insert(id, c);
            &&& after.get(id) == Some(c)
            &&& other != id ==> after.get(other) == m.sessions.get(other)
        }),
{
}

/// A datagram changes no session but the one it is for.
pub proof fn law_feed_leaves_others(
    m: ManagerView,
    datagram: Seq<u8>,
    local: SocketAddress,
    remote: SocketAddress,
    now: u64,
    other: u32,
)
    requires
        datagram.len() >= 4 ==> other != wire::be_u32(datagram, 0),
    ensures
        feed_outcome(m, datagram, local, remote, now).0.sessions.get(other) == m.sessions.get(
            other,
        ),
{
}

/// After idle sessions were looked for, none is left that is idle, and none is
/// gone that is not.
pub proof fn law_clean_ends_the_idle(
    sessions: Map<u32, InterView>,
    timeout_ms: u64,
    now: u64,
    id: u32,
)
    ensures
        busy(sessions, timeout_ms, now).contains_key(id) <==> sessions.contains_key(id)
            && !is_idle(sessions[id], timeout_ms, now),
        idle(sessions, timeout_ms, now).contains_key(id) <==> sessions.contains_key(id)
            && is_idle(sessions[id], timeout_ms, now),
        busy(sessions, timeout_ms, now).contains_key(id) ==> busy(sessions, timeout_ms, now)[id]
            == sessions[id],
{
}

/// A session ends when nothing was read or written for longer than the timeout,
/// and not before.
pub proof fn law_sessions_end_after_the_timeout(
    sessions: Map<u32, InterView>,
    timeout_ms: u64,
    now: u64,
    id: u32,
)
    requires
        sessions.contains_key(id),
    ensures
        now <= sessions[id].last_active + timeout_ms ==> busy(
            sessions,
            timeout_ms,
            now,
        ).contains_key(id) && !idle(sessions, timeout_ms, now).contains_key(id),
        now > sessions[id].last_active + timeout_ms ==> idle(
            sessions,
            timeout_ms,
            now,
        ).contains_key(id) && !busy(sessions, timeout_ms, now).contains_key(id),
{
}

/// A datagram of less than four bytes changes nothing. Any other one is for the
/// session whose number its first four bytes are, which gets the rest; where
/// there is none, one is opened, with room for a thousand and twenty-four
/// datagrams, that counts as used from then on.
pub proof fn law_datagrams_find_their_session(
    m: ManagerView,
    datagram: Seq<u8>,
    local: SocketAddress,
    remote: SocketAddress,
    now: u64,
)
    ensures
        ({
            let (after, f) = feed_outcome(m, datagram, local, remote, now);
            let id = datagram[0] * 16_777_216 + datagram[1] * 65_536 + datagram[2] * 256
                + datagram[3];
            let known = m.sessions.contains_key(id as u32);
            &&& datagram.len() < 4 ==> after == m && f == Fed::Ignored
            &&& datagram.len() >= 4 ==> after.sessions.contains_key(id as u32)
            &&& datagram.len() >= 4 && known ==> {
                let was = m.sessions[id as u32];
                let now_is = after.sessions[id as u32];
                &&& f == Fed::Delivered(id as u32)
                &&& now_is == InterView { queue: now_is.queue, ..was }
                &&& now_is.queue == if !was.closed && was.queue.len() < was.capacity {
                    was.queue.push(datagram.skip(4))
                } else {
                    was.queue
                }
            }
            &&& datagram.len() >= 4 && !known ==> {
                let now_is = after.sessions[id as u32];
                &&& f == Fed::Opened(id as u32)
                &&& now_is.queue == seq![datagram.skip(4)]
                &&& now_is.id == id
                &&& now_is.local == local && now_is.remote == remote
                &&& !now_is.closed && !now_is.forget
                &&& now_is.last_active == now
                &&& now_is.capacity == 1024
            }
            &&& after.next_id == m.next_id && after.closed == m.closed && after.idle_timeout_ms
                == m.idle_timeout_ms
        }),
{
    if datagram.len() >= 4 {
        let id = wire::be_u32(datagram, 0);
        let after = feed_outcome(m, datagram, local, remote, now).0;
        if !m.sessions.contains_key(id) {
            assert(after.sessions[id].queue =~= seq![datagram.skip(4)]);
        }
    }
}

} // verus!
