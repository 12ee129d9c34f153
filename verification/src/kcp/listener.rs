//! Connections that others open, told apart by who sends and by conversation.

use vstd::prelude::*;

use crate::kcp::config::Config;
use crate::kcp::connection::{
    action_views, fresh, input_outcome, released, terminate_actions, Action, ActionView,
    ConnMetadata, ConnView, Connection,
};
use crate::kcp::io::PacketReader;
use crate::kcp::segment::{segment_views, Command, Segment, SegmentView};
use crate::net::SocketAddress;

verus! {

/// What tells the sessions of a listener apart.
#[derive(Debug, Clone, Copy, PartialEq, Eq, Structural, Hash)]
pub struct ConnectionId {
    pub remote: SocketAddress,
    pub conv: u16,
}

impl ConnectionId {
    /// The session of that peer and conversation.
    pub fn new(remote: SocketAddress, conv: u16) -> (id: Self)
        ensures
            id == (ConnectionId { remote, conv }),
    {
        ConnectionId { remote, conv }
    }
}

/// A session.
pub struct Session {
    pub id: ConnectionId,
    pub conn: Connection,
}

/// The contents of a session.
pub struct SessionView {
    pub id: ConnectionId,
    pub conn: ConnView,
}

impl View for Session {
    type V = SessionView;

    open spec fn view(&self) -> SessionView {
        SessionView { id: self.id, conn: self.conn@ }
    }
}

/// The contents of sessions.
pub open spec fn session_views(sessions: Seq<Session>) -> Seq<SessionView> {
    Seq::new(sessions.len(), |i: int| sessions[i]@)
}

/// The contents of a [`Listener`].
pub struct ListenerView {
    /// The sessions, the oldest first.
    pub sessions: Seq<SessionView>,
    pub closed: bool,
    pub config: Config,
    pub local: Option<SocketAddress>,
}

/// Where the session of that name stands, the number of sessions where there
/// is none.
pub open spec fn index_of(sessions: Seq<SessionView>, id: ConnectionId) -> nat
    decreases sessions.len(),
{
    if sessions.len() == 0 || sessions[0].id == id {
        0
    } else {
        1 + index_of(sessions.skip(1), id)
    }
}

/// No two sessions have the same name.
pub open spec fn distinct(sessions: Seq<SessionView>) -> bool {
    forall|i: int, j: int|
        0 <= i < j < sessions.len() ==> (#[trigger] sessions[i]).id != (#[trigger] sessions[j]).id
}

/// The session that a datagram belongs to.
pub open spec fn addressed(segs: Seq<SegmentView>, src: SocketAddress) -> ConnectionId {
    ConnectionId { remote: src, conv: segs[0].conv() }
}

/// The connection that a peer opens.
pub open spec fn opened(l: ListenerView, id: ConnectionId) -> ConnView {
    fresh(
        ConnMetadata { conv: id.conv, local_addr: l.local, remote_addr: Some(id.remote) },
        l.config,
    )
}

/// What came of a datagram.
pub ghost enum Receipt {
    /// It is dropped.
    Dropped,
    /// A session opened and took it in.
    Opened(ConnectionId, Seq<ActionView>),
    /// A session that was there took it in.
    Routed(ConnectionId, Seq<ActionView>),
}

/// What a listener does with a datagram: it goes to the session that its first
/// segment names. Where there is none yet, one is opened, unless the segment
/// ends a conversation.
pub open spec fn receive_outcome(
    l: ListenerView,
    segs: Seq<SegmentView>,
    src: SocketAddress,
    now: u32,
) -> (ListenerView, Receipt) {
    if segs.len() == 0 {
        (l, Receipt::Dropped)
    } else {
        let id = addressed(segs, src);
        let at = index_of(l.sessions, id) as int;
        if at < l.sessions.len() {
            let (conn, actions) = input_outcome(l.sessions[at].conn, segs, now);
            (
                ListenerView { sessions: l.sessions.update(at, SessionView { id, conn }), ..l },
                Receipt::Routed(id, actions),
            )
        } else if segs[0].command() == Command::Terminate {
            (l, Receipt::Dropped)
        } else {
            let (conn, actions) = input_outcome(opened(l, id), segs, now);
            (
                ListenerView { sessions: l.sessions.push(SessionView { id, conn }), ..l },
                Receipt::Opened(id, seq![ActionView::WakePing] + actions),
            )
        }
    }
}

/// The listener without the session of that name.
pub open spec fn without(l: ListenerView, id: ConnectionId) -> ListenerView {
    let at = index_of(l.sessions, id) as int;
    if at < l.sessions.len() {
        ListenerView { sessions: l.sessions.remove(at), ..l }
    } else {
        l
    }
}

/// What came of a datagram.
#[derive(Debug)]
pub enum Received {
    /// It is dropped.
    Dropped,
    /// A session opened and took it in.
    Opened(ConnectionId, Vec<Action>),
    /// A session that was there took it in.
    Routed(ConnectionId, Vec<Action>),
}

impl View for Received {
    type V = Receipt;

    open spec fn view(&self) -> Receipt {
        match self {
            Received::Dropped => Receipt::Dropped,
            Received::Opened(id, out) => Receipt::Opened(*id, action_views(out@)),
            Received::Routed(id, out) => Receipt::Routed(*id, action_views(out@)),
        }
    }
}

impl Received {
    /// Whether a session took the datagram in.
    pub fn accepted(&self) -> (b: bool)
        ensures
            b == !(self@ is Dropped),
    {
        !matches!(self, Received::Dropped)
    }
}

/// A session that ends with its listener, and what is to be done for it.
pub struct Ended {
    pub session: Session,
    pub actions: Vec<Action>,
}

/// The sessions that peers have opened.
pub struct Listener<R: PacketReader> {
    pub sessions: Vec<Session>,
    pub closed: bool,
    pub config: Config,
    pub local: Option<SocketAddress>,
    pub reader: R,
}

impl<R: PacketReader> View for Listener<R> {
    type V = ListenerView;

    open spec fn view(&self) -> ListenerView {
        ListenerView {
            sessions: session_views(self.sessions@),
            closed: self.closed,
            config: self.config,
            local: self.local,
        }
    }
}

proof fn lemma_index_of(sessions: Seq<SessionView>, id: ConnectionId)
    ensures
        index_of(sessions, id) <= sessions.len(),
        index_of(sessions, id) < sessions.len() ==> sessions[index_of(sessions, id) as int].id
            == id,
        forall|i: int| 0 <= i < index_of(sessions, id) ==> (#[trigger] sessions[i]).id != id,
    decreases sessions.len(),
{
    if sessions.len() > 0 && sessions[0].id != id {
        let rest = sessions.skip(1);
        lemma_index_of(rest, id);
        assert forall|i: int| 0 <= i < index_of(sessions, id) implies (#[trigger] sessions[i]).id
            != id by {
            if i > 0 {
                assert(rest[i - 1] == sessions[i]);
            }
        }
    }
}

impl<R: PacketReader> Listener<R> {
    /// Every connection is well formed, and no two sessions have one name.
    pub open spec fn wf(&self) -> bool {
        &&& forall|i: int| 0 <= i < self.sessions@.len() ==> (#[trigger] self.sessions@[i]).conn.wf()
        &&& distinct(self@.sessions)
    }

    /// A listener at that address, with no sessions.
    pub fn new(reader: R, config: Config, local: Option<SocketAddress>) -> (l: Self)
        ensures
            l.wf(),
            l.reader == reader,
            l@ == (ListenerView { sessions: Seq::empty(), closed: false, config, local }),
    {
        let l = Listener { sessions: Vec::new(), closed: false, config, local, reader };
        assert(l@.sessions =~= Seq::empty());
        l
    }

    fn find(&self, id: ConnectionId) -> (at: usize)
        ensures
            at == index_of(self@.sessions, id),
            at <= self.sessions@.len(),
    {
        let mut i: usize = 0;
        assert(self@.sessions.skip(0) =~= self@.sessions);
        while i < self.sessions.len()
            invariant
                i <= self.sessions@.len(),
                i + index_of(self@.sessions.skip(i as int), id) == index_of(self@.sessions, id),
            decreases self.sessions@.len() - i,
        {
            assert(self@.sessions.skip(i as int)[0] == self.sessions@[i as int]@);
            if self.sessions[i].id == id {
                return i;
            }
            assert(self@.sessions.skip(i as int).skip(1) =~= self@.sessions.skip(i + 1));
            i += 1;
        }
        i
    }

    /// Takes a datagram in that came from `src`.
    pub fn on_receive(&mut self, payload: &[u8], src: SocketAddress, now: u32) -> (r: Received)
        requires
            old(self).wf(),
        ensures
            final(self).wf(),
            final(self).reader == old(self).reader,
            (final(self)@, r@) == receive_outcome(
                old(self)@,
                old(self).reader.segments_of(payload@),
                src,
                now,
            ),
    {
        let segments = self.reader.read(payload);
        let ghost segs = segment_views(segments@);
        let ghost l = self@;
        if segments.len() == 0 {
            return Received::Dropped;
        }
        let conv: u16 = segments[0].conversation();
        let ending: bool = segments[0].command() == Command::Terminate;
        let id = ConnectionId::new(src, conv);
        assert(id == addressed(segs, src));
        let at: usize = self.find(id);
        proof {
            lemma_index_of(l.sessions, id);
        }
        if at < self.sessions.len() {
            let mut session = self.sessions.remove(at);
            let out = session.conn.input(segments, now);
            self.sessions.insert(at, session);
            proof {
                assert(session_views(self.sessions@) =~= l.sessions.update(at as int, session@));
                assert forall|i: int| 0 <= i < self.sessions@.len() implies (
                #[trigger] self.sessions@[i]).conn.wf() by {
                    if i != at {
                        assert(self.sessions@[i] == old(self).sessions@[i]);
                    }
                }
            }
            Received::Routed(id, out)
        } else if ending {
            Received::Dropped
        } else {
            let meta = ConnMetadata { conv, local_addr: self.local, remote_addr: Some(src) };
            let (mut conn, mut out) = Connection::new(meta, self.config);
            let mut more = conn.input(segments, now);
            let ghost ping = action_views(out@);
            let ghost actions = action_views(more@);
            out.append(&mut more);
            self.sessions.push(Session { id, conn });
            proof {
                assert(action_views(out@) =~= ping + actions);
                assert(session_views(self.sessions@) =~= l.sessions.push(
                    SessionView { id, conn: conn@ },
                ));
                assert forall|i: int| 0 <= i < self.sessions@.len() implies (
                #[trigger] self.sessions@[i]).conn.wf() by {
                    if i < l.sessions.len() {
                        assert(self.sessions@[i] == old(self).sessions@[i]);
                    }
                }
            }
            Received::Opened(id, out)
        }
    }

    /// Takes in what the socket gave. Nothing is returned where the socket has
    /// ended.
    pub fn handle_one_packet(
        &mut self,
        received: Option<(&[u8], SocketAddress)>,
        now: u32,
    ) -> (r: Option<Received>)
        requires
            old(self).wf(),
        ensures
            final(self).wf(),
            final(self).reader == old(self).reader,
            match (received, r) {
                (Some((payload, src)), Some(got)) => (final(self)@, got@) == receive_outcome(
                    old(self)@,
                    old(self).reader.segments_of(payload@),
                    src,
                    now,
                ),
                (None, None) => final(self)@ == old(self)@,
                _ => false,
            },
    {
        match received {
            Some((payload, src)) => Some(self.on_receive(payload, src, now)),
            None => None,
        }
    }

    /// Forgets a session and hands its connection back.
    pub fn remove(&mut self, id: &ConnectionId) -> (r: Option<Connection>)
        requires
            old(self).wf(),
        ensures
            final(self).wf(),
            final(self).reader == old(self).reader,
            final(self)@ == without(old(self)@, *id),
            r is Some <==> index_of(old(self)@.sessions, *id) < old(self)@.sessions.len(),
            r matches Some(conn) ==> {
                &&& conn.wf()
                &&& conn@ == old(self)@.sessions[index_of(old(self)@.sessions, *id) as int].conn
            },
    {
        let at: usize = self.find(*id);
        let ghost l = self@;
        if at < self.sessions.len() {
            assert(old(self).sessions@[at as int].conn.wf());
            let session = self.sessions.remove(at);
            proof {
                assert(session_views(self.sessions@) =~= l.sessions.remove(at as int));
                assert forall|i: int| 0 <= i < self.sessions@.len() implies (
                #[trigger] self.sessions@[i]).conn.wf() by {
                    let from = if i < at {
                        i
                    } else {
                        i + 1
                    };
                    assert(self.sessions@[i] == old(self).sessions@[from]);
                }
            }
            Some(session.conn)
        } else {
            None
        }
    }

    /// The number of sessions.
    pub fn active_connections(&self) -> (n: usize)
        ensures
            n == self@.sessions.len(),
    {
        self.sessions.len()
    }

    /// Closes the listener: every session ends. The socket is to be closed.
    pub fn close(&mut self) -> (r: Vec<Ended>)
        requires
            old(self).wf(),
        ensures
            final(self).wf(),
            final(self).reader == old(self).reader,
            final(self)@ == (ListenerView { sessions: Seq::empty(), closed: true, ..old(self)@ }),
            r@.len() == old(self)@.sessions.len(),
            forall|i: int|
                0 <= i < r@.len() ==> {
                    let was = old(self)@.sessions[i];
                    let ended = #[trigger] r@[i];
                    &&& ended.session.conn.wf()
                    &&& ended.session@ == (SessionView { id: was.id, conn: released(was.conn) })
                    &&& action_views(ended.actions@) == terminate_actions()
                },
    {
        self.closed = true;
        let mut out: Vec<Ended> = Vec::new();
        let ghost all = self.sessions@;
        while self.sessions.len() > 0
            invariant
                self.sessions@ == all.skip(out@.len() as int),
                out@.len() <= all.len(),
                forall|i: int| 0 <= i < all.len() ==> (#[trigger] all[i]).conn.wf(),
                self.closed,
                self.config == old(self).config,
                self.local == old(self).local,
                self.reader == old(self).reader,
                forall|i: int|
                    0 <= i < out@.len() ==> {
                        let was = all[i]@;
                        let ended = #[trigger] out@[i];
                        &&& ended.session.conn.wf()
                        &&& ended.session@ == (SessionView {
                            id: was.id,
                            conn: released(was.conn),
                        })
                        &&& action_views(ended.actions@) == terminate_actions()
                    },
            decreases self.sessions@.len(),
        {
            assert(self.sessions@[0] == all[out@.len() as int]);
            let mut session = self.sessions.remove(0);
            assert(self.sessions@ =~= all.skip((out@.len() + 1) as int));
            let actions = session.conn.terminate();
            out.push(Ended { session, actions });
        }
        assert(self@.sessions =~= Seq::empty());
        assert(out@.len() == all.len());
        out
    }

    /// The address that the listener is bound to.
    pub fn local_addr(&self) -> (a: Option<SocketAddress>)
        ensures
            a == self@.local,
    {
        self.local
    }
}

/// Writes the segments of one session.
#[derive(Debug, Clone, Copy, PartialEq, Eq, Structural)]
pub struct ListenerWriter {
    pub id: ConnectionId,
}

impl ListenerWriter {
    /// Writes for that session.
    pub fn new(id: ConnectionId) -> (w: Self)
        ensures
            w.id == id,
    {
        ListenerWriter { id }
    }

    /// The datagram that a segment travels in, and whom it goes to.
    pub fn write_segment<S: Segment>(&self, seg: &S) -> (r: (Vec<u8>, SocketAddress))
        requires
            seg.wire().len() <= usize::MAX,
        ensures
            r.0@ == seg.wire(),
            r.1 == self.id.remote,
    {
        let size: usize = seg.byte_size();
        let mut buf: Vec<u8> = vec![0u8; size];
        seg.serialize(buf.as_mut_slice());
        assert(buf@ =~= seg.wire());
        (buf, self.id.remote)
    }
}

/// A datagram changes at most the session that it is for: all others stay as
/// they were.
pub proof fn law_sessions_are_separate(
    l: ListenerView,
    segs: Seq<SegmentView>,
    src: SocketAddress,
    now: u32,
    i: int,
)
    requires
        0 <= i < l.sessions.len(),
        segs.len() > 0 ==> l.sessions[i].id != addressed(segs, src),
    ensures
        receive_outcome(l, segs, src, now).0.sessions[i] == l.sessions[i],
{
    if segs.len() > 0 {
        lemma_index_of(l.sessions, addressed(segs, src));
    }
}

/// After a datagram that a session took in, there is exactly one session of
/// its name, and never more than one session more than before.
pub proof fn law_one_session_per_name(
    l: ListenerView,
    segs: Seq<SegmentView>,
    src: SocketAddress,
    now: u32,
)
    requires
        distinct(l.sessions),
    ensures
        ({
            let (after, receipt) = receive_outcome(l, segs, src, now);
            &&& distinct(after.sessions)
            &&& l.sessions.len() <= after.sessions.len() <= l.sessions.len() + 1
            &&& !(receipt is Dropped) ==> index_of(after.sessions, addressed(segs, src))
                < after.sessions.len()
            &&& receipt is Dropped ==> after == l
        }),
{
    if segs.len() > 0 {
        let id = addressed(segs, src);
        lemma_index_of(l.sessions, id);
        let after = receive_outcome(l, segs, src, now).0;
        lemma_index_of(after.sessions, id);
        let at = index_of(l.sessions, id) as int;
        if at < l.sessions.len() {
            assert(after.sessions[at].id == id);
        } else if !(segs[0].command() == Command::Terminate) {
            assert(after.sessions[at].id == id);
        }
    }
}

/// A session that was removed is no longer there.
pub proof fn law_removed_is_gone(l: ListenerView, id: ConnectionId)
    requires
        distinct(l.sessions),
    ensures
        index_of(without(l, id).sessions, id) == without(l, id).sessions.len(),
        distinct(without(l, id).sessions),
{
    lemma_index_of(l.sessions, id);
    lemma_index_of(without(l, id).sessions, id);
    let at = index_of(l.sessions, id) as int;
    if at < l.sessions.len() {
        let left = without(l, id).sessions;
        assert(l.sessions[at].id == id);
        if index_of(left, id) < left.len() {
            let k = index_of(left, id) as int;
            if k < at {
                assert(left[k] == l.sessions[k]);
            } else {
                assert(left[k] == l.sessions[k + 1]);
            }
        }
    }
}

/// A datagram goes to the session of the peer that sent it and of the
/// conversation of its first segment, where there is one, even where it ends the
/// conversation. The session takes in all of its segments.
pub proof fn law_datagram_reaches_its_session(
    l: ListenerView,
    segs: Seq<SegmentView>,
    src: SocketAddress,
    now: u32,
    i: int,
)
    requires
        distinct(l.sessions),
        segs.len() > 0,
        0 <= i < l.sessions.len(),
        l.sessions[i].id.remote == src,
        l.sessions[i].id.conv == segs[0].conv(),
    ensures
        ({
            let (after, receipt) = receive_outcome(l, segs, src, now);
            let (conn, actions) = input_outcome(l.sessions[i].conn, segs, now);
            &&& after.sessions.len() == l.sessions.len()
            &&& after.sessions[i].conn == conn
            &&& after.sessions[i].id == l.sessions[i].id
            &&& receipt == Receipt::Routed(l.sessions[i].id, actions)
            &&& after.closed == l.closed && after.config == l.config && after.local == l.local
        }),
{
    let id = addressed(segs, src);
    lemma_index_of(l.sessions, id);
    assert(l.sessions[i].id == id);
    let at = index_of(l.sessions, id) as int;
    if at < i {
        assert(l.sessions[at].id != l.sessions[i].id);
    }
}

/// A datagram of a peer and a conversation that no session is for opens one,
/// after all others, with that peer and the listener's settings, and the new
/// session takes it in. One that ends a conversation opens none, and nothing
/// changes.
pub proof fn law_stranger_opens_a_session(
    l: ListenerView,
    segs: Seq<SegmentView>,
    src: SocketAddress,
    now: u32,
)
    requires
        segs.len() > 0,
        forall|i: int|
            0 <= i < l.sessions.len() ==> (#[trigger] l.sessions[i]).id.remote != src
                || l.sessions[i].id.conv != segs[0].conv(),
    ensures
        ({
            let (after, receipt) = receive_outcome(l, segs, src, now);
            let meta = ConnMetadata {
                conv: segs[0].conv(),
                local_addr: l.local,
                remote_addr: Some(src),
            };
            let id = ConnectionId { remote: src, conv: segs[0].conv() };
            let (conn, actions) = input_outcome(fresh(meta, l.config), segs, now);
            &&& segs[0].command() != Command::Terminate ==> {
                &&& after.sessions.len() == l.sessions.len() + 1
                &&& after.sessions.drop_last() == l.sessions
                &&& after.sessions.last().id == id
                &&& after.sessions.last().conn == conn
                &&& receipt matches Receipt::Opened(name, out) && name == id && out.skip(1)
                    == actions && out.len() > 0 && out[0] == ActionView::WakePing
            }
            &&& segs[0].command() == Command::Terminate ==> after == l && receipt is Dropped
            &&& after.closed == l.closed && after.config == l.config && after.local == l.local
        }),
{
    let id = addressed(segs, src);
    lemma_index_of(l.sessions, id);
    let at = index_of(l.sessions, id) as int;
    if at < l.sessions.len() {
        assert(l.sessions[at].id == id);
    }
    let (after, _) = receive_outcome(l, segs, src, now);
    let (_, actions) = input_outcome(opened(l, id), segs, now);
    assert((seq![ActionView::WakePing] + actions).skip(1) =~= actions);
    if segs[0].command() != Command::Terminate {
        assert(after.sessions.drop_last() =~= l.sessions);
    }
}

/// Removing a session leaves the others, in their order.
pub proof fn law_removing_leaves_the_others(l: ListenerView, id: ConnectionId, i: int)
    requires
        distinct(l.sessions),
        0 <= i < l.sessions.len(),
    ensures
        ({
            let left = without(l, id).sessions;
            &&& l.sessions[i].id != id ==> left.contains(l.sessions[i])
            &&& l.sessions[i].id == id ==> left.len() == l.sessions.len() - 1
        }),
{
    lemma_index_of(l.sessions, id);
    let at = index_of(l.sessions, id) as int;
    let left = without(l, id).sessions;
    if l.sessions[i].id != id {
        if at < l.sessions.len() {
            if i < at {
                assert(left[i] == l.sessions[i]);
            } else {
                assert(left[i - 1] == l.sessions[i]);
            }
        } else {
            assert(left[i] == l.sessions[i]);
        }
    } else if at >= l.sessions.len() {
        assert(l.sessions[i].id != id);
    }
}

} // verus!
