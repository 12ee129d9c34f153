//! Clients, and the connections that they share.

use vstd::prelude::*;

use crate::hysteria::config::{MaxDatagramFrameSize, Status};
use crate::hysteria::error::{HysteriaError, Result};
use crate::hysteria::proto_config::Config;
use crate::hysteria::quic_params::{default_hysteria_quic_params, QuicParams, QuicView};
use crate::hysteria::conn::fresh_session;
use crate::hysteria::udp_sessions::{ManagerView, UdpSessionManager};
use crate::net::SocketAddress;
use crate::text::same_text;

verus! {

/// Whom a client connects to.
#[derive(Debug, PartialEq, Eq)]
pub struct DialDestination {
    pub udp_addr: SocketAddress,
    /// The name that the server has to prove.
    pub host: String,
}

/// The settings of a QUIC connection.
#[derive(Debug, PartialEq, Eq)]
pub struct QuicConfig {
    pub initial_stream_receive_window: u64,
    pub max_stream_receive_window: u64,
    pub initial_connection_receive_window: u64,
    pub max_connection_receive_window: u64,
    pub max_idle_timeout_ms: u64,
    pub keep_alive_period_ms: u64,
    pub disable_path_mtu_discovery: bool,
    pub enable_datagrams: bool,
    pub max_datagram_frame_size: u64,
    pub max_incoming_streams: i64,
    pub congestion: String,
    pub brutal_up: u64,
    pub bbr_profile: String,
    pub brutal_disable_loss_compensation: bool,
}

/// The contents of a [`QuicConfig`].
pub ghost struct QuicConfigView {
    pub initial_stream_receive_window: u64,
    pub max_stream_receive_window: u64,
    pub initial_connection_receive_window: u64,
    pub max_connection_receive_window: u64,
    pub max_idle_timeout_ms: u64,
    pub keep_alive_period_ms: u64,
    pub disable_path_mtu_discovery: bool,
    pub enable_datagrams: bool,
    pub max_datagram_frame_size: u64,
    pub max_incoming_streams: i64,
    pub congestion: Seq<char>,
    pub brutal_up: u64,
    pub bbr_profile: Seq<char>,
    pub brutal_disable_loss_compensation: bool,
}

impl View for QuicConfig {
    type V = QuicConfigView;

    open spec fn view(&self) -> QuicConfigView {
        QuicConfigView {
            initial_stream_receive_window: self.initial_stream_receive_window,
            max_stream_receive_window: self.max_stream_receive_window,
            initial_connection_receive_window: self.initial_connection_receive_window,
            max_connection_receive_window: self.max_connection_receive_window,
            max_idle_timeout_ms: self.max_idle_timeout_ms,
            keep_alive_period_ms: self.keep_alive_period_ms,
            disable_path_mtu_discovery: self.disable_path_mtu_discovery,
            enable_datagrams: self.enable_datagrams,
            max_datagram_frame_size: self.max_datagram_frame_size,
            max_incoming_streams: self.max_incoming_streams,
            congestion: self.congestion@,
            brutal_up: self.brutal_up,
            bbr_profile: self.bbr_profile@,
            brutal_disable_loss_compensation: self.brutal_disable_loss_compensation,
        }
    }
}

/// A number, or another one where it is zero.
pub open spec fn or_default(n: u64, default: u64) -> u64 {
    if n == 0 {
        default
    } else {
        n
    }
}

/// The settings of a QUIC connection that follow from what was set: windows of
/// 8 and 20 MiB, half a minute of idleness and 1024 streams where nothing was,
/// and times in milliseconds.
pub open spec fn quic_config(p: QuicView) -> QuicConfigView {
    QuicConfigView {
        initial_stream_receive_window: or_default(p.init_stream_receive_window, 8_388_608),
        max_stream_receive_window: or_default(p.max_stream_receive_window, 8_388_608),
        initial_connection_receive_window: or_default(p.init_conn_receive_window, 20_971_520),
        max_connection_receive_window: or_default(p.max_conn_receive_window, 20_971_520),
        max_idle_timeout_ms: if p.max_idle_timeout <= 0 {
            30_000
        } else {
            (p.max_idle_timeout * 1000) as u64
        },
        keep_alive_period_ms: if p.keep_alive_period <= 0 {
            0
        } else {
            (p.keep_alive_period * 1000) as u64
        },
        disable_path_mtu_discovery: p.disable_path_mtu_discovery,
        enable_datagrams: true,
        max_datagram_frame_size: 1200,
        max_incoming_streams: if p.max_incoming_streams == 0 {
            1024
        } else {
            p.max_incoming_streams
        },
        congestion: p.congestion,
        brutal_up: p.brutal_up,
        bbr_profile: p.bbr_profile,
        brutal_disable_loss_compensation: p.brutal_disable_loss_compensation,
    }
}

fn nonzero_or(n: u64, default: u64) -> (m: u64)
    ensures
        m == or_default(n, default),
{
    if n == 0 {
        default
    } else {
        n
    }
}

/// Whether the times can be counted in milliseconds.
pub open spec fn times_fit(p: QuicView) -> bool {
    &&& p.max_idle_timeout * 1000 <= u64::MAX
    &&& p.keep_alive_period * 1000 <= u64::MAX
}

impl QuicConfig {
    /// The settings of a QUIC connection that follow from what was set.
    pub fn from_params(p: &QuicParams) -> (c: Self)
        requires
            times_fit(p@),
        ensures
            c@ == quic_config(p@),
    {
        QuicConfig {
            initial_stream_receive_window: nonzero_or(p.init_stream_receive_window, 8_388_608),
            max_stream_receive_window: nonzero_or(p.max_stream_receive_window, 8_388_608),
            initial_connection_receive_window: nonzero_or(p.init_conn_receive_window, 20_971_520),
            max_connection_receive_window: nonzero_or(p.max_conn_receive_window, 20_971_520),
            max_idle_timeout_ms: if p.max_idle_timeout <= 0 {
                30_000
            } else {
                p.max_idle_timeout as u64 * 1000
            },
            keep_alive_period_ms: if p.keep_alive_period <= 0 {
                0
            } else {
                p.keep_alive_period as u64 * 1000
            },
            disable_path_mtu_discovery: p.disable_path_mtu_discovery,
            enable_datagrams: true,
            max_datagram_frame_size: MaxDatagramFrameSize as u64,
            max_incoming_streams: if p.max_incoming_streams == 0 {
                1024
            } else {
                p.max_incoming_streams
            },
            congestion: p.congestion.clone(),
            brutal_up: p.brutal_up,
            bbr_profile: p.bbr_profile.clone(),
            brutal_disable_loss_compensation: p.brutal_disable_loss_compensation,
        }
    }

    /// The settings of a QUIC connection where nothing was set.
    pub fn default_for_hysteria() -> (c: Self)
        ensures
            c@ == quic_config(
                QuicView {
                    bbr_profile: "standard"@,
                    udp_hop: Some(crate::hysteria::quic_params::no_hop()),
                    ..crate::hysteria::quic_params::empty_params()
                },
            ),
    {
        Self::from_params(&default_hysteria_quic_params())
    }
}

/// The windows of a stream and of a connection: each the larger one of the
/// first and the largest.
pub fn receive_windows(qc: &QuicConfig) -> (w: (u64, u64))
    ensures
        w.0 == vstd::math::max(
            qc@.initial_stream_receive_window as int,
            qc@.max_stream_receive_window as int,
        ),
        w.1 == vstd::math::max(
            qc@.initial_connection_receive_window as int,
            qc@.max_connection_receive_window as int,
        ),
{
    let stream: u64 = if qc.initial_stream_receive_window > qc.max_stream_receive_window {
        qc.initial_stream_receive_window
    } else {
        qc.max_stream_receive_window
    };
    let conn: u64 = if qc.initial_connection_receive_window > qc.max_connection_receive_window {
        qc.initial_connection_receive_window
    } else {
        qc.max_connection_receive_window
    };
    (stream, conn)
}

/// The most that QUIC can write as a number.
pub const VARINT_MAX: u64 = 0x3FFF_FFFF_FFFF_FFFF;

/// What a QUIC connection is told to do otherwise than by default.
#[derive(Debug, Clone, Copy, PartialEq, Eq, Structural)]
pub struct TransportPlan {
    pub max_idle_timeout_ms: Option<u64>,
    pub keep_alive_ms: Option<u64>,
    pub datagram_receive_buffer: Option<usize>,
    pub max_streams: Option<u64>,
    pub stream_receive_window: Option<u64>,
    pub receive_window: Option<u64>,
    pub no_mtu_discovery: bool,
}

/// A number that QUIC can write, nothing where it cannot.
pub open spec fn writable(n: u64) -> Option<u64> {
    if n <= VARINT_MAX {
        Some(n)
    } else {
        None
    }
}

fn as_writable(n: u64) -> (r: Option<u64>)
    ensures
        r == writable(n),
{
    if n <= VARINT_MAX {
        Some(n)
    } else {
        None
    }
}

/// What a QUIC connection is told by its settings.
pub fn transport_plan(qc: &QuicConfig) -> (p: TransportPlan)
    ensures
        p.max_idle_timeout_ms == if qc@.max_idle_timeout_ms > 0 {
            writable(qc@.max_idle_timeout_ms)
        } else {
            None
        },
        p.keep_alive_ms == if qc@.keep_alive_period_ms > 0 {
            Some(qc@.keep_alive_period_ms)
        } else {
            None
        },
        p.datagram_receive_buffer == if qc@.enable_datagrams {
            Some(8192usize)
        } else {
            None
        },
        p.max_streams == if qc@.max_incoming_streams < 0 {
            None
        } else if qc@.max_incoming_streams <= VARINT_MAX {
            Some(qc@.max_incoming_streams as u64)
        } else {
            Some(VARINT_MAX)
        },
        p.stream_receive_window == writable(
            vstd::math::max(
                qc@.initial_stream_receive_window as int,
                qc@.max_stream_receive_window as int,
            ) as u64,
        ),
        p.receive_window == writable(
            vstd::math::max(
                qc@.initial_connection_receive_window as int,
                qc@.max_connection_receive_window as int,
            ) as u64,
        ),
        p.no_mtu_discovery == qc@.disable_path_mtu_discovery,
{
    let (stream, conn) = receive_windows(qc);
    TransportPlan {
        max_idle_timeout_ms: if qc.max_idle_timeout_ms > 0 {
            as_writable(qc.max_idle_timeout_ms)
        } else {
            None
        },
        keep_alive_ms: if qc.keep_alive_period_ms > 0 {
            Some(qc.keep_alive_period_ms)
        } else {
            None
        },
        datagram_receive_buffer: if qc.enable_datagrams {
            Some(8192)
        } else {
            None
        },
        max_streams: if qc.max_incoming_streams < 0 {
            None
        } else {
            match as_writable(qc.max_incoming_streams as u64) {
                Some(n) => Some(n),
                None => Some(VARINT_MAX),
            }
        },
        stream_receive_window: as_writable(stream),
        receive_window: as_writable(conn),
        no_mtu_discovery: qc.disable_path_mtu_discovery,
    }
}

/// A client.
pub struct HysteriaClient {
    pub dest: DialDestination,
    pub config: Config,
    pub quic_params: QuicParams,
    /// Whether there is a connection.
    pub connected: bool,
    pub status: Status,
    pub udp_sm: Option<UdpSessionManager>,
}

/// What is to be done before a client can be used.
#[derive(Debug, PartialEq, Eq)]
pub enum ConnectStep {
    /// Nothing.
    Ready,
    /// A connection is to be opened, and where there is one, closed before.
    Dial { close_first: bool, quic_config: QuicConfig, auth: String, brutal_down: u64 },
}

impl HysteriaClient {
    /// No two sessions have the same number.
    pub open spec fn wf(&self) -> bool {
        self.udp_sm matches Some(m) ==> m.wf()
    }

    /// Whether the two clients have the same destination and settings.
    pub open spec fn same_settings(&self, other: &Self) -> bool {
        &&& self.dest == other.dest
        &&& self.config == other.config
        &&& self.quic_params == other.quic_params
    }

    /// Where the client stands.
    pub open spec fn standing(&self) -> Status {
        if self.connected {
            self.status
        } else {
            Status::Null
        }
    }

    /// The sessions, none of them where there were none yet.
    pub open spec fn sessions_before(&self) -> ManagerView {
        match self.udp_sm {
            Some(m) => m@,
            None => ManagerView {
                sessions: Map::empty(),
                next_id: 1,
                closed: false,
                idle_timeout_ms: idle_ms(self.config@.udp_idle_timeout),
            },
        }
    }

    /// A client that has never connected.
    pub fn new(dest: DialDestination, config: Config, quic_params: QuicParams) -> (c: Self)
        ensures
            c.wf(),
            c == (HysteriaClient {
                dest,
                config,
                quic_params,
                connected: false,
                status: Status::Null,
                udp_sm: None,
            }),
    {
        HysteriaClient {
            dest,
            config,
            quic_params,
            connected: false,
            status: Status::Null,
            udp_sm: None,
        }
    }

    /// Where the client stands.
    pub fn status(&self) -> (s: Status)
        ensures
            s == self.standing(),
    {
        if self.connected {
            self.status
        } else {
            Status::Null
        }
    }

    /// Closes the client: whether there is a connection to be closed, without
    /// an error.
    pub fn close(&mut self) -> (b: bool)
        requires
            old(self).wf(),
        ensures
            final(self).wf(),
            b == old(self).connected,
            *final(self) == hung_up(*old(self)),
    {
        let had: bool = self.connected;
        self.connected = false;
        self.udp_sm = None;
        self.status = Status::Null;
        had
    }

    /// Makes sure that there is a connection: what is to be done for it. A
    /// connection that has failed is closed first.
    pub fn ensure_connected(&mut self) -> (s: ConnectStep)
        requires
            old(self).wf(),
            old(self).standing() != Status::Active ==> times_fit(old(self).quic_params@),
        ensures
            final(self).wf(),
            final(self).same_settings(old(self)),
            match s {
                ConnectStep::Ready => {
                    &&& old(self).standing() == Status::Active
                    &&& *final(self) == *old(self)
                },
                ConnectStep::Dial { close_first, quic_config: qc, auth, brutal_down } => {
                    &&& old(self).standing() != Status::Active
                    &&& close_first == (old(self).standing() == Status::Inactive)
                    &&& qc@ == quic_config(old(self).quic_params@)
                    &&& auth@ == old(self).config@.auth
                    &&& brutal_down == old(self).quic_params@.brutal_down
                    &&& *final(self) == if close_first {
                        hung_up(*old(self))
                    } else {
                        *old(self)
                    }
                },
            },
    {
        let mut close_first: bool = false;
        match self.status() {
            Status::Active => return ConnectStep::Ready,
            Status::Inactive => {
                close_first = self.close();
            },
            Status::Null => {},
        }
        ConnectStep::Dial {
            close_first,
            quic_config: QuicConfig::from_params(&self.quic_params),
            auth: self.config.auth.clone(),
            brutal_down: self.quic_params.brutal_down,
        }
    }

    /// What came of opening a connection.
    pub fn dialed(&mut self, outcome: core::result::Result<(), String>) -> (r: Result<()>)
        requires
            old(self).wf(),
        ensures
            final(self).wf(),
            match outcome {
                Ok(_) => {
                    &&& r is Ok
                    &&& *final(self) == (HysteriaClient {
                        connected: true,
                        status: Status::Active,
                        ..*old(self)
                    })
                },
                Err(text) => {
                    &&& r matches Err(HysteriaError::Io(t)) && t == text
                    &&& *final(self) == *old(self)
                },
            },
    {
        match outcome {
            Ok(()) => {
                self.connected = true;
                self.status = Status::Active;
                Ok(())
            },
            Err(text) => Err(HysteriaError::Io(text)),
        }
    }

    /// A new UDP session: its number, and whether its connection's datagrams
    /// are to be read from now on.
    pub fn udp(&mut self, local: SocketAddress, remote: SocketAddress, now: u64) -> (r: Result<
        (u32, bool),
    >)
        requires
            old(self).wf(),
        ensures
            final(self).wf(),
            final(self).same_settings(old(self)),
            final(self).connected == old(self).connected,
            final(self).status == old(self).status,
            r is Ok <==> old(self).connected && (old(self).udp_sm matches Some(m)
                ==> !m@.closed),
            match r {
                Ok((id, fresh)) => {
                    let m = old(self).sessions_before();
                    &&& fresh == (old(self).udp_sm is None)
                    &&& id == m.next_id
                    &&& final(self).udp_sm is Some
                    &&& final(self).udp_sm->0@ == (ManagerView {
                        sessions: m.sessions.insert(
                            id,
                            fresh_session(local, remote, id, 1024, now, true),
                        ),
                        next_id: ((id + 1) % 0x1_0000_0000) as u32,
                        ..m
                    })
                },
                Err(e) => {
                    &&& e is ConnectionClosed
                    &&& final(self).udp_sm is Some <==> old(self).udp_sm is Some
                    &&& old(self).udp_sm matches Some(m) ==> final(self).udp_sm->0@ == m@
                },
            },
    {
        if !self.connected {
            return Err(HysteriaError::ConnectionClosed);
        }
        let mut fresh: bool = false;
        let mut manager = match self.udp_sm.take() {
            Some(m) => m,
            None => {
                fresh = true;
                UdpSessionManager::new(idle_timeout(self.config.udp_idle_timeout))
            },
        };
        match manager.create_session(local, remote, now) {
            Ok((id, _)) => {
                self.udp_sm = Some(manager);
                Ok((id, fresh))
            },
            Err(e) => {
                self.udp_sm = Some(manager);
                Err(e)
            },
        }
    }
}

/// A number of seconds in milliseconds, as far as it fits; less than none is
/// none.
pub open spec fn idle_ms(secs: i64) -> u64 {
    if secs <= 0 {
        0
    } else if secs * 1000 > u64::MAX {
        u64::MAX
    } else {
        (secs * 1000) as u64
    }
}

fn idle_timeout(secs: i64) -> (ms: u64)
    ensures
        ms == idle_ms(secs),
{
    if secs <= 0 {
        0
    } else {
        let product: u128 = secs as u128 * 1000;
        if product > 0xFFFF_FFFF_FFFF_FFFF {
            0xFFFF_FFFF_FFFF_FFFF
        } else {
            product as u64
        }
    }
}

/// What tells clients apart.
pub ghost struct ClientKey {
    pub host: Seq<char>,
    pub addr: SocketAddress,
}

/// What tells a destination apart: its name, and its address as it is written.
pub open spec fn key_of(d: DialDestination) -> ClientKey {
    ClientKey { host: d.host@, addr: d.udp_addr.spec_written() }
}

/// Where the client of that destination stands, the number of clients where
/// there is none.
pub open spec fn client_at(clients: Seq<HysteriaClient>, key: ClientKey) -> nat
    decreases clients.len(),
{
    if clients.len() == 0 || key_of(clients[0].dest) == key {
        0
    } else {
        1 + client_at(clients.skip(1), key)
    }
}

/// No two clients have the same destination.
pub open spec fn keyed(clients: Seq<HysteriaClient>) -> bool {
    forall|i: int, j: int|
        0 <= i < j < clients.len() ==> key_of((#[trigger] clients[i]).dest) != key_of(
            (#[trigger] clients[j]).dest,
        )
}

/// The clients, one for each destination.
pub struct ClientManager {
    pub clients: Vec<HysteriaClient>,
}

proof fn lemma_client_at(clients: Seq<HysteriaClient>, key: ClientKey)
    ensures
        client_at(clients, key) <= clients.len(),
        client_at(clients, key) < clients.len() ==> key_of(
            clients[client_at(clients, key) as int].dest,
        ) == key,
        forall|i: int|
            0 <= i < client_at(clients, key) ==> key_of((#[trigger] clients[i]).dest) != key,
    decreases clients.len(),
{
    if clients.len() > 0 && key_of(clients[0].dest) != key {
        let rest = clients.skip(1);
        lemma_client_at(rest, key);
        assert forall|i: int| 0 <= i < client_at(clients, key) implies key_of(
            (#[trigger] clients[i]).dest,
        ) != key by {
            if i > 0 {
                assert(rest[i - 1] == clients[i]);
            }
        }
    }
}

/// The clients that have not failed.
pub open spec fn working(clients: Seq<HysteriaClient>) -> Seq<HysteriaClient>
    decreases clients.len(),
{
    if clients.len() == 0 {
        Seq::empty()
    } else {
        let rest = working(clients.drop_last());
        if clients.last().standing() == Status::Inactive {
            rest
        } else {
            rest.push(clients.last())
        }
    }
}

/// A client whose connection is closed.
pub open spec fn hung_up(c: HysteriaClient) -> HysteriaClient {
    HysteriaClient { connected: false, status: Status::Null, udp_sm: None, ..c }
}

/// The clients that have failed, with their connections closed.
pub open spec fn failed(clients: Seq<HysteriaClient>) -> Seq<HysteriaClient>
    decreases clients.len(),
{
    if clients.len() == 0 {
        Seq::empty()
    } else {
        let rest = failed(clients.drop_last());
        if clients.last().standing() == Status::Inactive {
            rest.push(hung_up(clients.last()))
        } else {
            rest
        }
    }
}

proof fn lemma_working(clients: Seq<HysteriaClient>)
    requires
        keyed(clients),
    ensures
        keyed(working(clients)),
        forall|i: int|
            0 <= i < working(clients).len() ==> exists|k: int|
                0 <= k < clients.len() && #[trigger] clients[k] == #[trigger] working(clients)[i],
    decreases clients.len(),
{
    if clients.len() > 0 {
        let less = clients.drop_last();
        let rest = working(less);
        let all = working(clients);
        assert(keyed(less)) by {
            assert forall|i: int, j: int| 0 <= i < j < less.len() implies key_of(
                (#[trigger] less[i]).dest,
            ) != key_of((#[trigger] less[j]).dest) by {
                assert(less[i] == clients[i]);
                assert(less[j] == clients[j]);
            }
        }
        lemma_working(less);
        assert forall|i: int| 0 <= i < all.len() implies exists|k: int|
            0 <= k < clients.len() && #[trigger] clients[k] == #[trigger] all[i] by {
            if i < rest.len() {
                let k = choose|k: int| 0 <= k < less.len() && #[trigger] less[k] == rest[i];
                assert(clients[k] == all[i]);
            } else {
                assert(clients[clients.len() - 1] == all[i]);
            }
        }
        assert forall|i: int, j: int| 0 <= i < j < all.len() implies key_of(
            (#[trigger] all[i]).dest,
        ) != key_of((#[trigger] all[j]).dest) by {
            if j < rest.len() {
                assert(all[i] == rest[i] && all[j] == rest[j]);
            } else {
                let k = choose|k: int| 0 <= k < less.len() && #[trigger] less[k] == rest[i];
                assert(all[i] == clients[k]);
                assert(all[j] == clients[clients.len() - 1]);
            }
        }
    }
}

impl ClientManager {
    /// Every client is well formed, and no two have the same destination.
    pub open spec fn wf(&self) -> bool {
        &&& keyed(self.clients@)
        &&& forall|i: int| 0 <= i < self.clients@.len() ==> (#[trigger] self.clients@[i]).wf()
    }

    /// No clients.
    pub fn new() -> (m: Self)
        ensures
            m.wf(),
            m.clients@.len() == 0,
    {
        ClientManager { clients: Vec::new() }
    }

    /// The position of the client of that destination. It is made where there
    /// is none; otherwise what is given with the destination does not matter.
    pub fn get_or_create(&mut self, dest: DialDestination, config: Config, quic_params: QuicParams) -> (at: usize)
        requires
            old(self).wf(),
        ensures
            final(self).wf(),
            at == client_at(old(self).clients@, key_of(dest)),
            final(self).clients@ == if at < old(self).clients@.len() {
                old(self).clients@
            } else {
                old(self).clients@.push(
                    HysteriaClient {
                        dest,
                        config,
                        quic_params,
                        connected: false,
                        status: Status::Null,
                        udp_sm: None,
                    },
                )
            },
            at < final(self).clients@.len(),
            key_of(final(self).clients@[at as int].dest) == key_of(dest),
    {
        let ghost before = self.clients@;
        let ghost key = key_of(dest);
        let mut i: usize = 0;
        assert(before.skip(0) =~= before);
        proof {
            lemma_client_at(before, key);
        }
        while i < self.clients.len()
            invariant
                i <= before.len(),
                self.clients@ == before,
                self.wf(),
                key == key_of(dest),
                i + client_at(before.skip(i as int), key) == client_at(before, key),
            decreases before.len() - i,
        {
            assert(before.skip(i as int)[0] == before[i as int]);
            if self.clients[i].dest.udp_addr.written() == dest.udp_addr.written() && same_text(
                self.clients[i].dest.host.as_str(),
                dest.host.as_str(),
            ) {
                return i;
            }
            assert(before.skip(i as int).skip(1) =~= before.skip(i + 1));
            i += 1;
        }
        self.clients.push(HysteriaClient::new(dest, config, quic_params));
        i
    }

    /// Closes and forgets the clients that have failed, and hands them back:
    /// each of them had a connection, which is to be closed.
    pub fn clean_inactive(&mut self) -> (ended: Vec<HysteriaClient>)
        requires
            old(self).wf(),
        ensures
            final(self).wf(),
            final(self).clients@ == working(old(self).clients@),
            ended@ == failed(old(self).clients@),
    {
        let ghost all = self.clients@;
        let mut kept: Vec<HysteriaClient> = Vec::new();
        let mut ended: Vec<HysteriaClient> = Vec::new();
        let ghost done: int = 0;
        assert(kept@ =~= working(all.take(0)));
        assert(ended@ =~= failed(all.take(0)));
        while self.clients.len() > 0
            invariant
                0 <= done <= all.len(),
                self.clients@ == all.skip(done),
                forall|i: int| 0 <= i < all.len() ==> (#[trigger] all[i]).wf(),
                kept@ == working(all.take(done)),
                forall|i: int| 0 <= i < kept@.len() ==> (#[trigger] kept@[i]).wf(),
                ended@ == failed(all.take(done)),
            decreases self.clients@.len(),
        {
            let mut client = self.clients.remove(0);
            proof {
                assert(client == all[done]);
                assert(self.clients@ =~= all.skip(done + 1));
                assert(all.take(done + 1).drop_last() =~= all.take(done));
            }
            if client.status() == Status::Inactive {
                let _ = client.close();
                ended.push(client);
            } else {
                kept.push(client);
            }
            proof {
                done = done + 1;
            }
        }
        proof {
            assert(all.take(done) =~= all);
            lemma_working(all);
        }
        self.clients = kept;
        ended
    }

    /// The number of clients.
    pub fn len(&self) -> (n: usize)
        ensures
            n == self.clients@.len(),
    {
        self.clients.len()
    }
}

/// Asking for a client again gives the same one.
pub proof fn law_clients_are_shared(
    clients: Seq<HysteriaClient>,
    made: HysteriaClient,
    key: ClientKey,
)
    requires
        client_at(clients, key) == clients.len(),
        key_of(made.dest) == key,
    ensures
        client_at(clients.push(made), key) == clients.len(),
{
    lemma_client_at(clients, key);
    lemma_client_at(clients.push(made), key);
    let all = clients.push(made);
    assert(key_of(all[clients.len() as int].dest) == key);
    let at = client_at(all, key) as int;
    if at < clients.len() {
        assert(all[at] == clients[at]);
    }
}

/// Every client stays or is closed and handed back: those that stay have not
/// failed, and each of those that are handed back had a connection.
pub proof fn law_failed_clients_are_closed(clients: Seq<HysteriaClient>)
    ensures
        working(clients).len() + failed(clients).len() == clients.len(),
        forall|i: int|
            0 <= i < working(clients).len() ==> (#[trigger] working(clients)[i]).standing()
                != Status::Inactive,
        forall|i: int|
            0 <= i < failed(clients).len() ==> exists|k: int|
                0 <= k < clients.len() && (#[trigger] clients[k]).connected
                    && clients[k].standing() == Status::Inactive && #[trigger] failed(clients)[i]
                    == hung_up(clients[k]),
    decreases clients.len(),
{
    if clients.len() > 0 {
        let less = clients.drop_last();
        law_failed_clients_are_closed(less);
        assert forall|i: int| 0 <= i < failed(clients).len() implies exists|k: int|
            0 <= k < clients.len() && (#[trigger] clients[k]).connected && clients[k].standing()
                == Status::Inactive && #[trigger] failed(clients)[i] == hung_up(clients[k]) by {
            if i < failed(less).len() {
                let k = choose|k: int|
                    0 <= k < less.len() && (#[trigger] less[k]).connected && less[k].standing()
                        == Status::Inactive && failed(less)[i] == hung_up(less[k]);
                assert(clients[k] == less[k]);
                assert(failed(clients)[i] == hung_up(clients[k]));
            } else {
                let k = clients.len() - 1;
                assert(failed(clients)[i] == hung_up(clients[k]));
            }
        }
    }
}

/// Opens no connections.
#[derive(Debug)]
pub struct StubDialerFactory;

impl StubDialerFactory {
    /// Every connection is refused.
    pub fn dial_tcp(&self, _dest: &DialDestination) -> (r: Result<()>)
        ensures
            r matches Err(e) && e is ConnectionClosed,
    {
        Err(HysteriaError::ConnectionClosed)
    }

    /// Every session is refused.
    pub fn dial_udp(&self, _dest: &DialDestination) -> (r: Result<()>)
        ensures
            r matches Err(e) && e is ConnectionClosed,
    {
        Err(HysteriaError::ConnectionClosed)
    }
}

/// What a QUIC connection gets: what was set, and where nothing was, windows of
/// eight and twenty mebibytes, half a minute of idleness, no pings and a thousand
/// and twenty-four streams. Seconds become milliseconds.
pub proof fn law_unset_settings_have_defaults(p: QuicView)
    requires
        times_fit(p),
    ensures
        ({
            let c = quic_config(p);
            &&& c.initial_stream_receive_window == if p.init_stream_receive_window > 0 {
                p.init_stream_receive_window as int
            } else {
                0x80_0000
            }
            &&& c.max_stream_receive_window == if p.max_stream_receive_window > 0 {
                p.max_stream_receive_window as int
            } else {
                0x80_0000
            }
            &&& c.initial_connection_receive_window == if p.init_conn_receive_window > 0 {
                p.init_conn_receive_window as int
            } else {
                0x140_0000
            }
            &&& c.max_connection_receive_window == if p.max_conn_receive_window > 0 {
                p.max_conn_receive_window as int
            } else {
                0x140_0000
            }
            &&& p.max_idle_timeout > 0 ==> c.max_idle_timeout_ms == 1000 * p.max_idle_timeout
            &&& p.max_idle_timeout <= 0 ==> c.max_idle_timeout_ms == 30 * 1000
            &&& p.keep_alive_period > 0 ==> c.keep_alive_period_ms == 1000 * p.keep_alive_period
            &&& p.keep_alive_period <= 0 ==> c.keep_alive_period_ms == 0
            &&& p.max_incoming_streams != 0 ==> c.max_incoming_streams == p.max_incoming_streams
            &&& p.max_incoming_streams == 0 ==> c.max_incoming_streams == 1024
            &&& c.enable_datagrams && c.max_datagram_frame_size == 1200
            &&& c.disable_path_mtu_discovery == p.disable_path_mtu_discovery
            &&& c.congestion == p.congestion && c.bbr_profile == p.bbr_profile
            &&& c.brutal_up == p.brutal_up
            &&& c.brutal_disable_loss_compensation == p.brutal_disable_loss_compensation
        }),
{
}

/// QUIC can write the numbers of sixty-two bits, and no others.
pub proof fn law_writable_numbers(n: u64)
    ensures
        n < 0x4000_0000_0000_0000 ==> writable(n) == Some(n),
        n >= 0x4000_0000_0000_0000 ==> writable(n) is None,
{
}

/// The time after which sessions end, in milliseconds: a thousand for each
/// second, as far as that can be counted; nothing for a time that is not given.
pub proof fn law_idle_time_in_milliseconds(secs: i64)
    ensures
        secs <= 0 ==> idle_ms(secs) == 0,
        secs > 0 ==> idle_ms(secs) == vstd::math::min(secs * 1000, u64::MAX as int),
{
}

/// A client is found under its own destination, where no earlier one has the
/// same, and a destination that no client has is found nowhere.
pub proof fn law_clients_are_found(clients: Seq<HysteriaClient>, key: ClientKey, i: int)
    ensures
        keyed(clients) && 0 <= i < clients.len() && key_of(clients[i].dest) == key ==> client_at(
            clients,
            key,
        ) == i,
        (forall|k: int| 0 <= k < clients.len() ==> key_of((#[trigger] clients[k]).dest) != key)
            ==> client_at(clients, key) == clients.len(),
{
    lemma_client_at(clients, key);
    let at = client_at(clients, key) as int;
    if keyed(clients) && 0 <= i < clients.len() && key_of(clients[i].dest) == key {
        if at < i {
            assert(key_of(clients[at].dest) != key_of(clients[i].dest));
        } else if i < at {
            assert(key_of(clients[i].dest) != key);
        }
    }
    if at < clients.len() && (forall|k: int|
        0 <= k < clients.len() ==> key_of((#[trigger] clients[k]).dest) != key) {
        assert(key_of(clients[at].dest) != key);
    }
}

/// Two destinations are the same client's where their names are and their
/// addresses are, the flow aside.
pub proof fn law_destinations_differ_by_name_and_address(a: DialDestination, b: DialDestination)
    ensures
        key_of(a) == key_of(b) <==> a.host@ == b.host@ && a.udp_addr.spec_written()
            == b.udp_addr.spec_written(),
{
}

/// Only a client with a connection that has failed is closed: every other one
/// stays as it is, in order, and every one that has failed is handed back with
/// its connection closed.
pub proof fn law_only_failed_clients_go(clients: Seq<HysteriaClient>, k: int)
    requires
        0 <= k < clients.len(),
    ensures
        !(clients[k].connected && clients[k].status == Status::Inactive) ==> working(
            clients,
        ).contains(clients[k]),
        clients[k].connected && clients[k].status == Status::Inactive ==> exists|i: int|
            0 <= i < failed(clients).len() && (#[trigger] failed(clients)[i]).dest
                == clients[k].dest && !failed(clients)[i].connected && failed(clients)[i].status
                == Status::Null && failed(clients)[i].udp_sm is None,
    decreases clients.len(),
{
    let less = clients.drop_last();
    if k < less.len() {
        law_only_failed_clients_go(less, k);
        assert(less[k] == clients[k]);
        if !(clients[k].connected && clients[k].status == Status::Inactive) {
            let i = choose|i: int| 0 <= i < working(less).len() && working(less)[i] == clients[k];
            assert(working(clients)[i] == clients[k]);
        } else {
            let i = choose|i: int|
                0 <= i < failed(less).len() && (#[trigger] failed(less)[i]).dest == clients[k].dest
                    && !failed(less)[i].connected && failed(less)[i].status == Status::Null
                    && failed(less)[i].udp_sm is None;
            assert(failed(clients)[i] == failed(less)[i]);
        }
    } else if clients[k].connected && clients[k].status == Status::Inactive {
        assert(failed(clients)[failed(less).len() as int] == hung_up(clients[k]));
    } else {
        assert(working(clients)[working(less).len() as int] == clients[k]);
    }
}

} // verus!
