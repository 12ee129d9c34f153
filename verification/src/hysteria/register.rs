//! What a listener and a client need, from the settings of a stream.

use vstd::prelude::*;

use crate::hysteria::dialer::DialDestination;
use crate::hysteria::hub::{masquerade_of, MasqType, MasqView};
use crate::hysteria::obfs::{obfs_of, parse_udp_obfs, told, ObfsView, UdpObfs};
use crate::hysteria::proto_config::{self, parse_hysteria_config, Config, ConfigView};
use crate::hysteria::quic_params::{
    self, default_hysteria_quic_params, empty_params, no_hop, parse_quic_params, QuicParams,
    QuicView,
};
use crate::json::{bad_input, ErrorKind, Json, Refusal, SettingsError};
use crate::net::{port_of, IpAddress, SocketAddress};
use crate::text::{join, lower};

verus! {

/// The name of the transport.
pub const PROTOCOL_NAME: &'static str = "hysteria";

/// Whom a stream goes to.
#[derive(Debug, PartialEq, Eq)]
pub enum Address {
    Ip(IpAddress),
    /// A name.
    Domain(String),
}

/// The address of a destination; a name is refused.
pub open spec fn resolved(dest: Address, port: u16) -> core::result::Result<SocketAddress, Refusal> {
    match dest {
        Address::Ip(ip) => Ok(port_of(ip, port)),
        Address::Domain(_) => Err(
            bad_input(
                "hysteria requires IP address destination (domain not supported yet, needs DNS resolution)"@,
            ),
        ),
    }
}

/// The address of a destination.
pub fn resolve_dest_to_socket_addr(dest: &Address, port: u16) -> (r: core::result::Result<
    SocketAddress,
    SettingsError,
>)
    ensures
        match r {
            Ok(a) => resolved(*dest, port) == Ok::<SocketAddress, Refusal>(a),
            Err(e) => resolved(*dest, port) == Err::<SocketAddress, Refusal>(e@),
        },
{
    match dest {
        Address::Ip(ip) => Ok(SocketAddress::new(*ip, port)),
        Address::Domain(_) => Err(
            SettingsError::input(
                "hysteria requires IP address destination (domain not supported yet, needs DNS resolution)",
            ),
        ),
    }
}

/// What a document may give, as a value.
pub open spec fn given(json: Option<&Json>) -> Option<Json> {
    match json {
        Some(v) => Some(*v),
        None => None,
    }
}

/// The settings of QUIC, the default ones where none are given.
pub open spec fn params_or_default(json: Option<Json>) -> core::result::Result<QuicView, Refusal> {
    match quic_params::settings_of(json) {
        Err(e) => Err(e),
        Ok(Some(p)) => Ok(p),
        Ok(None) => Ok(
            QuicView {
                bbr_profile: "standard"@,
                udp_hop: Some(no_hop()),
                ..empty_params()
            },
        ),
    }
}

/// The settings of QUIC, the default ones where none are given.
pub fn quic_params_or_default(finalmask_json: Option<&Json>) -> (r: core::result::Result<
    QuicParams,
    SettingsError,
>)
    ensures
        match r {
            Ok(p) => params_or_default(given(finalmask_json)) == Ok::<QuicView, Refusal>(p@),
            Err(e) => params_or_default(given(finalmask_json)) == Err::<QuicView, Refusal>(e@),
        },
{
    match parse_quic_params(finalmask_json) {
        Err(e) => Err(e),
        Ok(Some(p)) => Ok(p),
        Ok(None) => Ok(default_hysteria_quic_params()),
    }
}

/// What a listener needs.
#[derive(Debug)]
pub struct ListenPlan {
    pub obfs: Option<UdpObfs>,
    pub config: Config,
    pub quic_params: QuicParams,
    pub masq: MasqType,
}

/// The contents of a [`ListenPlan`].
pub ghost struct ListenView {
    pub obfs: Option<ObfsView>,
    pub config: ConfigView,
    pub quic_params: QuicView,
    pub masq: MasqView,
}

impl View for ListenPlan {
    type V = ListenView;

    open spec fn view(&self) -> ListenView {
        ListenView {
            obfs: match self.obfs {
                Some(o) => Some(o@),
                None => None,
            },
            config: self.config@,
            quic_params: self.quic_params@,
            masq: self.masq@,
        }
    }
}

/// What a listener needs, or why the settings are refused. The first fault
/// decides: disguise, settings, QUIC, the way to answer strangers.
pub open spec fn listen_settings(
    transport: Option<Json>,
    finalmask: Option<Json>,
) -> core::result::Result<ListenView, Refusal> {
    match obfs_of(finalmask) {
        Err(e) => Err(e),
        Ok(obfs) => match proto_config::settings_of(transport) {
            Err(e) => Err(e),
            Ok(config) => match params_or_default(finalmask) {
                Err(e) => Err(e),
                Ok(quic_params) => match masquerade_of(config) {
                    None => Err(
                        Refusal {
                            kind: ErrorKind::Other,
                            message: "hysteria masq config: unknown masq type: "@ + lower(
                                config.masq_type,
                            ),
                        },
                    ),
                    Some(masq) => Ok(ListenView { obfs, config, quic_params, masq }),
                },
            },
        },
    }
}

/// Reads what a listener needs.
pub fn listen_plan(transport_json: Option<&Json>, finalmask_json: Option<&Json>) -> (r: core::result::Result<
    ListenPlan,
    SettingsError,
>)
    ensures
        match r {
            Ok(p) => listen_settings(given(transport_json), given(finalmask_json)) == Ok::<
                ListenView,
                Refusal,
            >(p@),
            Err(e) => listen_settings(given(transport_json), given(finalmask_json)) matches Err(
                owed,
            ) && if obfs_of(given(finalmask_json)) is Err {
                told(e@, owed)
            } else {
                e@ == owed
            },
        },
{
    let obfs = match parse_udp_obfs(finalmask_json) {
        Ok(o) => o,
        Err(e) => return Err(e),
    };
    let config = match parse_hysteria_config(transport_json) {
        Ok(c) => c,
        Err(e) => return Err(e),
    };
    let quic_params = match quic_params_or_default(finalmask_json) {
        Ok(p) => p,
        Err(e) => return Err(e),
    };
    let masq = match MasqType::from_config(&config) {
        Ok(m) => m,
        Err(e) => {
            let text: String = e.message();
            let message: String = join("hysteria masq config: ", text.as_str());
            assert(message@ =~= "hysteria masq config: unknown masq type: "@ + lower(
                config@.masq_type,
            )) by {
                reveal_strlit("hysteria masq config: ");
                reveal_strlit("unknown masq type: ");
                reveal_strlit("hysteria masq config: unknown masq type: ");
            }
            return Err(SettingsError { kind: ErrorKind::Other, message });
        },
    };
    Ok(ListenPlan { obfs, config, quic_params, masq })
}

/// What a client needs besides its settings.
#[derive(Debug)]
pub struct DialPlan {
    pub dest: DialDestination,
    pub obfs: Option<UdpObfs>,
    pub quic_params: QuicParams,
}

/// Reads what a client needs besides its settings: whom it connects to under
/// that name, the disguise and QUIC. The first fault decides.
pub fn dial_plan(dest: &Address, port: u16, name: &str, finalmask_json: Option<&Json>) -> (r: core::result::Result<
    DialPlan,
    SettingsError,
>)
    ensures
        ({
            let json = given(finalmask_json);
            match r {
                Ok(p) => {
                    &&& resolved(*dest, port) == Ok::<SocketAddress, Refusal>(p.dest.udp_addr)
                    &&& p.dest.host@ == name@
                    &&& obfs_of(json) == Ok::<Option<ObfsView>, Refusal>(
                        match p.obfs {
                            Some(o) => Some(o@),
                            None => None,
                        },
                    )
                    &&& params_or_default(json) == Ok::<QuicView, Refusal>(p.quic_params@)
                },
                Err(e) => match resolved(*dest, port) {
                    Err(fault) => e@ == fault,
                    Ok(_) => match obfs_of(json) {
                        Err(fault) => told(e@, fault),
                        Ok(_) => params_or_default(json) == Err::<QuicView, Refusal>(e@),
                    },
                },
            }
        }),
{
    let udp_addr = match resolve_dest_to_socket_addr(dest, port) {
        Ok(a) => a,
        Err(e) => return Err(e),
    };
    let obfs = match parse_udp_obfs(finalmask_json) {
        Ok(o) => o,
        Err(e) => return Err(e),
    };
    let quic_params = match quic_params_or_default(finalmask_json) {
        Ok(p) => p,
        Err(e) => return Err(e),
    };
    Ok(DialPlan { dest: DialDestination { udp_addr, host: name.to_owned() }, obfs, quic_params })
}

/// An IP address is a destination, with the port; a name is not.
pub proof fn law_only_addresses_are_reached(dest: Address, port: u16)
    ensures
        dest matches Address::Ip(ip) ==> (resolved(dest, port) matches Ok(a) && a == port_of(
            ip,
            port,
        ) && a.spec_port() == port),
        dest is Domain ==> resolved(dest, port) is Err,
{
}

/// A listener gets its disguise and the settings of QUIC from the one document,
/// its own settings from the other, and the way to answer strangers from those;
/// it is refused where any of them is.
pub proof fn law_listeners_get_their_settings(transport: Option<Json>, finalmask: Option<Json>)
    ensures
        ({
            let obfs = obfs_of(finalmask);
            let config = proto_config::settings_of(transport);
            let quic = quic_params::settings_of(finalmask);
            let got = listen_settings(transport, finalmask);
            &&& got is Ok <==> obfs is Ok && config is Ok && quic is Ok && masquerade_of(
                config->Ok_0,
            ) is Some
            &&& got matches Ok(l) ==> {
                &&& l.obfs == obfs->Ok_0
                &&& l.config == config->Ok_0
                &&& quic->Ok_0 matches Some(p) ==> l.quic_params == p
                &&& quic->Ok_0 is None ==> l.quic_params.bbr_profile == "standard"@
                    && l.quic_params.brutal_up == 0 && l.quic_params.brutal_down == 0
                    && l.quic_params.congestion.len() == 0
                &&& masquerade_of(l.config) == Some(l.masq)
            }
        }),
{
}

} // verus!
