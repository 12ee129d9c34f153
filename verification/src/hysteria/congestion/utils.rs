//! Choosing how to decide.

use vstd::prelude::*;

use crate::hysteria::congestion::bbr::bbr_sender::{fresh_bbr, BbrSender, BbrView};
use crate::hysteria::congestion::bbr::profile::{profile_named, Profile};
use crate::hysteria::congestion::brutal::{fresh_brutal, BrutalSender, BrutalView};
use crate::hysteria::congestion::pacer::{as_signed, fits64};
use crate::hysteria::error::{HysteriaError, Result};
use crate::text::{lower, same_text, to_lower};

verus! {

/// The name of sending as fast as the path has shown to carry.
pub const TYPE_BBR: &'static str = "bbr";

/// The name of what QUIC does by itself.
pub const TYPE_RENO: &'static str = "reno";

/// The name of a congestion control in lower case; no name stands for the
/// first of the two.
pub fn normalize_type(s: &str) -> (r: Result<String>)
    ensures
        match r {
            Ok(name) => {
                ||| (lower(s@) == ""@ || lower(s@) == "bbr"@) && name@ == "bbr"@
                ||| lower(s@) == "reno"@ && name@ == "reno"@
            },
            Err(HysteriaError::UnsupportedCongestionType(name)) => {
                &&& lower(s@) != ""@ && lower(s@) != "bbr"@ && lower(s@) != "reno"@
                &&& name@ == lower(s@)
            },
            Err(_) => false,
        },
{
    let name: String = to_lower(s);
    if same_text(name.as_str(), "") || same_text(name.as_str(), "bbr") {
        Ok("bbr".to_owned())
    } else if same_text(name.as_str(), "reno") {
        Ok("reno".to_owned())
    } else {
        Err(HysteriaError::UnsupportedCongestionType(name))
    }
}

/// The name of a profile in lower case.
pub fn normalize_bbr_profile(s: &str) -> (r: Result<&'static str>)
    ensures
        match r {
            Ok(name) => profile_named(s@) is Some && name@ == profile_named(s@).unwrap().name(),
            Err(HysteriaError::UnsupportedBbrProfile(name)) => {
                &&& profile_named(s@) is None
                &&& name@ == lower(s@)
            },
            Err(_) => false,
        },
{
    match Profile::parse(s) {
        Ok(p) => Ok(p.as_str()),
        Err(e) => Err(e),
    }
}

/// A sender of either kind.
pub enum Sender {
    Bbr(BbrSender),
    Brutal(BrutalSender),
}

/// The contents of a sender of either kind.
pub enum SenderView {
    Bbr(BbrView),
    Brutal(BrutalView),
}

impl View for Sender {
    type V = SenderView;

    open spec fn view(&self) -> SenderView {
        match self {
            Sender::Bbr(s) => SenderView::Bbr(s@),
            Sender::Brutal(s) => SenderView::Brutal(s@),
        }
    }
}

/// Congestion controls, in the order in which they were set.
pub type Installs = Seq<SenderView>;

/// Something that sends by a congestion control, such as a connection.
pub trait CongestionSetter {
    /// The congestion controls that were set, the last one at the end.
    spec fn installs(&self) -> Installs;

    /// Sets the congestion control.
    fn set_congestion_control(&mut self, cc: Sender)
        ensures
            final(self).installs() == old(self).installs().push(cc@),
    ;
}

/// Lets a connection send as fast as the path has shown to carry.
pub fn use_bbr<S: CongestionSetter>(setter: &mut S, initial_packet_size: i64, profile: Profile)
    requires
        fits64(100 * initial_packet_size),
    ensures
        final(setter).installs() == old(setter).installs().push(
            SenderView::Bbr(fresh_bbr(initial_packet_size, profile)),
        ),
{
    setter.set_congestion_control(Sender::Bbr(BbrSender::new(initial_packet_size, profile)));
}

/// Lets a connection send at a fixed rate, in bytes per second.
pub fn use_brutal<S: CongestionSetter>(
    setter: &mut S,
    tx_bps: u64,
    disable_loss_compensation: bool,
)
    ensures
        final(setter).installs() == old(setter).installs().push(
            SenderView::Brutal(
                fresh_brutal(as_signed(tx_bps) as i64, !disable_loss_compensation),
            ),
        ),
{
    let sender = BrutalSender::with_compensation(tx_bps, !disable_loss_compensation);
    setter.set_congestion_control(Sender::Brutal(sender));
}

/// Lets a connection send by the congestion control of that name: what QUIC
/// does by itself is left alone, and every other name stands for sending as
/// fast as the path has shown to carry.
pub fn use_configured<S: CongestionSetter>(
    setter: &mut S,
    congestion_type: &str,
    bbr_profile: &str,
    initial_packet_size: i64,
) -> (r: Result<()>)
    requires
        lower(congestion_type@) != "reno"@ && profile_named(bbr_profile@) is Some ==> fits64(
            100 * initial_packet_size,
        ),
    ensures
        r is Ok <==> lower(congestion_type@) == "reno"@ || profile_named(bbr_profile@) is Some,
        r matches Err(e) ==> (e matches HysteriaError::UnsupportedBbrProfile(name) && name@
            == lower(bbr_profile@)),
        final(setter).installs() == if lower(congestion_type@) == "reno"@ || r is Err {
            old(setter).installs()
        } else {
            old(setter).installs().push(
                SenderView::Bbr(
                    fresh_bbr(initial_packet_size, profile_named(bbr_profile@)->0),
                ),
            )
        },
{
    if same_text(to_lower(congestion_type).as_str(), "reno") {
        return Ok(());
    }
    match Profile::parse(bbr_profile) {
        Ok(profile) => {
            use_bbr(setter, initial_packet_size, profile);
            Ok(())
        },
        Err(e) => Err(e),
    }
}

/// What both ends of a connection have come to send by.
#[derive(Debug, Clone, Copy, PartialEq, Eq, Structural)]
pub enum Choice {
    /// What QUIC does by itself.
    Keep,
    /// As fast as the path has shown to carry.
    Bbr(Profile),
    /// At a fixed rate, in bytes per second.
    Brutal(u64),
}

/// The choice of a profile by its name.
pub open spec fn bbr_choice(bbr_profile: Seq<char>) -> Option<Choice> {
    match profile_named(bbr_profile) {
        Some(profile) => Some(Choice::Bbr(profile)),
        None => None,
    }
}

/// Whether a congestion control of that name asks for a fixed rate.
pub open spec fn wants_rate(name: Seq<char>) -> bool {
    name == ""@ || name == "brutal"@ || name == "force-brutal"@
}

/// What the settings of one end and the rate `down` at which the other end
/// receives come to: a fixed rate is the smaller one of the two rates, and
/// where one of them is not known the path decides. Nothing where the
/// congestion control or the profile that is needed has no such name.
pub open spec fn negotiation(
    congestion: Seq<char>,
    bbr_profile: Seq<char>,
    brutal_up: u64,
    down: u64,
) -> Option<Choice> {
    let name = lower(congestion);
    if name == "reno"@ {
        Some(Choice::Keep)
    } else if name == "bbr"@ {
        bbr_choice(bbr_profile)
    } else if wants_rate(name) {
        if brutal_up == 0 || down == 0 {
            bbr_choice(bbr_profile)
        } else {
            Some(Choice::Brutal(vstd::math::min(brutal_up as int, down as int) as u64))
        }
    } else {
        None
    }
}

/// Whether `e` tells why the two ends come to nothing.
pub open spec fn refuses_negotiation(
    e: HysteriaError,
    congestion: Seq<char>,
    bbr_profile: Seq<char>,
) -> bool {
    let name = lower(congestion);
    if name == "bbr"@ || wants_rate(name) {
        e matches HysteriaError::UnsupportedBbrProfile(p) && p@ == lower(bbr_profile)
    } else {
        e matches HysteriaError::UnsupportedCongestionType(c) && c@ == name
    }
}

/// What the settings of one end and the rate at which the other end receives
/// come to.
pub fn negotiated(congestion: &str, bbr_profile: &str, brutal_up: u64, down: u64) -> (r: Result<
    Choice,
>)
    ensures
        match r {
            Ok(choice) => negotiation(congestion@, bbr_profile@, brutal_up, down) == Some(choice),
            Err(e) => {
                &&& negotiation(congestion@, bbr_profile@, brutal_up, down) is None
                &&& refuses_negotiation(e, congestion@, bbr_profile@)
            },
        },
{
    let name: String = to_lower(congestion);
    if same_text(name.as_str(), "reno") {
        return Ok(Choice::Keep);
    }
    let bbr: bool = same_text(name.as_str(), "bbr");
    let rate: bool = same_text(name.as_str(), "") || same_text(name.as_str(), "brutal")
        || same_text(name.as_str(), "force-brutal");
    if !bbr && !rate {
        return Err(HysteriaError::UnsupportedCongestionType(name));
    }
    if bbr || brutal_up == 0 || down == 0 {
        match Profile::parse(bbr_profile) {
            Ok(profile) => Ok(Choice::Bbr(profile)),
            Err(e) => Err(e),
        }
    } else if brutal_up < down {
        Ok(Choice::Brutal(brutal_up))
    } else {
        Ok(Choice::Brutal(down))
    }
}

/// What is set for a choice.
pub open spec fn chosen(
    choice: Choice,
    disable_loss_compensation: bool,
    initial_packet_size: i64,
) -> Installs {
    match choice {
        Choice::Keep => Seq::empty(),
        Choice::Bbr(profile) => seq![SenderView::Bbr(fresh_bbr(initial_packet_size, profile))],
        Choice::Brutal(rate) => seq![
            SenderView::Brutal(fresh_brutal(as_signed(rate) as i64, !disable_loss_compensation)),
        ],
    }
}

/// Lets a connection send by what both ends have come to. Where they come to
/// nothing, it sends as before.
pub fn apply_negotiated<S: CongestionSetter>(
    setter: &mut S,
    congestion: &str,
    bbr_profile: &str,
    brutal_up: u64,
    down: u64,
    disable_loss_compensation: bool,
    initial_packet_size: i64,
) -> (r: Result<()>)
    requires
        negotiation(congestion@, bbr_profile@, brutal_up, down) matches Some(Choice::Bbr(_))
            ==> fits64(100 * initial_packet_size),
    ensures
        match negotiation(congestion@, bbr_profile@, brutal_up, down) {
            Some(choice) => {
                &&& r is Ok
                &&& final(setter).installs() == old(setter).installs() + chosen(
                    choice,
                    disable_loss_compensation,
                    initial_packet_size,
                )
            },
            None => {
                &&& r matches Err(e) && refuses_negotiation(e, congestion@, bbr_profile@)
                &&& final(setter).installs() == old(setter).installs()
            },
        },
{
    match negotiated(congestion, bbr_profile, brutal_up, down) {
        Ok(choice) => {
            match choice {
                Choice::Keep => {},
                Choice::Bbr(profile) => use_bbr(setter, initial_packet_size, profile),
                Choice::Brutal(rate) => use_brutal(setter, rate, disable_loss_compensation),
            }
            Ok(())
        },
        Err(e) => Err(e),
    }
}

/// A fixed rate is some rate, and never more than either end can do.
pub proof fn law_rate_suits_both_ends(
    congestion: Seq<char>,
    bbr_profile: Seq<char>,
    brutal_up: u64,
    down: u64,
    rate: u64,
)
    requires
        negotiation(congestion, bbr_profile, brutal_up, down) == Some(Choice::Brutal(rate)),
    ensures
        0 < rate <= brutal_up,
        rate <= down,
{
}

/// Where neither end names a control, or one of them asks for a fixed rate, both
/// rates count: the connection is kept to the smaller one, whatever the profile.
/// Where a rate is missing the path decides, by the profile.
pub proof fn law_both_rates_fix_the_rate(
    congestion: Seq<char>,
    bbr_profile: Seq<char>,
    brutal_up: u64,
    down: u64,
)
    requires
        lower(congestion) == ""@ || lower(congestion) == "brutal"@ || lower(congestion)
            == "force-brutal"@,
    ensures
        brutal_up > 0 && down > 0 ==> {
            &&& negotiation(congestion, bbr_profile, brutal_up, down) matches Some(
                Choice::Brutal(rate),
            ) && rate <= brutal_up && rate <= down && (rate == brutal_up || rate == down)
        },
        brutal_up == 0 || down == 0 ==> {
            &&& profile_named(bbr_profile) matches Some(p) ==> negotiation(
                congestion,
                bbr_profile,
                brutal_up,
                down,
            ) == Some(Choice::Bbr(p))
            &&& profile_named(bbr_profile) is None ==> negotiation(
                congestion,
                bbr_profile,
                brutal_up,
                down,
            ) is None
        },
{
    reveal_strlit("");
    reveal_strlit("brutal");
    reveal_strlit("force-brutal");
    reveal_strlit("reno");
    reveal_strlit("bbr");
    assert(""@.len() == 0);
    assert("reno"@.len() == 4);
    assert("bbr"@.len() == 3);
    assert("brutal"@.len() == 6);
    assert("force-brutal"@.len() == 12);
}

/// A control that is named and asks for no rate does not look at the rates.
pub proof fn law_named_control_ignores_rates(
    congestion: Seq<char>,
    bbr_profile: Seq<char>,
    brutal_up: u64,
    down: u64,
)
    ensures
        lower(congestion) == "reno"@ ==> negotiation(congestion, bbr_profile, brutal_up, down)
            == Some(Choice::Keep),
        lower(congestion) == "bbr"@ ==> {
            &&& profile_named(bbr_profile) matches Some(p) ==> negotiation(
                congestion,
                bbr_profile,
                brutal_up,
                down,
            ) == Some(Choice::Bbr(p))
            &&& profile_named(bbr_profile) is None ==> negotiation(
                congestion,
                bbr_profile,
                brutal_up,
                down,
            ) is None
        },
        lower(congestion) != "reno"@ && lower(congestion) != "bbr"@ && lower(congestion) != ""@
            && lower(congestion) != "brutal"@ && lower(congestion) != "force-brutal"@
            ==> negotiation(congestion, bbr_profile, brutal_up, down) is None,
{
    reveal_strlit("reno");
    reveal_strlit("bbr");
    assert("bbr"@.len() == 3);
    assert("reno"@.len() == 4);
}

} // verus!
