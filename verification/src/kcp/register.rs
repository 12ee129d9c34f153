//! The settings of the transport in a JSON document.

use vstd::prelude::*;

use crate::json::{bad_data, bad_input, Json, Refusal, SettingsError};
use crate::kcp::config::{default_config, default_settings, Config};
use crate::text::{decimal, join, push_decimal, push_signed_decimal, signed_decimal};

verus! {

/// The name of the transport.
pub const PROTOCOL_NAME: &'static str = "mkcp";

/// The number of a setting, in 32 bits; `present` where it is not given.
pub open spec fn number_setting(
    settings: Json,
    name: Seq<char>,
    present: u32,
) -> core::result::Result<u32, Refusal> {
    match settings.field(name) {
        None => Ok(present),
        Some(v) => match v.signed() {
            None => Err(bad_data("kcpSettings."@ + name + " must be a number"@)),
            Some(n) => if n < 0 {
                Err(
                    bad_data(
                        "kcpSettings."@ + name + " must be non-negative (got "@ + signed_decimal(
                            n as int,
                        ) + ")"@,
                    ),
                )
            } else {
                Ok((n % 0x1_0000_0000) as u32)
            },
        },
    }
}

fn read_number(settings: &Json, name: &str, present: u32) -> (r: core::result::Result<
    u32,
    SettingsError,
>)
    ensures
        match r {
            Ok(n) => number_setting(*settings, name@, present) == Ok::<u32, Refusal>(n),
            Err(e) => number_setting(*settings, name@, present) == Err::<u32, Refusal>(e@),
        },
{
    match settings.get(name) {
        None => Ok(present),
        Some(v) => match v.as_i64() {
            None => {
                let mut message: String = join("kcpSettings.", name);
                message.append(" must be a number");
                Err(SettingsError::data(message.as_str()))
            },
            Some(n) => if n < 0 {
                let mut message: String = join("kcpSettings.", name);
                message.append(" must be non-negative (got ");
                push_signed_decimal(&mut message, n);
                message.append(")");
                Err(SettingsError::data(message.as_str()))
            } else {
                Ok((n % 0x1_0000_0000) as u32)
            },
        },
    }
}

/// The refusal of settings that no connection can work with.
pub open spec fn checked(c: Config) -> core::result::Result<Config, Refusal> {
    if c.mtu < 21 {
        Err(bad_data("Mtu must be at least 21"@))
    } else if c.tti < 10 || c.tti > 5000 {
        Err(bad_data("invalid mKCP TTI: "@ + decimal(c.tti as nat)))
    } else if c.cwnd_multiplier < 1 {
        Err(bad_data("CwndMultiplier must be at least 1"@))
    } else if c.max_sending_window < c.mtu {
        Err(bad_data("MaxSendingWindow must be >= Mtu"@))
    } else {
        Ok(c)
    }
}

/// What is said of the settings that were given up.
pub open spec fn removed_feature() -> Seq<char> {
    "The feature mkcp header & seed has been removed and migrated to finalmask/udp header-* & mkcp-original & mkcp-aes128gcm. Please update your config(s) according to release note and documentation."@
}

/// The settings that a JSON document gives, or why it is refused. The first
/// fault in the order of the fields decides.
pub open spec fn settings_of(json: Option<Json>) -> core::result::Result<Config, Refusal> {
    let d = default_settings();
    match json {
        None => Ok(d),
        Some(v) => if !(v is Object) {
            Err(bad_data("kcpSettings must be a JSON object"@))
        } else if v.field("header"@) is Some || v.field("seed"@) is Some {
            Err(bad_input(removed_feature()))
        } else {
            match number_setting(v, "mtu"@, d.mtu) {
                Err(e) => Err(e),
                Ok(mtu) => match number_setting(v, "tti"@, d.tti) {
                    Err(e) => Err(e),
                    Ok(tti) => match number_setting(v, "uplinkCapacity"@, d.uplink_capacity) {
                        Err(e) => Err(e),
                        Ok(uplink_capacity) => match number_setting(
                            v,
                            "downlinkCapacity"@,
                            d.downlink_capacity,
                        ) {
                            Err(e) => Err(e),
                            Ok(downlink_capacity) => match number_setting(
                                v,
                                "cwndMultiplier"@,
                                d.cwnd_multiplier,
                            ) {
                                Err(e) => Err(e),
                                Ok(cwnd_multiplier) => match number_setting(
                                    v,
                                    "maxSendingWindow"@,
                                    d.max_sending_window,
                                ) {
                                    Err(e) => Err(e),
                                    Ok(max_sending_window) => checked(
                                        Config {
                                            mtu,
                                            tti,
                                            uplink_capacity,
                                            downlink_capacity,
                                            cwnd_multiplier,
                                            max_sending_window,
                                        },
                                    ),
                                },
                            },
                        },
                    },
                },
            }
        },
    }
}

fn check(c: Config) -> (r: core::result::Result<Config, SettingsError>)
    ensures
        match r {
            Ok(x) => checked(c) == Ok::<Config, Refusal>(x),
            Err(e) => checked(c) == Err::<Config, Refusal>(e@),
        },
{
    if c.mtu < 21 {
        return Err(SettingsError::data("Mtu must be at least 21"));
    }
    if c.tti < 10 || c.tti > 5000 {
        let mut message: String = "invalid mKCP TTI: ".to_owned();
        push_decimal(&mut message, c.tti as u64);
        return Err(SettingsError::data(message.as_str()));
    }
    if c.cwnd_multiplier < 1 {
        return Err(SettingsError::data("CwndMultiplier must be at least 1"));
    }
    if c.max_sending_window < c.mtu {
        return Err(SettingsError::data("MaxSendingWindow must be >= Mtu"));
    }
    Ok(c)
}

/// Reads the settings. Where there is no document, the default settings hold.
pub fn parse_kcp_config(json: Option<&Json>) -> (r: core::result::Result<Config, SettingsError>)
    ensures
        ({
            let given = match json {
                Some(v) => Some(*v),
                None => None,
            };
            match r {
                Ok(c) => settings_of(given) == Ok::<Config, Refusal>(c),
                Err(e) => settings_of(given) == Err::<Config, Refusal>(e@),
            }
        }),
{
    let v = match json {
        None => return Ok(default_config()),
        Some(v) => v,
    };
    if !v.is_object() {
        return Err(SettingsError::data("kcpSettings must be a JSON object"));
    }
    if v.get("header").is_some() || v.get("seed").is_some() {
        return Err(
            SettingsError::input(
                "The feature mkcp header & seed has been removed and migrated to finalmask/udp header-* & mkcp-original & mkcp-aes128gcm. Please update your config(s) according to release note and documentation.",
            ),
        );
    }
    let mut config = default_config();
    config.mtu = match read_number(v, "mtu", config.mtu) {
        Ok(n) => n,
        Err(e) => return Err(e),
    };
    config.tti = match read_number(v, "tti", config.tti) {
        Ok(n) => n,
        Err(e) => return Err(e),
    };
    config.uplink_capacity = match read_number(v, "uplinkCapacity", config.uplink_capacity) {
        Ok(n) => n,
        Err(e) => return Err(e),
    };
    config.downlink_capacity = match read_number(v, "downlinkCapacity", config.downlink_capacity) {
        Ok(n) => n,
        Err(e) => return Err(e),
    };
    config.cwnd_multiplier = match read_number(v, "cwndMultiplier", config.cwnd_multiplier) {
        Ok(n) => n,
        Err(e) => return Err(e),
    };
    config.max_sending_window = match read_number(
        v,
        "maxSendingWindow",
        config.max_sending_window,
    ) {
        Ok(n) => n,
        Err(e) => return Err(e),
    };
    check(config)
}

/// Settings that are accepted have a size for a data segment, a sending buffer
/// for at least one segment, and a pause between ten milliseconds and five
/// seconds.
pub proof fn law_accepted_settings_work(json: Option<Json>)
    ensures
        settings_of(json) matches Ok(c) ==> {
            &&& c.mtu >= 21
            &&& c.max_sending_window / c.mtu >= 1
            &&& 10 <= c.tti <= 5000
            &&& c.cwnd_multiplier >= 1
        },
{
    if let Ok(c) = settings_of(json) {
        assert(c.max_sending_window >= c.mtu >= 21);
        assert(c.max_sending_window / c.mtu >= 1) by (nonlinear_arith)
            requires
                c.max_sending_window >= c.mtu >= 21,
        ;
    }
}

/// Whether a document may leave that setting as it is: it does not give it, or
/// gives a whole number that is not negative.
pub open spec fn is_usable(v: Json, name: Seq<char>) -> bool {
    v.field(name) is Some ==> v.field(name)->0.signed() is Some && v.field(
        name,
    )->0.signed()->0 >= 0
}

/// A document is accepted where it is an object that names nothing which was
/// given up, where each setting that it gives is a number that is not negative,
/// and where connections can work with them. Each setting that it gives is then
/// taken, in 32 bits, and the others stay as they are by default.
pub proof fn law_given_settings_are_taken(v: Json)
    ensures
        ({
            let d = default_settings();
            let taken = settings_of(Some(v));
            let usable = v is Object && v.field("header"@) is None && v.field("seed"@) is None
                && is_usable(v, "mtu"@) && is_usable(v, "tti"@) && is_usable(v, "uplinkCapacity"@)
                && is_usable(v, "downlinkCapacity"@) && is_usable(v, "cwndMultiplier"@)
                && is_usable(v, "maxSendingWindow"@);
            let given = |name: Seq<char>, present: u32|
                match v.field(name) {
                    Some(n) => n.signed()->0 as int % 0x1_0000_0000,
                    None => present as int,
                };
            let mtu = given("mtu"@, d.mtu);
            let tti = given("tti"@, d.tti);
            let times = given("cwndMultiplier"@, d.cwnd_multiplier);
            let most = given("maxSendingWindow"@, d.max_sending_window);
            &&& taken is Ok <==> usable && mtu >= 21 && 10 <= tti <= 5000 && times >= 1 && most
                >= mtu
            &&& taken matches Ok(c) ==> {
                &&& c.mtu == mtu
                &&& c.tti == tti
                &&& c.uplink_capacity == given("uplinkCapacity"@, d.uplink_capacity)
                &&& c.downlink_capacity == given("downlinkCapacity"@, d.downlink_capacity)
                &&& c.cwnd_multiplier == times
                &&& c.max_sending_window == most
            }
        }),
{
}

} // verus!
