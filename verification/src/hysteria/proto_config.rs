//! Settings.

use vstd::prelude::*;

use crate::hysteria::headers::{copy_headers, header_views, push_header, Headers};
use crate::json::{bad_input, Json, Refusal, SettingsError};

verus! {

/// The settings of the transport.
#[derive(Debug, PartialEq, Eq)]
pub struct Config {
    pub version: i32,
    /// The secret that a client shows.
    pub auth: String,
    /// After how many idle seconds a UDP session ends.
    pub udp_idle_timeout: i64,
    /// How strangers are answered.
    pub masq_type: String,
    /// Where the files for strangers are.
    pub masq_file: String,
    /// Whose answers strangers get.
    pub masq_url: String,
    pub masq_url_rewrite_host: bool,
    pub masq_url_insecure: bool,
    /// What strangers are told.
    pub masq_string: String,
    pub masq_string_headers: Headers,
    pub masq_string_status_code: i32,
}

/// The contents of the settings.
pub ghost struct ConfigView {
    pub version: i32,
    pub auth: Seq<char>,
    pub udp_idle_timeout: i64,
    pub masq_type: Seq<char>,
    pub masq_file: Seq<char>,
    pub masq_url: Seq<char>,
    pub masq_url_rewrite_host: bool,
    pub masq_url_insecure: bool,
    pub masq_string: Seq<char>,
    pub masq_string_headers: Seq<(Seq<char>, Seq<char>)>,
    pub masq_string_status_code: i32,
}

impl View for Config {
    type V = ConfigView;

    open spec fn view(&self) -> ConfigView {
        ConfigView {
            version: self.version,
            auth: self.auth@,
            udp_idle_timeout: self.udp_idle_timeout,
            masq_type: self.masq_type@,
            masq_file: self.masq_file@,
            masq_url: self.masq_url@,
            masq_url_rewrite_host: self.masq_url_rewrite_host,
            masq_url_insecure: self.masq_url_insecure,
            masq_string: self.masq_string@,
            masq_string_headers: header_views(self.masq_string_headers@),
            masq_string_status_code: self.masq_string_status_code,
        }
    }
}

/// Settings in which nothing is set.
pub open spec fn empty_config() -> ConfigView {
    ConfigView {
        version: 0,
        auth: Seq::empty(),
        udp_idle_timeout: 0,
        masq_type: Seq::empty(),
        masq_file: Seq::empty(),
        masq_url: Seq::empty(),
        masq_url_rewrite_host: false,
        masq_url_insecure: false,
        masq_string: Seq::empty(),
        masq_string_headers: Seq::empty(),
        masq_string_status_code: 0,
    }
}

impl Default for Config {
    fn default() -> (c: Self)
        ensures
            c@ == empty_config(),
    {
        let c = Config {
            version: 0,
            auth: String::new(),
            udp_idle_timeout: 0,
            masq_type: String::new(),
            masq_file: String::new(),
            masq_url: String::new(),
            masq_url_rewrite_host: false,
            masq_url_insecure: false,
            masq_string: String::new(),
            masq_string_headers: Vec::new(),
            masq_string_status_code: 0,
        };
        assert(c@.masq_string_headers =~= Seq::empty());
        c
    }
}

impl Config {
    /// A copy of the settings.
    pub fn duplicate(&self) -> (c: Self)
        ensures
            c@ == self@,
    {
        Config {
            version: self.version,
            auth: self.auth.clone(),
            udp_idle_timeout: self.udp_idle_timeout,
            masq_type: self.masq_type.clone(),
            masq_file: self.masq_file.clone(),
            masq_url: self.masq_url.clone(),
            masq_url_rewrite_host: self.masq_url_rewrite_host,
            masq_url_insecure: self.masq_url_insecure,
            masq_string: self.masq_string.clone(),
            masq_string_headers: copy_headers(&self.masq_string_headers),
            masq_string_status_code: self.masq_string_status_code,
        }
    }
}

/// The settings that hold where none are given: a UDP session ends after a
/// minute.
pub fn default_config() -> (c: Config)
    ensures
        c@ == (ConfigView { udp_idle_timeout: 60, ..empty_config() }),
{
    let mut c = Config::default();
    c.udp_idle_timeout = 60;
    c
}

/// The low half of a number, its highest bit taken as the sign.
pub open spec fn low_i32(n: i64) -> i32 {
    let low = n as int % 0x1_0000_0000;
    if low >= 0x8000_0000 {
        (low - 0x1_0000_0000) as i32
    } else {
        low as i32
    }
}

/// The low half of a number.
pub fn wrap_i32(n: i64) -> (m: i32)
    ensures
        m == low_i32(n),
{
    let shifted: u128 = (n as i128 + 0x8000_0000_0000_0000) as u128;
    let low: i64 = (shifted % 0x1_0000_0000) as i64;
    assert(low == n as int % 0x1_0000_0000);
    if low >= 0x8000_0000 {
        (low - 0x1_0000_0000) as i32
    } else {
        low as i32
    }
}

/// The header fields that an object gives; what is no text counts as empty.
pub open spec fn json_headers(fields: Seq<(String, Json)>) -> Seq<(Seq<char>, Seq<char>)> {
    Seq::new(
        fields.len(),
        |i: int|
            (
                fields[i].0@,
                match fields[i].1.text() {
                    Some(s) => s,
                    None => ""@,
                },
            ),
    )
}

fn read_headers(fields: &Vec<(String, Json)>) -> (out: Headers)
    ensures
        header_views(out@) == json_headers(fields@),
{
    let mut out: Headers = Vec::new();
    let mut i: usize = 0;
    while i < fields.len()
        invariant
            i <= fields@.len(),
            header_views(out@) == json_headers(fields@).take(i as int),
        decreases fields@.len() - i,
    {
        let value: &str = match fields[i].1.as_str() {
            Some(s) => s,
            None => "",
        };
        push_header(&mut out, fields[i].0.as_str(), value);
        i += 1;
        assert(header_views(out@) =~= json_headers(fields@).take(i as int));
    }
    assert(json_headers(fields@).take(i as int) =~= json_headers(fields@));
    out
}

/// The settings with the way to answer strangers that an object describes, up
/// to its header fields.
pub open spec fn with_masquerade(c: ConfigView, m: Json) -> ConfigView {
    ConfigView {
        masq_type: m.field_text("type"@),
        masq_file: m.field_text("dir"@),
        masq_url: m.field_text("url"@),
        masq_url_rewrite_host: m.field_truth("rewriteHost"@),
        masq_url_insecure: m.field_truth("insecure"@),
        masq_string: m.field_text("content"@),
        ..c
    }
}

/// The settings with the way to answer strangers that an object describes, or
/// why it is refused.
pub open spec fn masquerade_applied(c: ConfigView, m: Json) -> (
    ConfigView,
    core::result::Result<(), Refusal>,
) {
    if !(m is Object) {
        (c, Err(bad_input("masquerade must be a JSON object"@)))
    } else {
        let d = with_masquerade(c, m);
        let code = low_i32(m.field_signed("statusCode"@, 0));
        match m.field("headers"@) {
            None => (ConfigView { masq_string_status_code: code, ..d }, Ok(())),
            Some(h) => match h {
                Json::Object(fields) => (
                    ConfigView {
                        masq_string_headers: json_headers(fields@),
                        masq_string_status_code: code,
                        ..d
                    },
                    Ok(()),
                ),
                _ => (d, Err(bad_input("masquerade.headers must be a JSON object"@))),
            },
        }
    }
}

/// Takes the way to answer strangers from an object.
pub fn apply_masquerade_json(config: &mut Config, masquerade: &Json) -> (r: core::result::Result<
    (),
    SettingsError,
>)
    ensures
        final(config)@ == masquerade_applied(old(config)@, *masquerade).0,
        match r {
            Ok(()) => masquerade_applied(old(config)@, *masquerade).1 is Ok,
            Err(e) => masquerade_applied(old(config)@, *masquerade).1 == Err::<(), Refusal>(e@),
        },
{
    if !masquerade.is_object() {
        return Err(SettingsError::input("masquerade must be a JSON object"));
    }
    config.masq_type = masquerade.get_text("type").to_owned();
    config.masq_file = masquerade.get_text("dir").to_owned();
    config.masq_url = masquerade.get_text("url").to_owned();
    config.masq_url_rewrite_host = masquerade.get_bool("rewriteHost");
    config.masq_url_insecure = masquerade.get_bool("insecure");
    config.masq_string = masquerade.get_text("content").to_owned();
    match masquerade.get("headers") {
        None => {},
        Some(h) => match h {
            Json::Object(fields) => {
                config.masq_string_headers = read_headers(fields);
            },
            _ => {
                return Err(SettingsError::input("masquerade.headers must be a JSON object"));
            },
        },
    }
    config.masq_string_status_code = wrap_i32(masquerade.get_i64("statusCode", 0));
    Ok(())
}

/// The settings that an object gives, or why it is refused.
pub open spec fn settings_of(json: Option<Json>) -> core::result::Result<ConfigView, Refusal> {
    match json {
        None => Ok(ConfigView { udp_idle_timeout: 60, ..empty_config() }),
        Some(v) => if !(v is Object) {
            Err(crate::json::bad_data("hysteriaSettings must be a JSON object"@))
        } else {
            let c = ConfigView {
                auth: v.field_text("auth"@),
                masq_type: v.field_text("masqType"@),
                udp_idle_timeout: v.field_signed("udpIdleTimeout"@, 60),
                version: low_i32(v.field_signed("version"@, 0)),
                ..empty_config()
            };
            match v.field("masquerade"@) {
                None => Ok(c),
                Some(m) => match masquerade_applied(c, m).1 {
                    Ok(_) => Ok(masquerade_applied(c, m).0),
                    Err(e) => Err(e),
                },
            }
        },
    }
}

/// Reads the settings. Where there is no document, the default settings hold.
pub fn parse_hysteria_config(json: Option<&Json>) -> (r: core::result::Result<
    Config,
    SettingsError,
>)
    ensures
        ({
            let given = match json {
                Some(v) => Some(*v),
                None => None,
            };
            match r {
                Ok(c) => settings_of(given) == Ok::<ConfigView, Refusal>(c@),
                Err(e) => settings_of(given) == Err::<ConfigView, Refusal>(e@),
            }
        }),
{
    let v = match json {
        None => return Ok(default_config()),
        Some(v) => v,
    };
    if !v.is_object() {
        return Err(SettingsError::data("hysteriaSettings must be a JSON object"));
    }
    let mut config = Config::default();
    config.auth = v.get_text("auth").to_owned();
    config.masq_type = v.get_text("masqType").to_owned();
    config.udp_idle_timeout = v.get_i64("udpIdleTimeout", 60);
    config.version = wrap_i32(v.get_i64("version", 0));
    match v.get("masquerade") {
        None => {},
        Some(m) => match apply_masquerade_json(&mut config, m) {
            Ok(()) => {},
            Err(e) => return Err(e),
        },
    }
    Ok(config)
}

/// What callers ask of the settings.
pub trait ConfigExt {
    /// The contents of the settings.
    spec fn settings(&self) -> ConfigView;

    /// After how many idle seconds a UDP session ends.
    fn udp_idle_timeout_secs(&self) -> (n: i64)
        ensures
            n == self.settings().udp_idle_timeout,
    ;

    /// The secret that a client shows.
    fn auth(&self) -> (s: &str)
        ensures
            s@ == self.settings().auth,
    ;

    /// How strangers are answered.
    fn masq_type(&self) -> (s: &str)
        ensures
            s@ == self.settings().masq_type,
    ;
}

impl ConfigExt for Config {
    open spec fn settings(&self) -> ConfigView {
        self@
    }

    fn udp_idle_timeout_secs(&self) -> (n: i64) {
        self.udp_idle_timeout
    }

    fn auth(&self) -> (s: &str) {
        self.auth.as_str()
    }

    fn masq_type(&self) -> (s: &str) {
        self.masq_type.as_str()
    }
}

/// A number that thirty-two bits hold is taken as it is; of any other the low
/// thirty-two bits are, the highest of them as the sign.
pub proof fn law_low_half(n: i64)
    ensures
        -0x8000_0000 <= n <= 0x7FFF_FFFF ==> low_i32(n) == n,
        (n - low_i32(n)) % 0x1_0000_0000 == 0,
{
}

/// Where there is no document, sessions end after a minute and strangers find
/// nothing. What an object gives is taken; what it does not give stays empty, and
/// the minute stays. Anything but an object is refused.
pub proof fn law_given_settings_are_taken(v: Json)
    ensures
        settings_of(None) matches Ok(c) && c.udp_idle_timeout == 60 && c.auth.len() == 0
            && c.masq_type.len() == 0,
        !(v is Object) ==> settings_of(Some(v)) is Err,
        v is Object && v.field("masquerade"@) is None ==> (settings_of(Some(v)) matches Ok(c) && {
            &&& c.auth == v.field_text("auth"@)
            &&& c.masq_type == v.field_text("masqType"@)
            &&& c.udp_idle_timeout == v.field_signed("udpIdleTimeout"@, 60)
            &&& c.version == low_i32(v.field_signed("version"@, 0))
            &&& c.masq_string_status_code == 0 && c.masq_string_headers.len() == 0
        }),
        v is Object && v.field("masquerade"@) is Some ==> ({
            let m = v.field("masquerade"@)->0;
            let h = m.field("headers"@);
            &&& settings_of(Some(v)) is Ok <==> m is Object && (h is None || h->0 is Object)
            &&& settings_of(Some(v)) matches Ok(c) ==> {
                &&& c.auth == v.field_text("auth"@)
                &&& c.udp_idle_timeout == v.field_signed("udpIdleTimeout"@, 60)
                &&& c.version == low_i32(v.field_signed("version"@, 0))
                &&& c.masq_type == m.field_text("type"@)
                &&& c.masq_file == m.field_text("dir"@)
                &&& c.masq_url == m.field_text("url"@)
                &&& c.masq_url_rewrite_host == m.field_truth("rewriteHost"@)
                &&& c.masq_url_insecure == m.field_truth("insecure"@)
                &&& c.masq_string == m.field_text("content"@)
                &&& c.masq_string_status_code == low_i32(m.field_signed("statusCode"@, 0))
                &&& h is None ==> c.masq_string_headers.len() == 0
                &&& h matches Some(Json::Object(fields)) ==> c.masq_string_headers.len()
                    == fields@.len() && forall|i: int|
                    0 <= i < fields@.len() ==> (#[trigger] c.masq_string_headers[i]).0
                        == fields@[i].0@ && (fields@[i].1 matches Json::Text(s)
                        ==> c.masq_string_headers[i].1 == s@)
            }
        }),
{
}

} // verus!
