//! The server: who is let in, and how strangers are answered.

use vstd::prelude::*;
use vstd::utf8::encode_utf8;

use crate::hysteria::config::StatusAuthOK;
use crate::hysteria::error::{HysteriaError, Result};
use crate::hysteria::headers::{copy_headers, header_value, header_views, push_header, Headers};
use crate::hysteria::proto_config::{Config, ConfigView};
use crate::net::SocketAddress;
use crate::text::{
    char_views, chars_of, decimal, law_one_part_without_separator,
    law_parts_hold_no_separator, law_parts_make_the_text,
    law_separator_parts, lower, parse_unsigned,
    push_decimal, same_text, split, split_chars, string_of, to_lower, unsigned_value, Count, Text,
};

verus! {

/// How strangers are answered.
#[derive(Debug, PartialEq, Eq)]
pub enum MasqType {
    /// There is nothing here.
    NotFound,
    /// With the files in a directory.
    File(String),
    /// With the answers of another server.
    Proxy { url: String, rewrite_host: bool, insecure: bool },
    /// With a fixed text.
    String { body: String, headers: Headers, status_code: u16 },
}

/// The contents of a [`MasqType`].
pub ghost enum MasqView {
    NotFound,
    File(Seq<char>),
    Proxy { url: Seq<char>, rewrite_host: bool, insecure: bool },
    Text { body: Seq<char>, headers: Seq<(Seq<char>, Seq<char>)>, status_code: u16 },
}

impl View for MasqType {
    type V = MasqView;

    open spec fn view(&self) -> MasqView {
        match self {
            MasqType::NotFound => MasqView::NotFound,
            MasqType::File(dir) => MasqView::File(dir@),
            MasqType::Proxy { url, rewrite_host, insecure } => MasqView::Proxy {
                url: url@,
                rewrite_host: *rewrite_host,
                insecure: *insecure,
            },
            MasqType::String { body, headers, status_code } => MasqView::Text {
                body: body@,
                headers: header_views(headers@),
                status_code: *status_code,
            },
        }
    }
}

/// The low sixteen bits of a number.
pub open spec fn low_u16(n: i32) -> u16 {
    (n as int % 0x1_0000) as u16
}

fn wrap_u16(n: i32) -> (m: u16)
    ensures
        m == low_u16(n),
{
    let shifted: u64 = (n as i64 + 0x8000_0000) as u64;
    let low: u16 = (shifted % 0x1_0000) as u16;
    assert(low == n as int % 0x1_0000);
    low
}

/// The way to answer strangers that the settings name, nothing where they name
/// none that there is. The case of the name's letters does not matter. A text
/// without a status has the status 200.
pub open spec fn masquerade_of(c: ConfigView) -> Option<MasqView> {
    let name = lower(c.masq_type);
    if name == ""@ || name == "404"@ {
        Some(MasqView::NotFound)
    } else if name == "file"@ {
        Some(MasqView::File(c.masq_file))
    } else if name == "proxy"@ {
        Some(
            MasqView::Proxy {
                url: c.masq_url,
                rewrite_host: c.masq_url_rewrite_host,
                insecure: c.masq_url_insecure,
            },
        )
    } else if name == "string"@ {
        Some(
            MasqView::Text {
                body: c.masq_string,
                headers: c.masq_string_headers,
                status_code: if c.masq_string_status_code == 0 {
                    200
                } else {
                    low_u16(c.masq_string_status_code)
                },
            },
        )
    } else {
        None
    }
}

/// The status that is written for a text: the status 200 stands for none.
pub open spec fn written_status(status_code: u16) -> i32 {
    if status_code == 0 {
        200
    } else {
        status_code as i32
    }
}

/// The way to answer strangers, with the status 200 for a text without one.
pub open spec fn with_status(m: MasqView) -> MasqView {
    match m {
        MasqView::Text { body, headers, status_code } => MasqView::Text {
            body,
            headers,
            status_code: if status_code == 0 {
                200
            } else {
                status_code
            },
        },
        _ => m,
    }
}

/// The settings with that way to answer strangers.
pub open spec fn with_masq(c: ConfigView, m: MasqView) -> ConfigView {
    match m {
        MasqView::NotFound => ConfigView { masq_type: Seq::empty(), ..c },
        MasqView::File(dir) => ConfigView { masq_type: "file"@, masq_file: dir, ..c },
        MasqView::Proxy { url, rewrite_host, insecure } => ConfigView {
            masq_type: "proxy"@,
            masq_url: url,
            masq_url_rewrite_host: rewrite_host,
            masq_url_insecure: insecure,
            ..c
        },
        MasqView::Text { body, headers, status_code } => ConfigView {
            masq_type: "string"@,
            masq_string: body,
            masq_string_headers: headers,
            masq_string_status_code: written_status(status_code),
            ..c
        },
    }
}

impl MasqType {
    /// The way to answer strangers that the settings name.
    pub fn from_config(config: &Config) -> (r: Result<Self>)
        ensures
            match r {
                Ok(m) => masquerade_of(config@) == Some(m@),
                Err(HysteriaError::UnknownMasqType(name)) => {
                    &&& masquerade_of(config@) is None
                    &&& name@ == lower(config@.masq_type)
                },
                Err(_) => false,
            },
    {
        let name: String = to_lower(config.masq_type.as_str());
        if same_text(name.as_str(), "") || same_text(name.as_str(), "404") {
            Ok(MasqType::NotFound)
        } else if same_text(name.as_str(), "file") {
            Ok(MasqType::File(config.masq_file.clone()))
        } else if same_text(name.as_str(), "proxy") {
            Ok(
                MasqType::Proxy {
                    url: config.masq_url.clone(),
                    rewrite_host: config.masq_url_rewrite_host,
                    insecure: config.masq_url_insecure,
                },
            )
        } else if same_text(name.as_str(), "string") {
            Ok(
                MasqType::String {
                    body: config.masq_string.clone(),
                    headers: copy_headers(&config.masq_string_headers),
                    status_code: if config.masq_string_status_code == 0 {
                        200
                    } else {
                        wrap_u16(config.masq_string_status_code)
                    },
                },
            )
        } else {
            Err(HysteriaError::UnknownMasqType(name))
        }
    }

    /// Writes the way to answer strangers to the settings. The status of a text
    /// is never written as zero, and what is not about strangers stays.
    pub fn to_config(&self, config: &mut Config)
        ensures
            final(config)@ == with_masq(old(config)@, self@),
            self@ is Text ==> final(config)@.masq_string_status_code != 0,
            final(config)@.version == old(config)@.version,
            final(config)@.auth == old(config)@.auth,
            final(config)@.udp_idle_timeout == old(config)@.udp_idle_timeout,
    {
        match self {
            MasqType::NotFound => {
                config.masq_type = String::new();
            },
            MasqType::File(dir) => {
                config.masq_type = "file".to_owned();
                config.masq_file = dir.clone();
            },
            MasqType::Proxy { url, rewrite_host, insecure } => {
                config.masq_type = "proxy".to_owned();
                config.masq_url = url.clone();
                config.masq_url_rewrite_host = *rewrite_host;
                config.masq_url_insecure = *insecure;
            },
            MasqType::String { body, headers, status_code } => {
                config.masq_type = "string".to_owned();
                config.masq_string = body.clone();
                config.masq_string_headers = copy_headers(headers);
                config.masq_string_status_code = if *status_code == 0 {
                    200
                } else {
                    *status_code as i32
                };
            },
        }
    }

    /// What answers strangers in that way.
    pub fn build_handler(&self) -> (h: Masquerade)
        ensures
            h.kind() == self@,
    {
        match self {
            MasqType::NotFound => Masquerade::NotFound(NotFoundMasqHandler),
            MasqType::File(dir) => Masquerade::File(FileMasqHandler::new(dir.as_str())),
            MasqType::Proxy { url, rewrite_host, insecure } => Masquerade::Proxy(
                ProxyMasqHandler {
                    url: url.clone(),
                    rewrite_host: *rewrite_host,
                    insecure: *insecure,
                },
            ),
            MasqType::String { body, headers, status_code } => Masquerade::Text(
                StringMasqHandler {
                    body: body.clone(),
                    headers: copy_headers(headers),
                    status_code: *status_code,
                },
            ),
        }
    }
}

/// Writing a way to answer strangers to any settings and reading it back gives
/// it again; a text without a status comes back with the status 200.
pub proof fn law_masquerade_round_trip(c: ConfigView, m: MasqView)
    ensures
        masquerade_of(with_masq(c, m)) == Some(with_status(m)),
{
    reveal_strlit("");
    reveal_strlit("404");
    reveal_strlit("file");
    reveal_strlit("proxy");
    reveal_strlit("string");
    assert(lower(Seq::<char>::empty()) =~= ""@);
    assert(lower("file"@) =~= "file"@);
    assert(lower("proxy"@) =~= "proxy"@);
    assert(lower("string"@) =~= "string"@);
    assert("404"@.len() == 3 && "file"@.len() == 4 && "proxy"@.len() == 5 && "string"@.len() == 6);
}

/// An answer.
#[derive(Debug, PartialEq, Eq)]
pub struct Response {
    pub status: u16,
    pub headers: Headers,
    pub body: Vec<u8>,
}

/// The contents of an answer.
pub ghost struct ResponseView {
    pub status: u16,
    pub headers: Seq<(Seq<char>, Seq<char>)>,
    pub body: Seq<u8>,
}

impl View for Response {
    type V = ResponseView;

    open spec fn view(&self) -> ResponseView {
        ResponseView {
            status: self.status,
            headers: header_views(self.headers@),
            body: self.body@,
        }
    }
}

/// The answer that there is nothing.
pub open spec fn not_found() -> ResponseView {
    ResponseView {
        status: 404,
        headers: seq![
            ("Content-Type"@, "text/plain; charset=utf-8"@),
            ("X-Content-Type-Options"@, "nosniff"@),
        ],
        body: encode_utf8("404 page not found\n"@),
    }
}

/// The answer that files can only be read.
pub open spec fn method_not_allowed() -> ResponseView {
    ResponseView {
        status: 405,
        headers: seq![
            ("Allow"@, "GET, HEAD"@),
            ("Content-Type"@, "text/plain; charset=utf-8"@),
            ("X-Content-Type-Options"@, "nosniff"@),
        ],
        body: encode_utf8("Method Not Allowed\n"@),
    }
}

/// The answer that the other server is not there.
pub open spec fn unavailable() -> ResponseView {
    ResponseView {
        status: 503,
        headers: seq![("Content-Type"@, "text/plain; charset=utf-8"@)],
        body: encode_utf8("Service Unavailable"@),
    }
}

fn answer_not_found() -> (r: Response)
    ensures
        r@ == not_found(),
{
    let mut headers: Headers = Vec::new();
    push_header(&mut headers, "Content-Type", "text/plain; charset=utf-8");
    push_header(&mut headers, "X-Content-Type-Options", "nosniff");
    assert(header_views(headers@) =~= not_found().headers);
    Response { status: 404, headers, body: "404 page not found\n".as_bytes_vec() }
}

fn answer_method_not_allowed() -> (r: Response)
    ensures
        r@ == method_not_allowed(),
{
    let mut headers: Headers = Vec::new();
    push_header(&mut headers, "Allow", "GET, HEAD");
    push_header(&mut headers, "Content-Type", "text/plain; charset=utf-8");
    push_header(&mut headers, "X-Content-Type-Options", "nosniff");
    assert(header_views(headers@) =~= method_not_allowed().headers);
    Response { status: 405, headers, body: "Method Not Allowed\n".as_bytes_vec() }
}

/// What comes of a request.
#[derive(Debug, PartialEq, Eq)]
pub enum Served {
    /// An answer.
    Answer(Response),
    /// The file at that path below the root is to be read.
    ReadFile { root: String, path: Vec<String>, head: bool },
}

/// The contents of a [`Served`].
pub ghost enum ServedView {
    Answer(ResponseView),
    ReadFile { root: Seq<char>, path: Seq<Seq<char>>, head: bool },
}

/// The contents of texts.
pub open spec fn string_views(parts: Seq<String>) -> Seq<Seq<char>> {
    Seq::new(parts.len(), |i: int| parts[i]@)
}

impl View for Served {
    type V = ServedView;

    open spec fn view(&self) -> ServedView {
        match self {
            Served::Answer(r) => ServedView::Answer(r@),
            Served::ReadFile { root, path, head } => ServedView::ReadFile {
                root: root@,
                path: string_views(path@),
                head: *head,
            },
        }
    }
}

/// Something that answers strangers.
pub trait MasqueradeHandler {
    /// What comes of a request.
    spec fn served(&self, method: Seq<char>, path: Seq<char>) -> ServedView;

    /// What comes of a request.
    fn serve(&self, method: &str, path: &str) -> (s: Served)
        ensures
            s@ == self.served(method@, path@),
    ;
}

/// Answers that there is nothing.
#[derive(Debug, PartialEq, Eq)]
pub struct NotFoundMasqHandler;

impl MasqueradeHandler for NotFoundMasqHandler {
    open spec fn served(&self, method: Seq<char>, path: Seq<char>) -> ServedView {
        ServedView::Answer(not_found())
    }

    fn serve(&self, _method: &str, _path: &str) -> (s: Served) {
        Served::Answer(answer_not_found())
    }
}

/// Answers with the files in a directory.
#[derive(Debug, PartialEq, Eq)]
pub struct FileMasqHandler {
    pub root: String,
}

impl FileMasqHandler {
    /// The files in `root`.
    pub fn new(root: &str) -> (h: Self)
        ensures
            h.root@ == root@,
    {
        FileMasqHandler { root: root.to_owned() }
    }
}

/// The names of a path that lead on: not the empty ones and not `.`.
pub open spec fn leading_on(parts: Seq<Seq<char>>) -> Seq<Seq<char>>
    decreases parts.len(),
{
    if parts.len() == 0 {
        Seq::empty()
    } else {
        let rest = leading_on(parts.drop_last());
        if parts.last() == ""@ || parts.last() == "."@ {
            rest
        } else {
            rest.push(parts.last())
        }
    }
}

/// The names that lead from the root to the file of a request, nothing where
/// the request would lead up.
pub open spec fn file_path(url_path: Seq<char>) -> Option<Seq<Seq<char>>> {
    let parts = split(url_path, '/');
    if exists|i: int| 0 <= i < parts.len() && #[trigger] parts[i] == ".."@ {
        None
    } else {
        Some(leading_on(parts))
    }
}

/// The names that lead from the root to the file of a request, nothing where
/// the request would lead up.
pub fn resolve_masq_file(url_path: &str) -> (r: Option<Vec<String>>)
    ensures
        match r {
            Some(path) => file_path(url_path@) == Some(string_views(path@)),
            None => file_path(url_path@) is None,
        },
{
    let parts = split_chars(chars_of(url_path).as_slice(), '/');
    let ghost views = char_views(parts@);
    let mut path: Vec<String> = Vec::new();
    let mut i: usize = 0;
    assert(string_views(path@) =~= leading_on(views.take(0)));
    while i < parts.len()
        invariant
            i <= parts@.len(),
            views == char_views(parts@),
            views == split(url_path@, '/'),
            string_views(path@) == leading_on(views.take(i as int)),
            forall|k: int| 0 <= k < i ==> #[trigger] views[k] != ".."@,
        decreases parts@.len() - i,
    {
        let part: String = string_of(parts[i].as_slice());
        let ghost before = string_views(path@);
        proof {
            assert(part@ == views[i as int]);
            assert(views.take(i + 1).drop_last() =~= views.take(i as int));
            assert(views.take(i + 1).last() == views[i as int]);
        }
        if same_text(part.as_str(), "..") {
            return None;
        }
        if !same_text(part.as_str(), "") && !same_text(part.as_str(), ".") {
            let ghost name = part@;
            path.push(part);
            assert(string_views(path@) =~= before.push(name));
        }
        i += 1;
    }
    assert(views.take(i as int) =~= views);
    Some(path)
}

/// Whatever is asked for, none of the names that lead to the file is empty, none
/// stands for the directory itself or the one above, and none holds a slash.
/// Where a slash alone parts names and no name starts anew from a drive, the
/// file so lies below the root.
pub proof fn law_names_do_not_lead_up(url_path: Seq<char>, i: int)
    requires
        file_path(url_path) is Some,
        0 <= i < file_path(url_path)->0.len(),
    ensures
        file_path(url_path)->0[i] != ""@,
        file_path(url_path)->0[i] != "."@,
        file_path(url_path)->0[i] != ".."@,
        !file_path(url_path)->0[i].contains('/'),
{
    let parts = split(url_path, '/');
    law_parts_hold_no_separator(url_path, '/');
    lemma_leading_on(parts, i);
}

proof fn lemma_leading_on(parts: Seq<Seq<char>>, i: int)
    requires
        0 <= i < leading_on(parts).len(),
    ensures
        leading_on(parts)[i] != ""@,
        leading_on(parts)[i] != "."@,
        exists|k: int| 0 <= k < parts.len() && #[trigger] parts[k] == leading_on(parts)[i],
    decreases parts.len(),
{
    if parts.len() > 0 {
        let less = parts.drop_last();
        if i < leading_on(less).len() {
            lemma_leading_on(less, i);
            let k = choose|k: int|
                0 <= k < less.len() && #[trigger] less[k] == leading_on(less)[i];
            assert(parts[k] == leading_on(parts)[i]);
        } else {
            assert(parts[parts.len() - 1] == leading_on(parts)[i]);
        }
    }
}

/// What follows the last dot of a file's name. A dot at the start does not
/// count.
pub open spec fn extension(name: Seq<char>) -> Seq<char> {
    let parts = split(name, '.');
    if parts.len() < 2 || (parts.len() == 2 && parts[0].len() == 0) {
        Seq::empty()
    } else {
        parts.last()
    }
}

/// The sort of content of a file of that name.
pub open spec fn content_type(name: Seq<char>) -> Seq<char> {
    let e = extension(name);
    if e == "html"@ || e == "htm"@ {
        "text/html; charset=utf-8"@
    } else if e == "css"@ {
        "text/css; charset=utf-8"@
    } else if e == "js"@ {
        "text/javascript; charset=utf-8"@
    } else if e == "json"@ {
        "application/json; charset=utf-8"@
    } else if e == "png"@ {
        "image/png"@
    } else if e == "jpg"@ || e == "jpeg"@ {
        "image/jpeg"@
    } else if e == "svg"@ {
        "image/svg+xml"@
    } else if e == "ico"@ {
        "image/x-icon"@
    } else if e == "txt"@ {
        "text/plain; charset=utf-8"@
    } else if e == "woff2"@ {
        "font/woff2"@
    } else {
        "application/octet-stream"@
    }
}

fn extension_of(name: &str) -> (e: String)
    ensures
        e@ == extension(name@),
{
    let parts = split_chars(chars_of(name).as_slice(), '.');
    assert(char_views(parts@).len() == parts@.len());
    if parts.len() < 2 {
        return String::new();
    }
    assert(char_views(parts@)[0] == parts@[0]@);
    assert(char_views(parts@).last() == parts@[parts@.len() - 1]@);
    if parts.len() == 2 && parts[0].len() == 0 {
        return String::new();
    }
    string_of(parts[parts.len() - 1].as_slice())
}

/// The sort of content of a file of that name.
pub fn masq_content_type(name: &str) -> (s: &'static str)
    ensures
        s@ == content_type(name@),
{
    let ext: String = extension_of(name);
    let e: &str = ext.as_str();
    if same_text(e, "html") || same_text(e, "htm") {
        "text/html; charset=utf-8"
    } else if same_text(e, "css") {
        "text/css; charset=utf-8"
    } else if same_text(e, "js") {
        "text/javascript; charset=utf-8"
    } else if same_text(e, "json") {
        "application/json; charset=utf-8"
    } else if same_text(e, "png") {
        "image/png"
    } else if same_text(e, "jpg") || same_text(e, "jpeg") {
        "image/jpeg"
    } else if same_text(e, "svg") {
        "image/svg+xml"
    } else if same_text(e, "ico") {
        "image/x-icon"
    } else if same_text(e, "txt") {
        "text/plain; charset=utf-8"
    } else if same_text(e, "woff2") {
        "font/woff2"
    } else {
        "application/octet-stream"
    }
}

impl MasqueradeHandler for FileMasqHandler {
    open spec fn served(&self, method: Seq<char>, path: Seq<char>) -> ServedView {
        if method != "GET"@ && method != "HEAD"@ {
            ServedView::Answer(method_not_allowed())
        } else {
            match file_path(path) {
                Some(names) => ServedView::ReadFile {
                    root: self.root@,
                    path: names,
                    head: method == "HEAD"@,
                },
                None => ServedView::Answer(not_found()),
            }
        }
    }

    fn serve(&self, method: &str, path: &str) -> (s: Served) {
        let head: bool = same_text(method, "HEAD");
        if !same_text(method, "GET") && !head {
            return Served::Answer(answer_method_not_allowed());
        }
        match resolve_masq_file(path) {
            Some(names) => Served::ReadFile { root: self.root.clone(), path: names, head },
            None => Served::Answer(answer_not_found()),
        }
    }
}

/// The answer once a file was looked for: the file of that name had that
/// content, or it could not be read. A request for the head gets no body.
pub open spec fn file_answer_view(
    name: Seq<char>,
    content: Option<Seq<u8>>,
    head: bool,
) -> ResponseView {
    let full = match content {
        Some(bytes) => ResponseView {
            status: 200,
            headers: seq![("Content-Type"@, content_type(name))],
            body: bytes,
        },
        None => not_found(),
    };
    ResponseView {
        body: if head {
            Seq::empty()
        } else {
            full.body
        },
        ..full
    }
}

/// The answer once a file was looked for.
pub fn file_answer(name: &str, content: Option<Vec<u8>>, head: bool) -> (r: Response)
    ensures
        r@ == file_answer_view(
            name@,
            match content {
                Some(bytes) => Some(bytes@),
                None => None,
            },
            head,
        ),
{
    let mut r = match content {
        Some(bytes) => {
            let mut headers: Headers = Vec::new();
            push_header(&mut headers, "Content-Type", masq_content_type(name));
            assert(header_views(headers@) =~= seq![("Content-Type"@, content_type(name@))]);
            Response { status: 200, headers, body: bytes }
        },
        None => answer_not_found(),
    };
    if head {
        r.body = Vec::new();
    }
    r
}

/// Answers with a fixed text.
#[derive(Debug, PartialEq, Eq)]
pub struct StringMasqHandler {
    pub body: String,
    pub headers: Headers,
    pub status_code: u16,
}

impl MasqueradeHandler for StringMasqHandler {
    open spec fn served(&self, method: Seq<char>, path: Seq<char>) -> ServedView {
        ServedView::Answer(
            ResponseView {
                status: self.status_code,
                headers: header_views(self.headers@),
                body: encode_utf8(self.body@),
            },
        )
    }

    fn serve(&self, _method: &str, _path: &str) -> (s: Served) {
        Served::Answer(
            Response {
                status: self.status_code,
                headers: copy_headers(&self.headers),
                body: self.body.as_str().as_bytes_vec(),
            },
        )
    }
}

/// Answers that the other server is not there.
#[derive(Debug, PartialEq, Eq)]
pub struct ProxyMasqHandler {
    pub url: String,
    pub rewrite_host: bool,
    pub insecure: bool,
}

impl MasqueradeHandler for ProxyMasqHandler {
    open spec fn served(&self, method: Seq<char>, path: Seq<char>) -> ServedView {
        ServedView::Answer(unavailable())
    }

    fn serve(&self, _method: &str, _path: &str) -> (s: Served) {
        let mut headers: Headers = Vec::new();
        push_header(&mut headers, "Content-Type", "text/plain; charset=utf-8");
        assert(header_views(headers@) =~= unavailable().headers);
        Served::Answer(
            Response { status: 503, headers, body: "Service Unavailable".as_bytes_vec() },
        )
    }
}

/// What answers strangers, in any way.
#[derive(Debug, PartialEq, Eq)]
pub enum Masquerade {
    NotFound(NotFoundMasqHandler),
    File(FileMasqHandler),
    Proxy(ProxyMasqHandler),
    Text(StringMasqHandler),
}

impl Masquerade {
    /// The way it answers.
    pub open spec fn kind(&self) -> MasqView {
        match self {
            Masquerade::NotFound(_) => MasqView::NotFound,
            Masquerade::File(h) => MasqView::File(h.root@),
            Masquerade::Proxy(h) => MasqView::Proxy {
                url: h.url@,
                rewrite_host: h.rewrite_host,
                insecure: h.insecure,
            },
            Masquerade::Text(h) => MasqView::Text {
                body: h.body@,
                headers: header_views(h.headers@),
                status_code: h.status_code,
            },
        }
    }
}

impl MasqueradeHandler for Masquerade {
    open spec fn served(&self, method: Seq<char>, path: Seq<char>) -> ServedView {
        match self {
            Masquerade::NotFound(h) => h.served(method, path),
            Masquerade::File(h) => h.served(method, path),
            Masquerade::Proxy(h) => h.served(method, path),
            Masquerade::Text(h) => h.served(method, path),
        }
    }

    fn serve(&self, method: &str, path: &str) -> (s: Served) {
        match self {
            Masquerade::NotFound(h) => h.serve(method, path),
            Masquerade::File(h) => h.serve(method, path),
            Masquerade::Proxy(h) => h.serve(method, path),
            Masquerade::Text(h) => h.serve(method, path),
        }
    }
}

/// A request, as far as it matters for letting a client in.
#[derive(Debug, PartialEq, Eq)]
pub struct AuthRequest {
    pub method: String,
    pub host: String,
    pub path: String,
    pub auth_header: String,
    /// What the client can receive, in bytes per second.
    pub brutal_down_bps: u64,
}

/// The answer to a client that is let in.
#[derive(Debug, PartialEq, Eq)]
pub struct AuthResponse {
    pub status_code: u16,
    pub udp_enabled: bool,
    pub brutal_down_bps: u64,
    pub padding: String,
}

/// Knows the clients.
pub trait AuthValidator {
    /// The client of that secret.
    spec fn client_of(&self, auth: Text) -> Option<Text>;

    /// How many clients there are.
    spec fn clients(&self) -> Count;

    /// The client of that secret.
    fn validate(&self, auth: &str) -> (r: Option<String>)
        ensures
            match r {
                Some(name) => self.client_of(auth@) == Some(name@),
                None => self.client_of(auth@) is None,
            },
    ;

    /// How many clients there are.
    fn count(&self) -> (n: usize)
        ensures
            n == self.clients(),
    ;
}

/// What a header says of how much a side can receive, zero where it says
/// nothing that can be read.
pub open spec fn receive_rate(header: Seq<char>) -> u64 {
    match unsigned_value(header) {
        Some(n) => if n <= u64::MAX {
            n as u64
        } else {
            0
        },
        None => 0,
    }
}

/// What a header says of how much a side can receive, zero where it says
/// nothing that can be read.
pub fn parse_receive_rate(header: &str) -> (n: u64)
    ensures
        n == receive_rate(header@),
{
    match parse_unsigned(chars_of(header).as_slice(), 0xFFFF_FFFF_FFFF_FFFF) {
        Some(n) => n,
        None => 0,
    }
}

/// Whether a request asks to be let in.
pub open spec fn asks_in(req: AuthRequest) -> bool {
    req.method@ == "POST"@ && req.host@ == "hysteria"@ && req.path@ == "/auth"@
}

/// Whether a client is let in: its secret is that of a known client, or, where
/// no clients are known, the one of the settings. Without clients and without
/// a secret nobody is let in.
pub open spec fn let_in<V: AuthValidator>(
    req: AuthRequest,
    validator: Option<&V>,
    static_auth: Seq<char>,
) -> bool {
    asks_in(req) && match validator {
        Some(v) if v.clients() > 0 => v.client_of(req.auth_header@) is Some,
        _ => static_auth.len() > 0 && req.auth_header@ == static_auth,
    }
}

/// Whether a client is let in.
pub fn is_authenticated<V: AuthValidator>(
    req: &AuthRequest,
    validator: Option<&V>,
    static_auth: &str,
) -> (b: bool)
    ensures
        b == let_in(*req, validator, static_auth@),
{
    if !same_text(req.method.as_str(), "POST") || !same_text(req.host.as_str(), "hysteria")
        || !same_text(req.path.as_str(), "/auth") {
        return false;
    }
    match validator {
        Some(v) => {
            if v.count() > 0 {
                return v.validate(req.auth_header.as_str()).is_some();
            }
        },
        None => {},
    }
    static_auth.unicode_len() > 0 && same_text(req.auth_header.as_str(), static_auth)
}

/// The answer to a client that is let in; the server can receive so much.
pub open spec fn welcome(brutal_down: u64) -> ResponseView {
    ResponseView {
        status: 233,
        headers: seq![
            ("Hysteria-UDP"@, "true"@),
            ("Hysteria-CC-RX"@, decimal(brutal_down as nat)),
            ("Hysteria-Padding"@, "0"@),
        ],
        body: Seq::empty(),
    }
}

fn answer_welcome(brutal_down: u64) -> (r: Response)
    ensures
        r@ == welcome(brutal_down),
{
    let mut headers: Headers = Vec::new();
    let mut rate: String = String::new();
    push_decimal(&mut rate, brutal_down);
    assert(rate@ =~= decimal(brutal_down as nat));
    push_header(&mut headers, "Hysteria-UDP", "true");
    push_header(&mut headers, "Hysteria-CC-RX", rate.as_str());
    push_header(&mut headers, "Hysteria-Padding", "0");
    assert(header_views(headers@) =~= welcome(brutal_down).headers);
    let r = Response { status: StatusAuthOK, headers, body: Vec::new() };
    assert(r@.body =~= Seq::empty());
    r
}

/// What the server does with a request of a client that is not let in yet.
#[derive(Debug, PartialEq, Eq)]
pub enum AuthStep {
    /// The client is let in and can receive so much.
    LetIn { response: Response, client_down: u64 },
    /// The client is answered like a stranger.
    Masquerade(Served),
}

/// The contents of an [`AuthStep`].
pub ghost enum AuthStepView {
    LetIn { response: ResponseView, client_down: u64 },
    Masquerade(ServedView),
}

impl View for AuthStep {
    type V = AuthStepView;

    open spec fn view(&self) -> AuthStepView {
        match self {
            AuthStep::LetIn { response, client_down } => AuthStepView::LetIn {
                response: response@,
                client_down: *client_down,
            },
            AuthStep::Masquerade(s) => AuthStepView::Masquerade(s@),
        }
    }
}

/// What the server does with a request of a client that is not let in yet.
pub open spec fn request_outcome<V: AuthValidator>(
    req: AuthRequest,
    validator: Option<&V>,
    static_auth: Seq<char>,
    brutal_down: u64,
    masq: Masquerade,
) -> AuthStepView {
    if let_in(req, validator, static_auth) {
        AuthStepView::LetIn {
            response: welcome(brutal_down),
            client_down: req.brutal_down_bps,
        }
    } else {
        AuthStepView::Masquerade(masq.served(req.method@, req.path@))
    }
}

/// Decides on a request of a client that is not let in yet.
pub fn handle_request<V: AuthValidator>(
    req: &AuthRequest,
    validator: Option<&V>,
    static_auth: &str,
    brutal_down: u64,
    masq: &Masquerade,
) -> (r: AuthStep)
    ensures
        r@ == request_outcome(*req, validator, static_auth@, brutal_down, *masq),
{
    if is_authenticated(req, validator, static_auth) {
        AuthStep::LetIn {
            response: answer_welcome(brutal_down),
            client_down: req.brutal_down_bps,
        }
    } else {
        AuthStep::Masquerade(masq.serve(req.method.as_str(), req.path.as_str()))
    }
}

/// Lets a client in where a validator knows its secret, whatever the host it
/// asks for.
pub fn try_auth<V: AuthValidator>(req: &AuthRequest, validator: Option<&V>) -> (r: Option<
    AuthResponse,
>)
    ensures
        r is Some <==> req.method@ == "POST"@ && req.path@ == "/auth"@ && validator is Some
            && validator.unwrap().client_of(req.auth_header@) is Some,
        r matches Some(a) ==> {
            &&& a.status_code == StatusAuthOK
            &&& a.udp_enabled
            &&& a.brutal_down_bps == req.brutal_down_bps
            &&& a.padding@ == "0"@
        },
{
    if !same_text(req.method.as_str(), "POST") || !same_text(req.path.as_str(), "/auth") {
        return None;
    }
    match validator {
        None => None,
        Some(v) => match v.validate(req.auth_header.as_str()) {
            None => None,
            Some(_) => Some(
                AuthResponse {
                    status_code: StatusAuthOK,
                    udp_enabled: true,
                    brutal_down_bps: req.brutal_down_bps,
                    padding: "0".to_owned(),
                },
            ),
        },
    }
}

impl AuthResponse {
    /// The status and the header fields of the answer.
    pub open spec fn as_response(self) -> ResponseView {
        ResponseView {
            status: self.status_code,
            headers: seq![
                (
                    "Hysteria-UDP"@,
                    if self.udp_enabled {
                        "true"@
                    } else {
                        "false"@
                    },
                ),
                ("Hysteria-CC-RX"@, decimal(self.brutal_down_bps as nat)),
                ("Hysteria-Padding"@, self.padding@),
            ],
            body: Seq::empty(),
        }
    }

    /// The status and the header fields of the answer.
    pub fn to_response(&self) -> (r: Response)
        ensures
            r@ == self.as_response(),
    {
        let mut headers: Headers = Vec::new();
        let mut rate: String = String::new();
        push_decimal(&mut rate, self.brutal_down_bps);
        assert(rate@ =~= decimal(self.brutal_down_bps as nat));
        let udp: &str = if self.udp_enabled {
            "true"
        } else {
            "false"
        };
        push_header(&mut headers, "Hysteria-UDP", udp);
        push_header(&mut headers, "Hysteria-CC-RX", rate.as_str());
        push_header(&mut headers, "Hysteria-Padding", self.padding.as_str());
        assert(header_views(headers@) =~= self.as_response().headers);
        let r = Response { status: self.status_code, headers, body: Vec::new() };
        assert(r@.body =~= Seq::empty());
        r
    }
}

/// A client whose secret is wrong gets the answer that a stranger gets who asks
/// for the same thing, whatever secrets the server knows.
pub proof fn law_refused_like_a_stranger<V: AuthValidator>(
    req: AuthRequest,
    stranger: AuthRequest,
    validator: Option<&V>,
    static_auth: Seq<char>,
    other_validator: Option<&V>,
    other_auth: Seq<char>,
    brutal_down: u64,
    other_down: u64,
    masq: Masquerade,
)
    requires
        req.method@ == stranger.method@,
        req.path@ == stranger.path@,
        !let_in(req, validator, static_auth),
        !let_in(stranger, other_validator, other_auth),
    ensures
        request_outcome(req, validator, static_auth, brutal_down, masq) == request_outcome(
            stranger,
            other_validator,
            other_auth,
            other_down,
            masq,
        ),
{
}

/// A server that knows neither clients nor a secret lets nobody in.
pub proof fn law_nobody_without_secrets<V: AuthValidator>(req: AuthRequest, validator: Option<&V>)
    requires
        validator matches Some(v) ==> v.clients() == 0,
    ensures
        !let_in(req, validator, Seq::empty()),
{
}

/// A listener, with or without its socket.
pub struct HysteriaListener {
    pub bind_addr: SocketAddress,
    pub masq: MasqType,
    pub listening: bool,
    pub closed: bool,
}

impl HysteriaListener {
    /// A listener that has no socket yet.
    pub fn new(bind_addr: SocketAddress, masq: MasqType) -> (l: Self)
        ensures
            l == (HysteriaListener { bind_addr, masq, listening: false, closed: false }),
    {
        HysteriaListener { bind_addr, masq, listening: false, closed: false }
    }

    /// The address that it is bound to.
    pub fn bind_addr(&self) -> (a: SocketAddress)
        ensures
            a == self.bind_addr,
    {
        self.bind_addr
    }

    /// How strangers are answered.
    pub fn masq_type(&self) -> (m: &MasqType)
        ensures
            *m == self.masq,
    {
        &self.masq
    }

    /// It has a socket from now on.
    pub fn start(&mut self)
        ensures
            *final(self) == (HysteriaListener { listening: true, ..*old(self) }),
    {
        self.listening = true;
    }

    /// Closes it: whether there is a socket to be closed.
    pub fn close(&mut self) -> (b: bool)
        ensures
            b == old(self).listening,
            *final(self) == (HysteriaListener { listening: false, closed: true, ..*old(self) }),
    {
        self.closed = true;
        let had: bool = self.listening;
        self.listening = false;
        had
    }

    /// Whether it is closed.
    pub fn is_closed(&self) -> (b: bool)
        ensures
            b == self.closed,
    {
        self.closed
    }
}

/// Opens no listeners.
#[derive(Debug)]
pub struct StubListenerFactory;

impl StubListenerFactory {
    /// Every listener is refused.
    pub fn listen(&self, _bind_addr: SocketAddress) -> (r: Result<HysteriaListener>)
        ensures
            r matches Err(e) && e is ConnectionClosed,
    {
        Err(HysteriaError::ConnectionClosed)
    }
}

/// A path none of whose names is empty or leads nowhere is followed name by name,
/// in order.
pub proof fn law_plain_paths_are_followed(url_path: Seq<char>)
    requires
        forall|i: int|
            0 <= i < split(url_path, '/').len() ==> (#[trigger] split(url_path, '/')[i]) != ""@
                && split(url_path, '/')[i] != "."@ && split(url_path, '/')[i] != ".."@,
    ensures
        file_path(url_path) == Some(split(url_path, '/')),
{
    lemma_all_lead_on(split(url_path, '/'));
}

proof fn lemma_all_lead_on(parts: Seq<Seq<char>>)
    requires
        forall|i: int| 0 <= i < parts.len() ==> (#[trigger] parts[i]) != ""@ && parts[i] != "."@,
    ensures
        leading_on(parts) == parts,
    decreases parts.len(),
{
    if parts.len() > 0 {
        let less = parts.drop_last();
        assert forall|i: int| 0 <= i < less.len() implies (#[trigger] less[i]) != ""@ && less[i]
            != "."@ by {
            assert(less[i] == parts[i]);
        }
        lemma_all_lead_on(less);
        assert(parts[parts.len() - 1] == parts.last());
        assert(less.push(parts.last()) =~= parts);
    } else {
        assert(leading_on(parts) =~= parts);
    }
}

/// A name that is empty or stands for the directory itself makes no difference to
/// where a path leads, wherever it stands, and one that leads up makes the path
/// lead nowhere.
pub proof fn law_empty_names_make_no_difference(a: Seq<char>, b: Seq<char>)
    ensures
        file_path(a + seq!['/'] + seq!['/'] + b) == file_path(a + seq!['/'] + b),
        file_path(a + seq!['/'] + seq!['.', '.'] + seq!['/'] + b) is None,
{
    let whole = a + seq!['/'] + b;
    let doubled = a + seq!['/'] + seq!['/'] + b;
    law_separator_parts(a, b, '/');
    let none = Seq::<char>::empty();
    assert(doubled =~= a + seq!['/'] + (none + seq!['/'] + b));
    law_separator_parts(a, none + seq!['/'] + b, '/');
    law_separator_parts(none, b, '/');
    reveal_strlit("");
    reveal_strlit("..");
    let pa = split(a, '/');
    let pb = split(b, '/');
    assert(crate::text::position(none, '/') == 0);
    assert(split(none, '/') =~= seq![none]);
    assert(""@ =~= none);
    let one = split(whole, '/');
    let two = split(doubled, '/');
    assert(one =~= pa + pb);
    assert(two =~= pa + (seq![none] + pb));
    lemma_leading_on_add(pa, pb);
    lemma_leading_on_add(pa, seq![none] + pb);
    lemma_leading_on_add(seq![none], pb);
    assert(seq![none].drop_last() =~= Seq::<Seq<char>>::empty());
    assert(leading_on(seq![none].drop_last()) =~= Seq::<Seq<char>>::empty());
    assert(seq![none].last() == none);
    assert(leading_on(seq![none]) =~= Seq::<Seq<char>>::empty());
    assert(leading_on(one) =~= leading_on(two));
    assert((exists|i: int| 0 <= i < one.len() && #[trigger] one[i] == ".."@) <==> (exists|i: int|
        0 <= i < two.len() && #[trigger] two[i] == ".."@)) by {
        if exists|i: int| 0 <= i < one.len() && #[trigger] one[i] == ".."@ {
            let i = choose|i: int| 0 <= i < one.len() && #[trigger] one[i] == ".."@;
            if i < pa.len() {
                assert(two[i] == ".."@);
            } else {
                assert(two[i + 1] == ".."@);
            }
        }
        if exists|i: int| 0 <= i < two.len() && #[trigger] two[i] == ".."@ {
            let i = choose|i: int| 0 <= i < two.len() && #[trigger] two[i] == ".."@;
            assert(""@.len() == 0 && ".."@.len() == 2);
            if i < pa.len() {
                assert(one[i] == ".."@);
            } else {
                assert(i > pa.len());
                assert(one[i - 1] == ".."@);
            }
        }
    }
    let up = seq!['.', '.'];
    let rising = a + seq!['/'] + up + seq!['/'] + b;
    assert(rising =~= a + seq!['/'] + (up + seq!['/'] + b));
    law_separator_parts(a, up + seq!['/'] + b, '/');
    law_separator_parts(up, b, '/');
    assert(".."@ =~= up);
    assert(crate::text::position(up, '/') == 2) by {
        reveal_with_fuel(crate::text::position, 3);
    }
    assert(split(up, '/') =~= seq![up]);
    let three = split(rising, '/');
    assert(three =~= pa + (seq![up] + pb));
    assert(three[pa.len() as int] == ".."@);
}

proof fn lemma_leading_on_add(a: Seq<Seq<char>>, b: Seq<Seq<char>>)
    ensures
        leading_on(a + b) == leading_on(a) + leading_on(b),
    decreases b.len(),
{
    if b.len() == 0 {
        assert(a + b =~= a);
        assert(leading_on(a) + leading_on(b) =~= leading_on(a));
    } else {
        lemma_leading_on_add(a, b.drop_last());
        assert((a + b).drop_last() =~= a + b.drop_last());
        assert((a + b).last() == b.last());
        assert(leading_on(a + b) =~= leading_on(a) + leading_on(b));
    }
}

/// What stands behind the last dot of a name is its extension, where something
/// stands in front of that dot; a name without a dot has none, and neither has
/// one whose only dot comes first.
pub proof fn law_extension_follows_the_last_dot(stem: Seq<char>, e: Seq<char>)
    requires
        !e.contains('.'),
    ensures
        stem.len() > 0 ==> extension(stem + seq!['.'] + e) == e,
        stem.len() == 0 ==> extension(stem + seq!['.'] + e) == Seq::<char>::empty(),
        extension(e) == Seq::<char>::empty(),
{
    law_separator_parts(stem, e, '.');
    law_parts_hold_no_separator(stem, '.');
    law_parts_make_the_text(stem, '.');
    let ps = split(stem, '.');
    law_one_part_without_separator(e, '.');
    let all = split(stem + seq!['.'] + e, '.');
    assert(all =~= ps.push(e));
    assert(all.last() == e);
    if stem.len() == 0 {
        assert(crate::text::position(stem, '.') == 0);
        assert(ps =~= seq![stem]);
        assert(all[0] == stem);
    } else if all.len() == 2 {
        assert(ps.len() == 1);
        assert(all[0] == ps[0]);
        assert(ps[0] == stem);
    }
}

/// An answer to a request for the head of a file is that to a request for the
/// file, without the content. A file that is there is answered with its content,
/// and one that is not as any path that leads nowhere.
pub proof fn law_head_is_answered_alike(name: Seq<char>, content: Option<Seq<u8>>)
    ensures
        ({
            let full = file_answer_view(name, content, false);
            let head = file_answer_view(name, content, true);
            &&& head.status == full.status
            &&& head.headers == full.headers
            &&& head.body.len() == 0
            &&& content matches Some(bytes) ==> full.status == 200 && full.body == bytes
                && full.headers == seq![("Content-Type"@, content_type(name))]
            &&& content is None ==> full == not_found() && full.status == 404
        }),
{
}

/// What a directory answers: a request for a file, or for its head, leads to the
/// file that its path names; one that leads up finds nothing; every other
/// request is not allowed.
pub proof fn law_files_are_only_read(h: FileMasqHandler, method: Seq<char>, path: Seq<char>)
    ensures
        method == "GET"@ || method == "HEAD"@ ==> {
            &&& file_path(path) matches Some(names) ==> h.served(method, path)
                == ServedView::ReadFile { root: h.root@, path: names, head: method == "HEAD"@ }
            &&& file_path(path) is None ==> (h.served(method, path) matches ServedView::Answer(
                r,
            ) && r.status == 404)
        },
        method != "GET"@ && method != "HEAD"@ ==> (h.served(method, path)
            matches ServedView::Answer(r) && r.status == 405),
{
}

/// Who is let in. Where clients are known, those whose secret is a client's, and
/// the secret of the settings does not matter; where none are, those who have
/// the secret of the settings, if it has one. Only a request to the right place
/// counts.
pub proof fn law_who_is_let_in<V: AuthValidator>(
    req: AuthRequest,
    validator: Option<&V>,
    static_auth: Seq<char>,
)
    ensures
        req.method@ != "POST"@ || req.host@ != "hysteria"@ || req.path@ != "/auth"@ ==> !let_in(
            req,
            validator,
            static_auth,
        ),
        req.method@ == "POST"@ && req.host@ == "hysteria"@ && req.path@ == "/auth"@ ==> {
            &&& validator matches Some(v) ==> (v.clients() > 0 ==> (let_in(
                req,
                validator,
                static_auth,
            ) <==> v.client_of(req.auth_header@) is Some))
            &&& (validator is None || validator->0.clients() == 0) && static_auth.len() > 0 ==> (
            let_in(req, validator, static_auth) <==> req.auth_header@ == static_auth)
        },
{
}

/// A client is told that it is let in, what the server can receive and that the
/// server passes UDP on, where it is let in, and what it can receive itself
/// counts from then on; otherwise it is answered as a stranger.
pub proof fn law_let_in_is_told<V: AuthValidator>(
    req: AuthRequest,
    validator: Option<&V>,
    static_auth: Seq<char>,
    brutal_down: u64,
    masq: Masquerade,
)
    ensures
        ({
            let outcome = request_outcome(req, validator, static_auth, brutal_down, masq);
            &&& let_in(req, validator, static_auth) ==> (outcome matches AuthStepView::LetIn {
                response,
                client_down,
            } && {
                &&& response.status == 233
                &&& header_value(response.headers, "Hysteria-UDP"@) == Some("true"@)
                &&& header_value(response.headers, "Hysteria-CC-RX"@) == Some(
                    decimal(brutal_down as nat),
                )
                &&& receive_rate(decimal(brutal_down as nat)) == brutal_down
                &&& response.body.len() == 0
                &&& client_down == req.brutal_down_bps
            })
            &&& !let_in(req, validator, static_auth) ==> outcome == AuthStepView::Masquerade(
                masq.served(req.method@, req.path@),
            )
        }),
{
    let fields = welcome(brutal_down).headers;
    reveal_strlit("Hysteria-UDP");
    reveal_strlit("Hysteria-CC-RX");
    assert("Hysteria-UDP"@.len() == 12 && "Hysteria-CC-RX"@.len() == 14);
    assert(fields[0].0 == "Hysteria-UDP"@);
    assert(fields.skip(1)[0] == fields[1]);
    assert(header_value(fields, "Hysteria-CC-RX"@) == header_value(
        fields.skip(1),
        "Hysteria-CC-RX"@,
    ));
    crate::text::law_decimal_round_trip(brutal_down as nat);
}

/// Which way to answer strangers a name stands for, whatever the case of its
/// letters. A status that is given is taken, in sixteen bits.
pub proof fn law_masquerade_by_name(c: ConfigView)
    ensures
        ({
            let name = lower(c.masq_type);
            let masq = masquerade_of(c);
            &&& name == ""@ || name == "404"@ ==> masq == Some(MasqView::NotFound)
            &&& name == "file"@ ==> masq == Some(MasqView::File(c.masq_file))
            &&& name == "proxy"@ ==> (masq matches Some(
                MasqView::Proxy { url, rewrite_host, insecure },
            ) && url == c.masq_url && rewrite_host == c.masq_url_rewrite_host && insecure
                == c.masq_url_insecure)
            &&& name == "string"@ ==> (masq matches Some(
                MasqView::Text { body, headers, status_code },
            ) && {
                &&& body == c.masq_string
                &&& headers == c.masq_string_headers
                &&& c.masq_string_status_code == 0 ==> status_code == 200
                &&& 1 <= c.masq_string_status_code <= 65_535 ==> status_code
                    == c.masq_string_status_code
            })
            &&& name != ""@ && name != "404"@ && name != "file"@ && name != "proxy"@ && name
                != "string"@ ==> masq is None
        }),
{
    reveal_strlit("");
    reveal_strlit("404");
    reveal_strlit("file");
    reveal_strlit("proxy");
    reveal_strlit("string");
    assert(""@.len() == 0 && "404"@.len() == 3 && "file"@.len() == 4 && "proxy"@.len() == 5
        && "string"@.len() == 6);
}

/// The sort of content that each extension stands for; any other stands for
/// bytes.
pub proof fn law_content_by_extension(name: Seq<char>)
    ensures
        ({
            let e = extension(name);
            let sort = content_type(name);
            &&& e == "html"@ || e == "htm"@ ==> sort == "text/html; charset=utf-8"@
            &&& e == "css"@ ==> sort == "text/css; charset=utf-8"@
            &&& e == "js"@ ==> sort == "text/javascript; charset=utf-8"@
            &&& e == "json"@ ==> sort == "application/json; charset=utf-8"@
            &&& e == "png"@ ==> sort == "image/png"@
            &&& e == "jpg"@ || e == "jpeg"@ ==> sort == "image/jpeg"@
            &&& e == "svg"@ ==> sort == "image/svg+xml"@
            &&& e == "ico"@ ==> sort == "image/x-icon"@
            &&& e == "txt"@ ==> sort == "text/plain; charset=utf-8"@
            &&& e == "woff2"@ ==> sort == "font/woff2"@
            &&& e != "html"@ && e != "htm"@ && e != "css"@ && e != "js"@ && e != "json"@ && e
                != "png"@ && e != "jpg"@ && e != "jpeg"@ && e != "svg"@ && e != "ico"@ && e
                != "txt"@ && e != "woff2"@ ==> sort == "application/octet-stream"@
        }),
{
    reveal_strlit("html");
    reveal_strlit("htm");
    reveal_strlit("css");
    reveal_strlit("js");
    reveal_strlit("json");
    reveal_strlit("png");
    reveal_strlit("jpg");
    reveal_strlit("jpeg");
    reveal_strlit("svg");
    reveal_strlit("ico");
    reveal_strlit("txt");
    reveal_strlit("woff2");
    assert("html"@.len() == 4 && "htm"@.len() == 3 && "css"@.len() == 3 && "js"@.len() == 2
        && "json"@.len() == 4 && "png"@.len() == 3 && "jpg"@.len() == 3 && "jpeg"@.len() == 4
        && "svg"@.len() == 3 && "ico"@.len() == 3 && "txt"@.len() == 3 && "woff2"@.len() == 5);
    assert("html"@[0] == 'h' && "htm"@[0] == 'h' && "css"@[0] == 'c' && "json"@[0] == 'j'
        && "png"@[0] == 'p' && "jpg"@[0] == 'j' && "jpeg"@[0] == 'j' && "svg"@[0] == 's'
        && "ico"@[0] == 'i' && "txt"@[0] == 't');
    assert("json"@[1] == 's' && "jpeg"@[1] == 'p');
}

/// An answer says in its fields whether UDP is passed on, what can be received,
/// and the padding; its status is its own and it carries nothing else.
pub proof fn law_answer_fields(a: AuthResponse)
    ensures
        ({
            let r = a.as_response();
            &&& r.status == a.status_code
            &&& header_value(r.headers, "Hysteria-UDP"@) == Some(
                if a.udp_enabled {
                    "true"@
                } else {
                    "false"@
                },
            )
            &&& header_value(r.headers, "Hysteria-CC-RX"@) == Some(
                decimal(a.brutal_down_bps as nat),
            )
            &&& header_value(r.headers, "Hysteria-Padding"@) == Some(a.padding@)
            &&& r.headers.len() == 3
            &&& r.body.len() == 0
        }),
{
    let fields = a.as_response().headers;
    reveal_strlit("Hysteria-UDP");
    reveal_strlit("Hysteria-CC-RX");
    reveal_strlit("Hysteria-Padding");
    assert("Hysteria-UDP"@.len() == 12 && "Hysteria-CC-RX"@.len() == 14
        && "Hysteria-Padding"@.len() == 16);
    crate::hysteria::headers::law_first_field_counts(fields, 0);
    crate::hysteria::headers::law_first_field_counts(fields, 1);
    crate::hysteria::headers::law_first_field_counts(fields, 2);
}

} // verus!
