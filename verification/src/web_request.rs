//! A parsed HTTP request: the request line, the GET parameters, the cookies
//! and the headers the server consults.
use vstd::prelude::*;

use crate::str_dict::{assoc_contains, assoc_get, assoc_get_or_empty, assoc_insert, StrDict};
use crate::string_helpers::{simple_decode_string, spec_simple_decode};
use crate::text::{
    find_char, first_index_of, lemma_first_index_of_found, lemma_first_index_of_none, parse_u32,
    push_char, spec_parse_u32, spec_split, spec_split_once, spec_split_str, split_char,
    split_once_char, split_str, str_eq, str_starts_with,
};

verus! {

#[derive(Clone, Copy, Debug, PartialEq, Eq, Structural)]
pub enum HTTPVersion {
    HTTPUnknown,
    HTTP09,
    HTTP10,
    HTTP11,
}

#[derive(Clone, Copy, Debug, PartialEq, Eq, Structural)]
pub enum HTTPRequestType {
    Unknown,
    GET,
    POST,
    HEAD,
}

#[derive(Clone, Copy, Debug, PartialEq, Eq, Structural)]
pub enum ConnectionType {
    ConnectionUnknown,
    ConnectionClose,
    ConnectionKeepAlive,
}

#[derive(Clone, Copy, Debug, PartialEq, Eq, Structural)]
pub enum WebRequestParseError {
    InvalidRequest,
}

// ---------------------------------------------------------------------------
// Line splitting
// ---------------------------------------------------------------------------
/// A line with one trailing carriage return removed.
pub open spec fn strip_cr(l: Seq<char>) -> Seq<char> {
    if l.len() > 0 && l.last() == '\r' {
        l.drop_last()
    } else {
        l
    }
}

/// The lines of a request: split on line feeds, each line stripped of one
/// trailing carriage return, and no empty final line after a trailing feed.
pub open spec fn spec_http_lines(s: Seq<char>) -> Seq<Seq<char>> {
    let pieces = spec_split(s, '\n');
    let pieces2 = if pieces.len() > 0 && pieces.last().len() == 0 {
        pieces.drop_last()
    } else {
        pieces
    };
    pieces2.map_values(|l: Seq<char>| strip_cr(l))
}

fn split_http_lines(s: &str) -> (r: Vec<String>)
    ensures
        r@.len() == spec_http_lines(s@).len(),
        forall|i: int| 0 <= i < r@.len() ==> (#[trigger] r@[i])@ == spec_http_lines(s@)[i],
{
    let mut pieces = split_char(s, '\n');
    let ghost sp = spec_split(s@, '\n');
    if pieces.len() > 0 && pieces[pieces.len() - 1].as_str().unicode_len() == 0 {
        let _ = pieces.pop();
        proof {
            assert(pieces@.len() == sp.drop_last().len());
            assert(forall|i: int|
                0 <= i < pieces@.len() ==> (#[trigger] pieces@[i])@ == sp.drop_last()[i]);
        }
    }
    let ghost pieces2 = if sp.len() > 0 && sp.last().len() == 0 {
        sp.drop_last()
    } else {
        sp
    };
    let n = pieces.len();
    let mut out: Vec<String> = Vec::new();
    let mut i: usize = 0;
    while i < n
        invariant
            0 <= i <= n,
            n == pieces@.len(),
            n == pieces2.len(),
            forall|p: int| 0 <= p < n ==> (#[trigger] pieces@[p])@ == pieces2[p],
            out@.len() == i,
            forall|p: int| 0 <= p < i ==> (#[trigger] out@[p])@ == strip_cr(pieces2[p]),
        decreases n - i,
    {
        let piece = &pieces[i];
        let ln = piece.as_str().unicode_len();
        if ln > 0 && piece.as_str().get_char(ln - 1) == '\r' {
            let stripped = piece.as_str().substring_char(0, ln - 1).to_owned();
            proof {
                assert(piece@.subrange(0, ln - 1) =~= piece@.drop_last());
            }
            out.push(stripped);
        } else {
            out.push(piece.clone());
        }
        i = i + 1;
    }
    proof {
        assert(spec_http_lines(s@).len() == pieces2.len());
        assert(forall|p: int|
            0 <= p < pieces2.len() ==> spec_http_lines(s@)[p] == strip_cr(pieces2[p]));
    }
    out
}

// ---------------------------------------------------------------------------
// GET parameters and cookies
// ---------------------------------------------------------------------------
/// One `key=value` piece of a query string applied to the parameter map:
/// the value is decoded, and empty keys or values are dropped.
pub open spec fn spec_apply_get_param(
    acc: Seq<(Seq<char>, Seq<char>)>,
    item: Seq<char>,
) -> Seq<(Seq<char>, Seq<char>)> {
    match spec_split_once(item, '=') {
        Some(kv) => {
            let v = spec_simple_decode(kv.1);
            if kv.0.len() > 0 && v.len() > 0 {
                assoc_insert(acc, kv.0, v)
            } else {
                acc
            }
        },
        None => acc,
    }
}

pub open spec fn spec_fold_get_params(
    acc: Seq<(Seq<char>, Seq<char>)>,
    items: Seq<Seq<char>>,
) -> Seq<(Seq<char>, Seq<char>)>
    decreases items.len(),
{
    if items.len() == 0 {
        acc
    } else {
        spec_fold_get_params(spec_apply_get_param(acc, items[0]), items.drop_first())
    }
}

/// The parameter map a query string yields.
pub open spec fn spec_get_params(s: Seq<char>) -> Seq<(Seq<char>, Seq<char>)> {
    spec_fold_get_params(Seq::<(Seq<char>, Seq<char>)>::empty(), spec_split(s, '&'))
}

fn process_get_params(params_string: &str) -> (r: StrDict)
    ensures
        r@ == spec_get_params(params_string@),
        r.wf(),
{
    let items = split_char(params_string, '&');
    let ghost iv = spec_split(params_string@, '&');
    let n = items.len();
    let mut params = StrDict::new();
    let mut i: usize = 0;
    proof {
        assert(iv.skip(0) =~= iv);
    }
    while i < n
        invariant
            0 <= i <= n,
            n == items@.len(),
            n == iv.len(),
            forall|p: int| 0 <= p < n ==> (#[trigger] items@[p])@ == iv[p],
            params.wf(),
            spec_get_params(params_string@) == spec_fold_get_params(params@, iv.skip(i as int)),
        decreases n - i,
    {
        proof {
            assert(iv.skip(i as int)[0] == iv[i as int]);
            assert(iv.skip(i as int).drop_first() =~= iv.skip(i + 1));
        }
        match split_once_char(items[i].as_str(), '=') {
            Some(kv) => {
                let val = simple_decode_string(kv.1.as_str());
                if kv.0.as_str().unicode_len() > 0 && val.as_str().unicode_len() > 0 {
                    params.insert(kv.0, val);
                }
            },
            None => {},
        }
        i = i + 1;
    }
    proof {
        assert(iv.skip(n as int) =~= Seq::<Seq<char>>::empty());
    }
    params
}

/// One `key=value` cookie piece applied to the cookie map; empty keys or
/// values are dropped.
pub open spec fn spec_apply_cookie(
    acc: Seq<(Seq<char>, Seq<char>)>,
    item: Seq<char>,
) -> Seq<(Seq<char>, Seq<char>)> {
    match spec_split_once(item, '=') {
        Some(kv) => if kv.0.len() > 0 && kv.1.len() > 0 {
            assoc_insert(acc, kv.0, kv.1)
        } else {
            acc
        },
        None => acc,
    }
}

pub open spec fn spec_fold_cookies(
    acc: Seq<(Seq<char>, Seq<char>)>,
    items: Seq<Seq<char>>,
) -> Seq<(Seq<char>, Seq<char>)>
    decreases items.len(),
{
    if items.len() == 0 {
        acc
    } else {
        spec_fold_cookies(spec_apply_cookie(acc, items[0]), items.drop_first())
    }
}

/// The cookie map a `Cookie:` header value yields: pieces separated by
/// `"; "`, each a `key=value` pair.
pub open spec fn spec_cookie_map(s: Seq<char>) -> Seq<(Seq<char>, Seq<char>)> {
    spec_fold_cookies(Seq::<(Seq<char>, Seq<char>)>::empty(), spec_split_str(s, "; "@))
}

fn process_cookie_string(cookie_string: &str) -> (r: StrDict)
    ensures
        r@ == spec_cookie_map(cookie_string@),
        r.wf(),
{
    proof {
        reveal_strlit("; ");
    }
    let items = split_str(cookie_string, "; ");
    let ghost iv = spec_split_str(cookie_string@, "; "@);
    let n = items.len();
    let mut cookies = StrDict::new();
    let mut i: usize = 0;
    proof {
        assert(iv.skip(0) =~= iv);
    }
    while i < n
        invariant
            0 <= i <= n,
            n == items@.len(),
            n == iv.len(),
            forall|p: int| 0 <= p < n ==> (#[trigger] items@[p])@ == iv[p],
            cookies.wf(),
            spec_cookie_map(cookie_string@) == spec_fold_cookies(cookies@, iv.skip(i as int)),
        decreases n - i,
    {
        proof {
            assert(iv.skip(i as int)[0] == iv[i as int]);
            assert(iv.skip(i as int).drop_first() =~= iv.skip(i + 1));
        }
        match split_once_char(items[i].as_str(), '=') {
            Some(kv) => {
                if kv.0.as_str().unicode_len() > 0 && kv.1.as_str().unicode_len() > 0 {
                    cookies.insert(kv.0, kv.1);
                }
            },
            None => {},
        }
        i = i + 1;
    }
    proof {
        assert(iv.skip(n as int) =~= Seq::<Seq<char>>::empty());
    }
    cookies
}

// ---------------------------------------------------------------------------
// Header scanning
// ---------------------------------------------------------------------------
/// The text of a header after its name and one separating character.
pub open spec fn spec_field_rest(l: Seq<char>, k: int) -> Seq<char> {
    if l.len() >= k {
        l.skip(k)
    } else {
        Seq::<char>::empty()
    }
}

/// What the header scan has gathered: the first `Host:`, `Cookie:` and
/// `Connection:` lines seen.
pub struct HeaderScan {
    pub found_host: bool,
    pub host_value: Seq<char>,
    pub found_cookie: bool,
    pub cookies: Seq<(Seq<char>, Seq<char>)>,
    pub found_connection: bool,
    pub connection_type: ConnectionType,
}

pub open spec fn spec_scan_header_line(st: HeaderScan, line: Seq<char>) -> HeaderScan {
    if !st.found_host && line.len() >= 5 && line.take(5) == "Host:"@ {
        HeaderScan { found_host: true, host_value: spec_field_rest(line, 6), ..st }
    } else if !st.found_cookie && line.len() >= 7 && line.take(7) == "Cookie:"@ {
        HeaderScan {
            found_cookie: true,
            cookies: spec_cookie_map(spec_field_rest(line, 8)),
            ..st
        }
    } else if !st.found_connection && line.len() >= 11 && line.take(11) == "Connection:"@ {
        let v = spec_field_rest(line, 12);
        let ct = if v == "close"@ {
            ConnectionType::ConnectionClose
        } else if v == "keep-alive"@ {
            ConnectionType::ConnectionKeepAlive
        } else {
            st.connection_type
        };
        HeaderScan { found_connection: true, connection_type: ct, ..st }
    } else {
        st
    }
}

pub open spec fn spec_scan_headers(st: HeaderScan, lines: Seq<Seq<char>>) -> HeaderScan
    decreases lines.len(),
{
    if lines.len() == 0 {
        st
    } else {
        spec_scan_headers(spec_scan_header_line(st, lines[0]), lines.drop_first())
    }
}

// ---------------------------------------------------------------------------
// The request
// ---------------------------------------------------------------------------
/// The plain-values model of a parsed request.
pub struct WebRequestModel {
    pub raw_request: Seq<char>,
    pub user_agent_field: Seq<char>,
    pub request_type: HTTPRequestType,
    pub request_version: HTTPVersion,
    pub path: Seq<char>,
    pub host_value: Seq<char>,
    pub connection_value: Seq<char>,
    pub connection_type: ConnectionType,
    pub params: Seq<(Seq<char>, Seq<char>)>,
    pub cookies: Seq<(Seq<char>, Seq<char>)>,
}

#[derive(Debug, PartialEq)]
pub struct WebRequest {
    pub raw_request: String,
    pub user_agent_field: String,
    pub request_type: HTTPRequestType,
    pub request_version: HTTPVersion,
    pub path: String,
    pub host_value: String,
    pub connection_value: String,
    pub connection_type: ConnectionType,
    pub params: StrDict,
    pub cookies: StrDict,
}

impl View for WebRequest {
    type V = WebRequestModel;

    open spec fn view(&self) -> WebRequestModel {
        WebRequestModel {
            raw_request: self.raw_request@,
            user_agent_field: self.user_agent_field@,
            request_type: self.request_type,
            request_version: self.request_version,
            path: self.path@,
            host_value: self.host_value@,
            connection_value: self.connection_value@,
            connection_type: self.connection_type,
            params: self.params@,
            cookies: self.cookies@,
        }
    }
}

pub open spec fn spec_request_type_of(cmd: Seq<char>) -> HTTPRequestType {
    if cmd == "GET"@ {
        HTTPRequestType::GET
    } else if cmd == "POST"@ {
        HTTPRequestType::POST
    } else if cmd == "HEAD"@ {
        HTTPRequestType::HEAD
    } else {
        HTTPRequestType::Unknown
    }
}

pub open spec fn spec_version_of(token: Seq<char>) -> HTTPVersion {
    if token == "0.9"@ {
        HTTPVersion::HTTP09
    } else if token == "1.0"@ {
        HTTPVersion::HTTP10
    } else if token == "1.1"@ {
        HTTPVersion::HTTP11
    } else {
        HTTPVersion::HTTPUnknown
    }
}

/// The request a raw request string stands for, or nothing when the request
/// line does not have the shape `COMMAND PATH HTTP-VERSION`.
pub open spec fn spec_parse_request(s: Seq<char>) -> Option<WebRequestModel> {
    let lines = spec_http_lines(s);
    if lines.len() == 0 {
        None
    } else {
        match spec_split_once(lines[0], ' ') {
            None => None,
            Some(c1) => match spec_split_once(c1.1, ' ') {
                None => None,
                Some(c2) => {
                    let cmd = c1.0;
                    let rawpath = c2.0;
                    let ver = c2.1;
                    if ver.len() != 8 {
                        None
                    } else if !(ver.take(5) == "HTTP/"@) {
                        None
                    } else {
                        let rt = spec_request_type_of(cmd);
                        let rv = spec_version_of(ver.skip(5));
                        let qi = first_index_of(rawpath, '?');
                        let path = if qi >= 0 {
                            rawpath.take(qi)
                        } else {
                            rawpath
                        };
                        let params = if qi >= 0 && rt == HTTPRequestType::GET {
                            spec_get_params(rawpath.skip(qi + 1))
                        } else {
                            Seq::<(Seq<char>, Seq<char>)>::empty()
                        };
                        let st0 = HeaderScan {
                            found_host: false,
                            host_value: Seq::<char>::empty(),
                            found_cookie: false,
                            cookies: Seq::<(Seq<char>, Seq<char>)>::empty(),
                            found_connection: false,
                            connection_type: if rv == HTTPVersion::HTTP11 {
                                ConnectionType::ConnectionKeepAlive
                            } else {
                                ConnectionType::ConnectionUnknown
                            },
                        };
                        let st = spec_scan_headers(st0, lines.drop_first());
                        Some(
                            WebRequestModel {
                                raw_request: s,
                                user_agent_field: Seq::<char>::empty(),
                                request_type: rt,
                                request_version: rv,
                                path,
                                host_value: st.host_value,
                                connection_value: Seq::<char>::empty(),
                                connection_type: st.connection_type,
                                params,
                                cookies: st.cookies,
                            },
                        )
                    }
                },
            },
        }
    }
}

fn field_rest(line: &str, k: usize) -> (r: String)
    ensures
        r@ == spec_field_rest(line@, k as int),
{
    let n = line.unicode_len();
    if n >= k {
        let rest = line.substring_char(k, n).to_owned();
        proof {
            assert(line@.subrange(k as int, n as int) =~= line@.skip(k as int));
        }
        rest
    } else {
        String::new()
    }
}

impl WebRequest {
    pub open spec fn wf(&self) -> bool {
        self.params.wf() && self.cookies.wf()
    }

    /// Parse a raw request string; a request line that is not three
    /// space-separated fields ending in an eight-character HTTP version is
    /// an invalid request.
    pub fn create_from_string(request: &str) -> (r: Result<WebRequest, WebRequestParseError>)
        ensures
            match r {
                Ok(w) => spec_parse_request(request@) == Some(w@) && w.wf(),
                Err(e) => spec_parse_request(request@) is None && e
                    == WebRequestParseError::InvalidRequest,
            },
    {
        let ghost lv = spec_http_lines(request@);
        let lines = split_http_lines(request);
        if lines.len() == 0 {
            return Err(WebRequestParseError::InvalidRequest);
        }
        let c1 = match split_once_char(lines[0].as_str(), ' ') {
            Some(x) => x,
            None => {
                return Err(WebRequestParseError::InvalidRequest);
            },
        };
        let c2 = match split_once_char(c1.1.as_str(), ' ') {
            Some(x) => x,
            None => {
                return Err(WebRequestParseError::InvalidRequest);
            },
        };
        let http_command_string = c1.0;
        let path_raw = c2.0;
        let http_version_string = c2.1;
        let vn = http_version_string.as_str().unicode_len();
        if vn != 8 {
            return Err(WebRequestParseError::InvalidRequest);
        }
        if !str_starts_with(http_version_string.as_str(), "HTTP/") {
            proof {
                reveal_strlit("HTTP/");
            }
            return Err(WebRequestParseError::InvalidRequest);
        }
        proof {
            reveal_strlit("HTTP/");
        }
        let token = http_version_string.as_str().substring_char(5, 8);
        let request_type = if str_eq(http_command_string.as_str(), "GET") {
            HTTPRequestType::GET
        } else if str_eq(http_command_string.as_str(), "POST") {
            HTTPRequestType::POST
        } else if str_eq(http_command_string.as_str(), "HEAD") {
            HTTPRequestType::HEAD
        } else {
            HTTPRequestType::Unknown
        };
        let request_version = if str_eq(token, "0.9") {
            HTTPVersion::HTTP09
        } else if str_eq(token, "1.0") {
            HTTPVersion::HTTP10
        } else if str_eq(token, "1.1") {
            HTTPVersion::HTTP11
        } else {
            HTTPVersion::HTTPUnknown
        };
        proof {
            assert(http_version_string@.subrange(5, 8) =~= http_version_string@.skip(5));
        }
        let mut connection_type = if request_version == HTTPVersion::HTTP11 {
            ConnectionType::ConnectionKeepAlive
        } else {
            ConnectionType::ConnectionUnknown
        };
        let mut path: String;
        let mut params = StrDict::new();
        let pn = path_raw.as_str().unicode_len();
        match find_char(path_raw.as_str(), '?') {
            Some(qp) => {
                proof {
                    lemma_first_index_of_found(path_raw@, '?', qp as int);
                }
                if request_type == HTTPRequestType::GET {
                    let query = path_raw.as_str().substring_char(qp + 1, pn);
                    proof {
                        assert(path_raw@.subrange(qp + 1, pn as int) =~= path_raw@.skip(qp + 1));
                    }
                    params = process_get_params(query);
                }
                path = path_raw.as_str().substring_char(0, qp).to_owned();
                proof {
                    assert(path_raw@.subrange(0, qp as int) =~= path_raw@.take(qp as int));
                }
            },
            None => {
                proof {
                    lemma_first_index_of_none(path_raw@, '?');
                }
                path = path_raw;
            },
        }
        // scan the remaining lines for the headers the server consults
        let mut found_host = false;
        let mut found_cookie = false;
        let mut found_connection = false;
        let mut host_value = String::new();
        let mut cookies = StrDict::new();
        let ghost st0 = HeaderScan {
            found_host: false,
            host_value: Seq::<char>::empty(),
            found_cookie: false,
            cookies: Seq::<(Seq<char>, Seq<char>)>::empty(),
            found_connection: false,
            connection_type: if request_version == HTTPVersion::HTTP11 {
                ConnectionType::ConnectionKeepAlive
            } else {
                ConnectionType::ConnectionUnknown
            },
        };
        let ln = lines.len();
        let mut li: usize = 1;
        proof {
            assert(lv.drop_first() =~= lv.skip(1));
        }
        while li < ln
            invariant
                1 <= li <= ln,
                ln == lines@.len(),
                ln == lv.len(),
                forall|p: int| 0 <= p < ln ==> (#[trigger] lines@[p])@ == lv[p],
                cookies.wf(),
                spec_scan_headers(st0, lv.drop_first()) == spec_scan_headers(
                    HeaderScan {
                        found_host,
                        host_value: host_value@,
                        found_cookie,
                        cookies: cookies@,
                        found_connection,
                        connection_type,
                    },
                    lv.skip(li as int),
                ),
            decreases ln - li,
        {
            proof {
                assert(lv.skip(li as int)[0] == lv[li as int]);
                assert(lv.skip(li as int).drop_first() =~= lv.skip(li + 1));
                reveal_strlit("Host:");
                reveal_strlit("Cookie:");
                reveal_strlit("Connection:");
            }
            let line = &lines[li];
            if !found_host && str_starts_with(line.as_str(), "Host:") {
                host_value = field_rest(line.as_str(), 6);
                found_host = true;
            } else if !found_cookie && str_starts_with(line.as_str(), "Cookie:") {
                let cookie_value = field_rest(line.as_str(), 8);
                cookies = process_cookie_string(cookie_value.as_str());
                found_cookie = true;
            } else if !found_connection && str_starts_with(line.as_str(), "Connection:") {
                let connection_value = field_rest(line.as_str(), 12);
                if str_eq(connection_value.as_str(), "close") {
                    connection_type = ConnectionType::ConnectionClose;
                } else if str_eq(connection_value.as_str(), "keep-alive") {
                    connection_type = ConnectionType::ConnectionKeepAlive;
                }
                found_connection = true;
            }
            li = li + 1;
        }
        proof {
            assert(lv.skip(ln as int) =~= Seq::<Seq<char>>::empty());
        }
        let w = WebRequest {
            raw_request: request.to_owned(),
            user_agent_field: String::new(),
            request_type,
            request_version,
            path,
            host_value,
            connection_value: String::new(),
            connection_type,
            params,
            cookies,
        };
        Ok(w)
    }

    pub fn has_param(&self, param: &str) -> (r: bool)
        requires
            self.wf(),
        ensures
            r == assoc_contains(self@.params, param@),
    {
        self.params.contains_key(param)
    }

    /// The parameter's value, or an empty string when it is not set.
    pub fn get_param(&self, param: &str) -> (r: String)
        requires
            self.wf(),
        ensures
            r@ == assoc_get_or_empty(self@.params, param@),
    {
        match self.params.get(param) {
            Some(v) => v.clone(),
            None => String::new(),
        }
    }

    /// The parameter read as a number; an absent or unreadable value yields
    /// the default.
    pub fn get_param_as_uint(&self, param: &str, default: u32) -> (r: u32)
        requires
            self.wf(),
        ensures
            r == match assoc_get(self@.params, param@) {
                Some(v) => match spec_parse_u32(v) {
                    Some(x) => x,
                    None => default,
                },
                None => default,
            },
    {
        match self.params.get(param) {
            None => default,
            Some(val) => match parse_u32(val.as_str()) {
                Some(x) => x,
                None => default,
            },
        }
    }

    pub fn has_cookie(&self, cookie: &str) -> (r: bool)
        requires
            self.wf(),
        ensures
            r == assoc_contains(self@.cookies, cookie@),
    {
        self.cookies.contains_key(cookie)
    }

    /// The cookie's value, or an empty string when it is not set.
    pub fn get_cookie(&self, cookie: &str) -> (r: String)
        requires
            self.wf(),
        ensures
            r@ == assoc_get_or_empty(self@.cookies, cookie@),
    {
        match self.cookies.get(cookie) {
            Some(v) => v.clone(),
            None => String::new(),
        }
    }

    /// The cookie read as a number; an absent or unreadable value yields the
    /// default.
    pub fn get_cookie_as_uint(&self, cookie: &str, default: u32) -> (r: u32)
        requires
            self.wf(),
        ensures
            r == match assoc_get(self@.cookies, cookie@) {
                Some(v) => match spec_parse_u32(v) {
                    Some(x) => x,
                    None => default,
                },
                None => default,
            },
    {
        match self.cookies.get(cookie) {
            None => default,
            Some(val) => match parse_u32(val.as_str()) {
                Some(x) => x,
                None => default,
            },
        }
    }

    /// The parameter when it is set, else the cookie, else the default.
    pub fn get_param_or_cookie_as_uint(
        &self,
        param_name: &str,
        cookie_name: &str,
        default: u32,
    ) -> (r: u32)
        requires
            self.wf(),
        ensures
            r == match assoc_get(self@.params, param_name@) {
                Some(v) => match spec_parse_u32(v) {
                    Some(x) => x,
                    None => default,
                },
                None => match assoc_get(self@.cookies, cookie_name@) {
                    Some(v) => match spec_parse_u32(v) {
                        Some(x) => x,
                        None => default,
                    },
                    None => default,
                },
            },
    {
        match self.params.get(param_name) {
            Some(val) => match parse_u32(val.as_str()) {
                Some(x) => x,
                None => default,
            },
            None => self.get_cookie_as_uint(cookie_name, default),
        }
    }
}

/// The parameters rendered back into a query string, in key order; the
/// pagination keys can be left out.
pub open spec fn spec_get_string_fold(
    acc: Seq<char>,
    entries: Seq<(Seq<char>, Seq<char>)>,
    ignore_pagination: bool,
) -> Seq<char>
    decreases entries.len(),
{
    if entries.len() == 0 {
        acc
    } else {
        let k = entries[0].0;
        let v = entries[0].1;
        if ignore_pagination && (k == "perPage"@ || k == "startIndex"@) {
            spec_get_string_fold(acc, entries.drop_first(), ignore_pagination)
        } else {
            let acc2 = (if acc.len() > 0 {
                acc + seq!['&']
            } else {
                acc
            }) + k + seq!['='] + v;
            spec_get_string_fold(acc2, entries.drop_first(), ignore_pagination)
        }
    }
}

impl WebRequest {
    /// The request's parameters as a `k=v&k=v` query string.
    pub fn get_params_as_GET_string(&self, ignore_pagination_params: bool) -> (r: String)
        requires
            self.wf(),
        ensures
            r@ == spec_get_string_fold(
                Seq::<char>::empty(),
                self@.params,
                ignore_pagination_params,
            ),
    {
        let ghost entries = self.params@;
        let n = self.params.len();
        let mut params_string = String::new();
        let mut i: usize = 0;
        proof {
            assert(entries.skip(0) =~= entries);
        }
        while i < n
            invariant
                0 <= i <= n,
                n == entries.len(),
                self.wf(),
                entries == self.params@,
                spec_get_string_fold(Seq::<char>::empty(), entries, ignore_pagination_params)
                    == spec_get_string_fold(
                    params_string@,
                    entries.skip(i as int),
                    ignore_pagination_params,
                ),
            decreases n - i,
        {
            proof {
                assert(entries.skip(i as int)[0] == entries[i as int]);
                assert(entries.skip(i as int).drop_first() =~= entries.skip(i + 1));
            }
            let ghost prev_acc = params_string@;
            let k = self.params.key_at(i).clone();
            let v = self.params.val_at(i).clone();
            let skip_entry = ignore_pagination_params && (str_eq(k.as_str(), "perPage") || str_eq(
                k.as_str(),
                "startIndex",
            ));
            if !skip_entry {
                if params_string.as_str().unicode_len() > 0 {
                    push_char(&mut params_string, '&');
                }
                params_string.append(k.as_str());
                push_char(&mut params_string, '=');
                params_string.append(v.as_str());
                proof {
                    assert(params_string@ =~= (if prev_acc.len() > 0 {
                        prev_acc + seq!['&']
                    } else {
                        prev_acc
                    }) + entries[i as int].0 + seq!['='] + entries[i as int].1);
                }
            }
            i = i + 1;
        }
        proof {
            assert(entries.skip(n as int) =~= Seq::<(Seq<char>, Seq<char>)>::empty());
        }
        params_string
    }
}

} // verus!
