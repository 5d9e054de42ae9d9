use vstd::prelude::*;
use vstd::utf8::{valid_utf8, decode_utf8};

use crate::headers::{HTTPHeaders, position};
use crate::status::Status;
use crate::text::{chars_equal, chars_of, find_from, split_chars, string_of, parse_bounded, lemma_find_bound, split, split_once, unsigned_value};

verus! {

/// The largest request body accepted, in bytes.
pub const MAX_CONTENT: usize = 2_097_152;

#[derive(Debug, Clone, Copy, PartialEq, Eq, Structural)]
pub enum RequestMethod {
    GET,
    POST,
}

/// The method that a request-line field names, if it is a supported one.
pub open spec fn method_of(s: Seq<char>) -> Option<RequestMethod> {
    if s == seq!['G', 'E', 'T'] {
        Some(RequestMethod::GET)
    } else if s == seq!['P', 'O', 'S', 'T'] {
        Some(RequestMethod::POST)
    } else {
        None
    }
}

pub open spec fn method_has_body(m: RequestMethod) -> bool {
    m == RequestMethod::POST
}

fn method_from_chars(v: &Vec<char>) -> (r: Option<RequestMethod>)
    ensures
        r == method_of(v@),
{
    let get: Vec<char> = vec!['G', 'E', 'T'];
    let post: Vec<char> = vec!['P', 'O', 'S', 'T'];
    assert(get@ =~= seq!['G', 'E', 'T']);
    assert(post@ =~= seq!['P', 'O', 'S', 'T']);
    if chars_equal(v, &get) {
        Some(RequestMethod::GET)
    } else if chars_equal(v, &post) {
        Some(RequestMethod::POST)
    } else {
        None
    }
}

impl RequestMethod {
    pub fn from_string(method: &str) -> (r: Option<RequestMethod>)
        ensures
            r == method_of(method@),
    {
        method_from_chars(&chars_of(method))
    }

    pub fn supports_body(&self) -> (r: bool)
        ensures
            r == method_has_body(*self),
    {
        match self {
            RequestMethod::POST => true,
            _ => false,
        }
    }
}

#[derive(Debug)]
pub struct RequestBody {
    data: String,
}

impl View for RequestBody {
    type V = Seq<char>;

    closed spec fn view(&self) -> Seq<char> {
        self.data@
    }
}

impl RequestBody {
    pub fn from(data: String) -> (r: RequestBody)
        ensures
            r@ == data@,
    {
        RequestBody { data }
    }

    pub fn content(&self) -> (r: &String)
        ensures
            r@ == self@,
    {
        &self.data
    }
}

pub struct Request {
    pub method: RequestMethod,
    pub path: String,
    pub headers: HTTPHeaders,
    pub body: Option<RequestBody>,
}

pub open spec fn body_view(b: Option<RequestBody>) -> Option<Seq<char>> {
    match b {
        Some(b) => Some(b@),
        None => None,
    }
}

impl Request {
    pub fn build(method: RequestMethod, path: String, body: Option<String>) -> (r: Request)
        ensures
            r.method == method,
            r.path@ == path@,
            r.headers@ == Seq::<(Seq<char>, Seq<char>)>::empty(),
            body_view(r.body) == (match body {
                Some(s) => Some(s@),
                None => None::<Seq<char>>,
            }),
    {
        Request {
            method,
            path,
            headers: HTTPHeaders::new(),
            body: match body {
                Some(body) => Some(RequestBody::from(body)),
                None => None,
            },
        }
    }

    pub fn default() -> (r: Request)
        ensures
            r.method == RequestMethod::GET,
            r.path@ == seq!['/'],
            r.headers@ == Seq::<(Seq<char>, Seq<char>)>::empty(),
            r.body is None,
    {
        let mut path = String::new();
        crate::text::push_char(&mut path, '/');
        Request::build(RequestMethod::GET, path, None)
    }
}

/// Why a request could not be parsed: the status to answer with and a short cause.
#[derive(Debug)]
pub struct HttpError {
    pub status: u16,
    pub cause: String,
}

/// The error of a malformed request.
pub open spec fn is_bad_request(e: HttpError) -> bool {
    e.status == 400 && e.cause@ == "Bad Request"@
}

/// The error of a request whose method is not supported.
pub open spec fn is_not_allowed(e: HttpError) -> bool {
    e.status == 405 && e.cause@ == "Method Not Allowed"@
}

/// The error that a status code of a parse failure stands for.
pub open spec fn error_for(e: HttpError, status: u16) -> bool {
    if status == 405 {
        is_not_allowed(e)
    } else {
        is_bad_request(e)
    }
}

pub fn err_bad_request() -> (r: HttpError)
    ensures
        is_bad_request(r),
{
    HttpError { status: Status::bad_request(), cause: "Bad Request".to_owned() }
}

/// The method, path and version of a request line, or the status of its failure.
pub open spec fn line_result(line: Seq<char>) -> Result<(RequestMethod, Seq<char>, Seq<char>), u16> {
    let f = split(line, seq![' ']);
    if f.len() != 3 {
        Err(400)
    } else {
        match method_of(f[0]) {
            Some(m) => Ok((m, f[1], f[2])),
            None => Err(405),
        }
    }
}

pub fn parse_request_line(request_line: &Vec<char>) -> (r: Result<
    (RequestMethod, String, String),
    HttpError,
>)
    ensures
        match line_result(request_line@) {
            Ok((m, p, v)) => r matches Ok(t) && t.0 == m && t.1@ == p && t.2@ == v,
            Err(c) => r matches Err(e) && error_for(e, c),
        },
{
    let sep: Vec<char> = vec![' '];
    assert(sep@ =~= seq![' ']);
    let fields = split_chars(request_line, &sep);
    let ghost f = split(request_line@, seq![' ']);
    assert(fields@.len() == f.len());
    if fields.len() != 3 {
        return Err(err_bad_request());
    }
    assert(fields@[0]@ == f[0] && fields@[1]@ == f[1] && fields@[2]@ == f[2]);
    let method = match method_from_chars(&fields[0]) {
        Some(m) => m,
        None => {
            return Err(
                HttpError { status: Status::method_not_allowed(), cause: "Method Not Allowed".to_owned() },
            );
        },
    };
    let path = string_of(&fields[1], 0, fields[1].len());
    let version = string_of(&fields[2], 0, fields[2].len());
    assert(fields@[1]@.subrange(0, fields@[1]@.len() as int) =~= fields@[1]@);
    assert(fields@[2]@.subrange(0, fields@[2]@.len() as int) =~= fields@[2]@);
    Ok((method, path, version))
}

pub open spec fn header_sep() -> Seq<char> {
    seq![':', ' ']
}

/// A header line split at its first `": "` into name and value; a line without one
/// is a malformed request.
pub fn split_header_line(header_line: &Vec<char>) -> (r: Result<(String, String), HttpError>)
    ensures
        match split_once(header_line@, header_sep()) {
            Some((n, v)) => r matches Ok(t) && t.0@ == n && t.1@ == v,
            None => r matches Err(e) && is_bad_request(e),
        },
{
    let sep: Vec<char> = vec![':', ' '];
    assert(sep@ =~= header_sep());
    let e = find_from(header_line, &sep, 0);
    assert(header_line@.subrange(0, header_line@.len() as int) =~= header_line@);
    proof {
        lemma_find_bound(header_line@, header_sep());
    }
    if e >= header_line.len() || header_line.len() - e < 2 {
        return Err(err_bad_request());
    }
    Ok((string_of(header_line, 0, e), string_of(header_line, e + 2, header_line.len())))
}

pub open spec fn all_headers_split(lines: Seq<Seq<char>>) -> bool {
    forall|i: int| 0 <= i < lines.len() ==> (#[trigger] split_once(lines[i], header_sep())) is Some
}

pub open spec fn split_headers(lines: Seq<Seq<char>>) -> Seq<(Seq<char>, Seq<char>)> {
    lines.map_values(|l: Seq<char>| split_once(l, header_sep())->Some_0)
}

/// The header lines `lines[from..]`, each split at its first `": "`, in order.
fn parse_request_headers(lines: &Vec<Vec<char>>, from: usize) -> (r: Result<HTTPHeaders, HttpError>)
    requires
        from <= lines.len(),
    ensures
        ({
            let ls = lines@.map_values(|v: Vec<char>| v@).subrange(from as int, lines.len() as int);
            if all_headers_split(ls) {
                r matches Ok(h) && h@ == split_headers(ls)
            } else {
                r matches Err(e) && is_bad_request(e)
            }
        }),
{
    let ghost all = lines@.map_values(|v: Vec<char>| v@);
    let ghost ls = all.subrange(from as int, lines.len() as int);
    let mut pairs: Vec<(String, String)> = Vec::new();
    let mut i: usize = from;
    while i < lines.len()
        invariant
            from <= i <= lines.len(),
            all == lines@.map_values(|v: Vec<char>| v@),
            ls == all.subrange(from as int, lines.len() as int),
            all_headers_split(ls.subrange(0, i - from)),
            pairs@.map_values(|p: (String, String)| (p.0@, p.1@)) == split_headers(
                ls.subrange(0, i - from),
            ),
        decreases lines.len() - i,
    {
        assert(ls[i - from] == lines@[i as int]@);
        let pair = match split_header_line(&lines[i]) {
            Ok(p) => p,
            Err(e) => {
                assert(!all_headers_split(ls)) by {
                    assert(split_once(ls[i - from], header_sep()) is None);
                }
                return Err(e);
            },
        };
        let ghost before = pairs@.map_values(|p: (String, String)| (p.0@, p.1@));
        let ghost pv = (pair.0@, pair.1@);
        pairs.push(pair);
        proof {
            let pre = ls.subrange(0, i - from);
            let post = ls.subrange(0, i + 1 - from);
            assert(post =~= pre.push(ls[i - from]));
            assert(all_headers_split(post)) by {
                assert forall|k: int| 0 <= k < post.len() implies (#[trigger] split_once(
                    post[k],
                    header_sep(),
                )) is Some by {
                    if k < pre.len() {
                        assert(post[k] == pre[k]);
                    }
                }
            }
            assert(pairs@.map_values(|p: (String, String)| (p.0@, p.1@)) =~= before.push(pv));
            assert(split_headers(post) =~= split_headers(pre).push(pv));
        }
        i += 1;
    }
    assert(ls.subrange(0, i - from) =~= ls);
    Ok(HTTPHeaders::from_headers(pairs))
}

/// A line without the `\r` of a CRLF ending.
pub open spec fn strip_cr(l: Seq<char>) -> Seq<char> {
    if l.len() > 0 && l.last() == '\r' {
        l.drop_last()
    } else {
        l
    }
}

/// The lines of a request head; each may end in CRLF or in LF alone.
pub open spec fn head_lines(head: Seq<char>) -> Seq<Seq<char>> {
    split(head, seq!['\n']).map_values(|l: Seq<char>| strip_cr(l))
}

/// What a request head parses to: method, path and headers, or the status of its failure.
pub open spec fn head_result(head: Seq<char>) -> Result<
    (RequestMethod, Seq<char>, Seq<(Seq<char>, Seq<char>)>),
    u16,
> {
    let lines = head_lines(head);
    let rest = lines.subrange(1, lines.len() as int);
    match line_result(lines[0]) {
        Err(c) => Err(c),
        Ok((m, p, _)) => if all_headers_split(rest) {
            Ok((m, p, split_headers(rest)))
        } else {
            Err(400)
        },
    }
}

pub proof fn lemma_split_nonempty(s: Seq<char>, p: Seq<char>)
    ensures
        split(s, p).len() >= 1,
{
    reveal_with_fuel(split, 1);
}

/// The lines of a request head, split at each LF and without a CR before it.
fn split_head_lines(head: &str) -> (r: Vec<Vec<char>>)
    ensures
        r@.map_values(|v: Vec<char>| v@) == head_lines(head@),
        r.len() >= 1,
{
    let chars = chars_of(head);
    let sep: Vec<char> = vec!['\n'];
    assert(sep@ =~= seq!['\n']);
    let pieces = split_chars(&chars, &sep);
    proof {
        lemma_split_nonempty(head@, seq!['\n']);
    }
    let ghost raw = pieces@.map_values(|v: Vec<char>| v@);
    let mut out: Vec<Vec<char>> = Vec::new();
    let mut i: usize = 0;
    while i < pieces.len()
        invariant
            i <= pieces.len(),
            raw == pieces@.map_values(|v: Vec<char>| v@),
            raw == split(head@, seq!['\n']),
            out@.map_values(|v: Vec<char>| v@) == raw.subrange(0, i as int).map_values(
                |l: Seq<char>| strip_cr(l),
            ),
        decreases pieces.len() - i,
    {
        let mut line: Vec<char> = Vec::new();
        let n = pieces[i].len();
        let m = if n > 0 && pieces[i][n - 1] == '\r' { n - 1 } else { n };
        let mut j: usize = 0;
        while j < m
            invariant
                i < pieces.len(),
                m <= n == pieces@[i as int]@.len(),
                j <= m,
                line@ == pieces@[i as int]@.subrange(0, j as int),
            decreases m - j,
        {
            line.push(pieces[i][j]);
            j += 1;
            assert(line@ =~= pieces@[i as int]@.subrange(0, j as int));
        }
        let ghost before = out@.map_values(|v: Vec<char>| v@);
        proof {
            let l = raw[i as int];
            assert(l == pieces@[i as int]@);
            if m == n {
                assert(line@ =~= l);
            } else {
                assert(line@ =~= l.drop_last());
            }
            assert(line@ == strip_cr(l));
        }
        let ghost lv = line@;
        out.push(line);
        proof {
            assert(out@.map_values(|v: Vec<char>| v@) =~= before.push(lv));
            assert(raw.subrange(0, i + 1) =~= raw.subrange(0, i as int).push(raw[i as int]));
            assert(raw.subrange(0, i + 1).map_values(|l: Seq<char>| strip_cr(l)) =~= raw.subrange(
                0,
                i as int,
            ).map_values(|l: Seq<char>| strip_cr(l)).push(strip_cr(raw[i as int])));
        }
        i += 1;
    }
    assert(raw.subrange(0, i as int) =~= raw);
    out
}

/// Parses a request head: the request line and the header lines, without the blank
/// line that ends it. The request has no body yet.
pub fn build_request(head: &str) -> (r: Result<Request, HttpError>)
    ensures
        match head_result(head@) {
            Ok((m, p, hs)) => r matches Ok(req) && req.method == m && req.path@ == p
                && req.headers@ == hs && req.body is None,
            Err(c) => r matches Err(e) && error_for(e, c),
        },
{
    let lines = split_head_lines(head);
    let ghost all = lines@.map_values(|v: Vec<char>| v@);
    assert(all[0] == lines@[0]@);
    let (method, path, _version) = match parse_request_line(&lines[0]) {
        Ok(t) => t,
        Err(e) => {
            return Err(e);
        },
    };
    let headers = match parse_request_headers(&lines, 1) {
        Ok(h) => h,
        Err(e) => {
            return Err(e);
        },
    };
    let mut req = Request::build(method, path, None);
    req.headers = headers;
    Ok(req)
}

/// How many body bytes a request announces: none for a method without a body or
/// where no `Content-Length` header is present (the first one counts where there are
/// several), and the status 400 where its value is not a number or exceeds `MAX_CONTENT`.
pub open spec fn body_length_result(m: RequestMethod, hs: Seq<(Seq<char>, Seq<char>)>) -> Result<
    Option<nat>,
    u16,
> {
    let i = position(hs, "Content-Length"@);
    if !method_has_body(m) || i < 0 {
        Ok(None)
    } else {
        match unsigned_value(hs[i].1) {
            Some(n) => if n <= MAX_CONTENT {
                Ok(Some(n))
            } else {
                Err(400)
            },
            None => Err(400),
        }
    }
}

/// The number of body bytes to read for a parsed request head.
pub fn content_length(req: &Request) -> (r: Result<Option<usize>, HttpError>)
    ensures
        match body_length_result(req.method, req.headers@) {
            Ok(None) => r matches Ok(None),
            Ok(Some(n)) => r matches Ok(Some(k)) && k == n && k <= MAX_CONTENT,
            Err(_) => r matches Err(e) && is_bad_request(e),
        },
{
    if !req.method.supports_body() {
        return Ok(None);
    }
    match req.headers.get_header("Content-Length") {
        None => Ok(None),
        Some(h) => {
            let value = chars_of(h.value().as_str());
            match parse_bounded(&value, MAX_CONTENT as u64) {
                Some(n) => Ok(Some(n as usize)),
                None => Err(err_bad_request()),
            }
        },
    }
}

/// Relies on `String::from_utf8`: it accepts exactly the valid UTF-8 byte strings,
/// and decodes them.
#[verifier::external_body]
fn text_from_utf8(bytes: Vec<u8>) -> (r: Option<String>)
    ensures
        match r {
            Some(s) => valid_utf8(bytes@) && s@ == decode_utf8(bytes@),
            None => !valid_utf8(bytes@),
        },
{
    String::from_utf8(bytes).ok()
}

/// The body text of a request that announced `expected` bytes, from the bytes that were
/// received: a short read or bytes that are not UTF-8 give 400.
pub fn read_body(expected: usize, received: Vec<u8>) -> (r: Result<String, HttpError>)
    ensures
        received@.len() == expected && valid_utf8(received@) ==> (r matches Ok(s) && s@
            == decode_utf8(received@)),
        !(received@.len() == expected && valid_utf8(received@)) ==> (r matches Err(e)
            && is_bad_request(e)),
{
    if received.len() != expected {
        return Err(err_bad_request());
    }
    match text_from_utf8(received) {
        Some(s) => Ok(s),
        None => Err(err_bad_request()),
    }
}

} // verus!
