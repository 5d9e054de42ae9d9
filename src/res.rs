use vstd::prelude::*;
use vstd::string::StringExecFns;
use vstd::utf8::encode_utf8;

use crate::headers::{HTTPHeaders, position, set_if_absent_spec, lemma_position_push, lemma_position_bound, lemma_set_if_absent_twice};
use crate::status::Status;
use crate::text::{decimal, push_decimal};

verus! {

/// The body sent where a file could be found but not read.
pub const SERVER_ERR_BODY: &'static str = "500, INTERNAL SERVER ERROR!";

/// A response body: its text and the content type that it declares, if any.
pub struct ResponseBody {
    pub data: String,
    pub content_type: Option<String>,
}

pub open spec fn opt_view(o: Option<String>) -> Option<Seq<char>> {
    match o {
        Some(s) => Some(s@),
        None => None,
    }
}

impl ResponseBody {
    /// The content type that the body declares, if any.
    pub open spec fn declared_type(&self) -> Option<Seq<char>> {
        opt_view(self.content_type)
    }

    pub fn build(data: String, content_type: Option<String>) -> (r: ResponseBody)
        ensures
            r.data@ == data@,
            r.declared_type() == opt_view(content_type),
    {
        ResponseBody { data, content_type }
    }

    pub fn from_data(data: String) -> (r: ResponseBody)
        ensures
            r.data@ == data@,
            r.declared_type() is None,
    {
        ResponseBody::build(data, None)
    }

    /// The declared content type, or `text/plain`.
    pub fn content_type(&self) -> (r: &str)
        ensures
            r@ == match self.declared_type() {
                Some(t) => t,
                None => "text/plain"@,
            },
    {
        match &self.content_type {
            Some(content_type) => content_type.as_str(),
            None => "text/plain",
        }
    }

    pub fn set_content_type(&mut self, content_type: String)
        ensures
            final(self).data@ == old(self).data@,
            final(self).declared_type() == Some(content_type@),
    {
        self.content_type = Some(content_type);
    }
}

/// The number of bytes in the UTF-8 encoding of `t`.
pub open spec fn byte_len(t: Seq<char>) -> nat {
    encode_utf8(t).len()
}

/// The headers of a response once serialisation has filled in what the handler left
/// unset: `Content-Length` from the body, then `Content-Type` where the body declares one.
pub open spec fn finalized(
    hs: Seq<(Seq<char>, Seq<char>)>,
    data: Seq<char>,
    declared: Option<Seq<char>>,
) -> Seq<(Seq<char>, Seq<char>)> {
    let with_length = set_if_absent_spec(hs, "Content-Length"@, decimal(byte_len(data)));
    match declared {
        Some(t) => set_if_absent_spec(with_length, "Content-Type"@, t),
        None => with_length,
    }
}

/// Header lines, each as `Name: Value` and CRLF, in order.
pub open spec fn header_lines(hs: Seq<(Seq<char>, Seq<char>)>) -> Seq<char>
    decreases hs.len(),
{
    if hs.len() == 0 {
        Seq::empty()
    } else {
        header_lines(hs.drop_last()) + hs.last().0 + ": "@ + hs.last().1 + "\r\n"@
    }
}

/// The wire form of a response: status line, header lines, a blank line, the body.
/// The status line is `HTTP/1.1 <code> ` with a space before its CRLF, as clients of
/// this server have always received it.
pub open spec fn wire(status: u16, hs: Seq<(Seq<char>, Seq<char>)>, data: Seq<char>) -> Seq<char> {
    "HTTP/1.1 "@ + decimal(status as nat) + " \r\n"@ + header_lines(hs) + "\r\n"@ + data
}

pub struct Response {
    pub status: u16,
    pub headers: HTTPHeaders,
    pub body: ResponseBody,
}

impl Response {
    pub fn new() -> (r: Response)
        ensures
            r.status == 200,
            r.headers@ == Seq::<(Seq<char>, Seq<char>)>::empty(),
            r.body.data@ == Seq::<char>::empty(),
            r.body.declared_type() is None,
    {
        Response {
            status: Status::success(),
            headers: HTTPHeaders::new(),
            body: ResponseBody { data: String::new(), content_type: None },
        }
    }

    /// Fills in the headers that the handler left unset and returns the response as
    /// sent on the wire.
    pub fn build_response(&mut self) -> (r: String)
        ensures
            final(self).status == old(self).status,
            final(self).body.data@ == old(self).body.data@,
            final(self).body.declared_type() == old(self).body.declared_type(),
            final(self).headers@ == finalized(
                old(self).headers@,
                old(self).body.data@,
                old(self).body.declared_type(),
            ),
            r@ == wire(final(self).status, final(self).headers@, final(self).body.data@),
    {
        let mut length = String::new();
        push_decimal(&mut length, self.body.data.as_str().as_bytes().len() as u64);
        assert(length@ == decimal(byte_len(self.body.data@)));
        self.headers.set_header_if_not_exists("Content-Length", length.as_str());
        match &self.body.content_type {
            Some(content_type) => self.headers.set_header_if_not_exists(
                "Content-Type",
                content_type.as_str(),
            ),
            None => (),
        }
        let mut res = String::new();
        res.append("HTTP/1.1 ");
        push_decimal(&mut res, self.status as u64);
        res.append(" \r\n");
        let ghost head = res@;
        let ghost hs = self.headers@;
        let n = self.headers.len();
        let mut i: usize = 0;
        while i < n
            invariant
                n == hs.len(),
                hs == self.headers@,
                i <= n,
                res@ == head + header_lines(hs.subrange(0, i as int)),
            decreases n - i,
        {
            let h = self.headers.at(i);
            res.append(h.name().as_str());
            res.append(": ");
            res.append(h.value().as_str());
            res.append("\r\n");
            assert(hs.subrange(0, i + 1).drop_last() =~= hs.subrange(0, i as int));
            i += 1;
        }
        assert(hs.subrange(0, n as int) =~= hs);
        res.append("\r\n");
        res.append(self.body.data.as_str());
        res
    }
}

pub fn send_string(string: &str) -> (r: ResponseBody)
    ensures
        r.data@ == string@,
        r.declared_type() is None,
{
    ResponseBody::from_data(string.to_owned())
}

/// Serialising a response fills in `Content-Length` with the body's length in bytes
/// where the handler set none, and serialising it again, unchanged, gives the same
/// headers and so the same bytes.
pub proof fn lemma_serialize_round_trip(
    status: u16,
    hs: Seq<(Seq<char>, Seq<char>)>,
    data: Seq<char>,
    declared: Option<Seq<char>>,
)
    ensures
        finalized(finalized(hs, data, declared), data, declared) == finalized(hs, data, declared),
        wire(status, finalized(finalized(hs, data, declared), data, declared), data) == wire(
            status,
            finalized(hs, data, declared),
            data,
        ),
        position(hs, "Content-Length"@) < 0 ==> ({
            let f = finalized(hs, data, declared);
            let i = position(f, "Content-Length"@);
            0 <= i < f.len() && f[i] == ("Content-Length"@, decimal(byte_len(data)))
        }),
{
    let len_name = "Content-Length"@;
    let len_value = decimal(byte_len(data));
    let h1 = set_if_absent_spec(hs, len_name, len_value);
    lemma_set_if_absent_twice(hs, len_name, len_value);
    lemma_position_push(hs, (len_name, len_value), len_name);
    match declared {
        Some(t) => {
            let h2 = set_if_absent_spec(h1, "Content-Type"@, t);
            lemma_set_if_absent_twice(h1, "Content-Type"@, t);
            lemma_position_push(h1, ("Content-Type"@, t), len_name);
            assert(set_if_absent_spec(h2, len_name, len_value) == h2);
            lemma_position_push(h1, ("Content-Type"@, t), "Content-Type"@);
            assert(set_if_absent_spec(h2, "Content-Type"@, t) == h2);
            lemma_position_bound(h2, len_name);
        },
        None => {
            lemma_position_bound(h1, len_name);
        },
    }
}

/// The wire form starts with the status line of the response's status and ends with
/// its body.
pub proof fn lemma_wire_shape(status: u16, hs: Seq<(Seq<char>, Seq<char>)>, data: Seq<char>)
    ensures
        ({
            let w = wire(status, hs, data);
            let line = "HTTP/1.1 "@ + decimal(status as nat) + " \r\n"@;
            w.len() >= line.len() + data.len() && w.subrange(0, line.len() as int) == line
                && w.subrange(w.len() - data.len(), w.len() as int) == data
        }),
{
    let line = "HTTP/1.1 "@ + decimal(status as nat) + " \r\n"@;
    let w = wire(status, hs, data);
    let mid = header_lines(hs) + "\r\n"@;
    assert(w =~= line + mid + data);
    assert(w.subrange(0, line.len() as int) =~= line);
    assert(w.subrange(w.len() - data.len(), w.len() as int) =~= data);
}

} // verus!
