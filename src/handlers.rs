use vstd::prelude::*;

use crate::req::Request;
use crate::res::{Response, ResponseBody, SERVER_ERR_BODY, opt_view, send_string};
use crate::server::Handler;
use crate::text::{chars_equal, chars_of, push_char};

verus! {

/// Whether `char::is_alphanumeric` holds of `c`.
pub uninterp spec fn alphanumeric(c: char) -> bool;

/// Relies on `char::is_alphanumeric`: ASCII letters and digits are alphanumeric.
#[verifier::external_body]
fn is_alphanumeric(c: char) -> (r: bool)
    ensures
        r == alphanumeric(c),
        ('a' <= c <= 'z') || ('A' <= c <= 'Z') || ('0' <= c <= '9') ==> r,
{
    c.is_alphanumeric()
}

/// Characters that may stand in a static file path as they are.
pub open spec fn kept_in_path(c: char) -> bool {
    alphanumeric(c) || c == '.' || c == '_' || c == '-' || c == '/'
}

/// `s` with every character that may not stand in a path replaced by `_`.
pub open spec fn sanitized(s: Seq<char>) -> Seq<char> {
    s.map_values(|c: char| if kept_in_path(c) { c } else { '_' })
}

pub fn sanitize_filename(filename: &str) -> (r: String)
    ensures
        r@ == sanitized(filename@),
{
    let n = filename.unicode_len();
    let mut r = String::new();
    let mut i: usize = 0;
    while i < n
        invariant
            n == filename@.len(),
            i <= n,
            r@ == sanitized(filename@.subrange(0, i as int)),
        decreases n - i,
    {
        let c = filename.get_char(i);
        let kept = is_alphanumeric(c) || c == '.' || c == '_' || c == '-' || c == '/';
        push_char(&mut r, if kept { c } else { '_' });
        i += 1;
        assert(r@ =~= sanitized(filename@.subrange(0, i as int)));
    }
    assert(filename@.subrange(0, n as int) =~= filename@);
    r
}

/// The file that a request under `/static/` asks for, relative to the working
/// directory: its path without the leading `/`, sanitised.
pub fn static_target(req: &Request) -> (r: String)
    requires
        req.path@.len() > 0,
    ensures
        r@ == sanitized(req.path@.drop_first()),
{
    let path = req.path.as_str();
    let rest = path.substring_char(1, path.unicode_len());
    assert(rest@ =~= req.path@.drop_first());
    sanitize_filename(rest)
}

/// Whether canonical path `p` lies in canonical directory `base`: it is `base` itself or
/// continues it after a `/`, so that whole path components are compared.
pub open spec fn path_within(base: Seq<char>, p: Seq<char>) -> bool {
    p == base || (base.len() < p.len() && p.subrange(0, base.len() as int) == base && (
    (base.len() > 0 && base.last() == '/') || p[base.len() as int] == '/'))
}

/// Decides whether the canonical form of a requested file lies inside the canonical
/// base directory; a file outside it is never served.
pub fn is_within(base: &str, candidate: &str) -> (r: bool)
    ensures
        r == path_within(base@, candidate@),
{
    let b = crate::text::chars_of(base);
    let p = crate::text::chars_of(candidate);
    if b.len() > p.len() {
        return false;
    }
    let mut i: usize = 0;
    while i < b.len()
        invariant
            b@ == base@,
            p@ == candidate@,
            b.len() <= p.len(),
            i <= b.len(),
            forall|k: int| 0 <= k < i ==> p@[k] == b@[k],
        decreases b.len() - i,
    {
        if b[i] != p[i] {
            assert(p@.subrange(0, b.len() as int)[i as int] != b@[i as int]);
            return false;
        }
        i += 1;
    }
    assert(p@.subrange(0, b.len() as int) =~= b@);
    if b.len() == p.len() {
        assert(p@ =~= b@);
        return true;
    }
    (b.len() > 0 && b[b.len() - 1] == '/') || p[b.len()] == '/'
}

pub fn not_found(_req: Request, res: &mut Response) -> (r: ResponseBody)
    ensures
        final(res).status == 404,
        final(res).headers@ == old(res).headers@,
        r.data@ == "404, PAGE NOT FOUND"@,
        r.declared_type() is None,
{
    res.status = 404;
    send_string("404, PAGE NOT FOUND")
}

pub fn empty_response(_req: Request, _res: &mut Response) -> (r: ResponseBody)
    ensures
        *final(_res) == *old(_res),
        r.data@ == Seq::<char>::empty(),
        r.declared_type() is None,
{
    ResponseBody::from_data(String::new())
}

/// Serves a static file from what came of looking for it: `None` where the path was
/// refused or could not be resolved (404); otherwise its canonical path and its text,
/// `None` where it could not be read. An unreadable file gets an error body but keeps
/// the response's status, as it always has.
pub fn static_file(req: Request, res: &mut Response, found: Option<(String, Option<String>)>) -> (r:
    ResponseBody)
    ensures
        match found {
            None => final(res).status == 404 && r.data@ == Seq::<char>::empty()
                && r.declared_type() is None,
            Some((path, Some(text))) => final(res).status == old(res).status && r.data@ == text@
                && r.declared_type() == Some(content_type_of(path@)),
            Some((_, None)) => final(res).status == old(res).status && r.data@
                == SERVER_ERR_BODY@ && r.declared_type() is None,
        },
        final(res).headers@ == old(res).headers@,
{
    match found {
        Some((path, Some(text))) => {
            let t = content_type_for(path.as_str());
            ResponseBody::build(text, Some(t))
        },
        Some((_, None)) => ResponseBody::from_data(SERVER_ERR_BODY.to_owned()),
        None => {
            res.status = 404;
            empty_response(req, res)
        },
    }
}

/// Index of the last `.` in `s`, or -1 where there is none.
pub open spec fn last_dot(s: Seq<char>) -> int
    decreases s.len(),
{
    if s.len() == 0 {
        -1
    } else if s.last() == '.' {
        s.len() - 1
    } else {
        last_dot(s.drop_last())
    }
}

/// The content type that a file name's extension (after its last `.`) stands for.
pub open spec fn content_type_of(name: Seq<char>) -> Seq<char> {
    let d = last_dot(name);
    let e = name.subrange(d + 1, name.len() as int);
    if d < 0 {
        "text/plain"@
    } else if e == seq!['j', 's', 'o', 'n'] {
        "application/json"@
    } else if e == seq!['c', 's', 's'] {
        "text/css"@
    } else if e == seq!['h', 't', 'm', 'l'] {
        "text/html"@
    } else if e == seq!['j', 's'] {
        "text/javascript"@
    } else if e == seq!['p', 'n', 'g'] {
        "image/png"@
    } else if e == seq!['j', 'p', 'g'] || e == seq!['j', 'p', 'e', 'g'] {
        "image/jpeg"@
    } else if e == seq!['g', 'i', 'f'] {
        "image/gif"@
    } else {
        "text/plain"@
    }
}

/// The content type of a file, from its extension.
pub fn content_type_for(filename: &str) -> (r: String)
    ensures
        r@ == content_type_of(filename@),
{
    let s = chars_of(filename);
    let mut last: Option<usize> = None;
    let mut i: usize = 0;
    while i < s.len()
        invariant
            i <= s.len(),
            s@ == filename@,
            match last {
                None => last_dot(s@.subrange(0, i as int)) == -1,
                Some(d) => last_dot(s@.subrange(0, i as int)) == d && d < i,
            },
        decreases s.len() - i,
    {
        assert(s@.subrange(0, i + 1).drop_last() =~= s@.subrange(0, i as int));
        if s[i] == '.' {
            last = Some(i);
        }
        i += 1;
    }
    assert(s@.subrange(0, i as int) =~= s@);
    let start = match last {
        None => {
            return "text/plain".to_owned();
        },
        Some(d) => d + 1,
    };
    let mut e: Vec<char> = Vec::new();
    let mut j: usize = start;
    while j < s.len()
        invariant
            start <= j <= s.len(),
            e@ == s@.subrange(start as int, j as int),
        decreases s.len() - j,
    {
        e.push(s[j]);
        j += 1;
        assert(e@ =~= s@.subrange(start as int, j as int));
    }
    let json: Vec<char> = vec!['j', 's', 'o', 'n'];
    let css: Vec<char> = vec!['c', 's', 's'];
    let html: Vec<char> = vec!['h', 't', 'm', 'l'];
    let js: Vec<char> = vec!['j', 's'];
    let png: Vec<char> = vec!['p', 'n', 'g'];
    let jpg: Vec<char> = vec!['j', 'p', 'g'];
    let jpeg: Vec<char> = vec!['j', 'p', 'e', 'g'];
    let gif: Vec<char> = vec!['g', 'i', 'f'];
    assert(json@ =~= seq!['j', 's', 'o', 'n']);
    assert(css@ =~= seq!['c', 's', 's']);
    assert(html@ =~= seq!['h', 't', 'm', 'l']);
    assert(js@ =~= seq!['j', 's']);
    assert(png@ =~= seq!['p', 'n', 'g']);
    assert(jpg@ =~= seq!['j', 'p', 'g']);
    assert(jpeg@ =~= seq!['j', 'p', 'e', 'g']);
    assert(gif@ =~= seq!['g', 'i', 'f']);
    if chars_equal(&e, &json) {
        "application/json".to_owned()
    } else if chars_equal(&e, &css) {
        "text/css".to_owned()
    } else if chars_equal(&e, &html) {
        "text/html".to_owned()
    } else if chars_equal(&e, &js) {
        "text/javascript".to_owned()
    } else if chars_equal(&e, &png) {
        "image/png".to_owned()
    } else if chars_equal(&e, &jpg) || chars_equal(&e, &jpeg) {
        "image/jpeg".to_owned()
    } else if chars_equal(&e, &gif) {
        "image/gif".to_owned()
    } else {
        "text/plain".to_owned()
    }
}

/// A path accepted as lying in the base directory starts with the base directory, so a
/// request that escapes it (through `..` or a link) is never served.
pub proof fn lemma_accepted_path_in_base(base: Seq<char>, p: Seq<char>)
    requires
        path_within(base, p),
    ensures
        base.len() <= p.len(),
        p.subrange(0, base.len() as int) == base,
{
    if p == base {
        assert(p.subrange(0, base.len() as int) =~= base);
    }
}

pub open spec fn static_prefix() -> Seq<char> {
    seq!['/', 's', 't', 'a', 't', 'i', 'c', '/']
}

pub open spec fn is_static_path(path: Seq<char>) -> bool {
    path.len() >= 8 && path.subrange(0, 8) == static_prefix()
}

/// The built-in route of a request that no registered route matches.
pub fn default_route_handler(request: &Request) -> (r: Option<Handler>)
    ensures
        r == (if is_static_path(request.path@) { Some(Handler::StaticFile) } else { None::<Handler> }),
{
    let p = crate::text::chars_of(request.path.as_str());
    let prefix: Vec<char> = vec!['/', 's', 't', 'a', 't', 'i', 'c', '/'];
    assert(prefix@ =~= static_prefix());
    if p.len() < 8 {
        return None;
    }
    let mut i: usize = 0;
    while i < 8
        invariant
            p@ == request.path@,
            prefix@ == static_prefix(),
            p.len() >= 8,
            i <= 8,
            forall|k: int| 0 <= k < i ==> p@[k] == prefix@[k],
        decreases 8 - i,
    {
        if p[i] != prefix[i] {
            assert(p@.subrange(0, 8)[i as int] != static_prefix()[i as int]);
            return None;
        }
        i += 1;
    }
    assert(p@.subrange(0, 8) =~= static_prefix());
    Some(Handler::StaticFile)
}

} // verus!
