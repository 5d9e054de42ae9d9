use vstd::prelude::*;

use crate::req::{HttpError, Request, RequestMethod, head_result};
use crate::res::{Response, ResponseBody, finalized, wire, lemma_wire_shape};
use crate::handlers::{default_route_handler, is_static_path};
use crate::text::{decimal, push_decimal};

verus! {

/// A registered route: an exact path, a method, and the handler that serves them.
pub struct AppRoute<H> {
    pub path: String,
    pub method: RequestMethod,
    pub handler: H,
}

/// Where a request is dispatched: a registered route (by its index), the built-in
/// static-file handler, or the built-in "not found" handler.
#[derive(Debug, Clone, Copy, PartialEq, Eq, Structural)]
pub enum Handler {
    Route(usize),
    StaticFile,
    NotFound,
}

/// Index of the first route for (`path`, `method`), or -1.
pub open spec fn route_index(keys: Seq<(Seq<char>, RequestMethod)>, path: Seq<char>, method: RequestMethod) -> int
    decreases keys.len(),
{
    if keys.len() == 0 {
        -1
    } else if keys[0] == (path, method) {
        0
    } else {
        let p = route_index(keys.drop_first(), path, method);
        if p < 0 {
            -1
        } else {
            p + 1
        }
    }
}

/// The handler that a request for (`path`, `method`) goes to.
pub open spec fn dispatch(keys: Seq<(Seq<char>, RequestMethod)>, path: Seq<char>, method: RequestMethod) -> Handler {
    let i = route_index(keys, path, method);
    if i >= 0 {
        Handler::Route(i as usize)
    } else if is_static_path(path) {
        Handler::StaticFile
    } else {
        Handler::NotFound
    }
}

pub proof fn lemma_route_index(keys: Seq<(Seq<char>, RequestMethod)>, path: Seq<char>, method: RequestMethod)
    ensures
        -1 <= route_index(keys, path, method) < keys.len(),
        route_index(keys, path, method) >= 0 ==> keys[route_index(keys, path, method)] == (path, method),
        route_index(keys, path, method) < 0 ==> forall|i: int| 0 <= i < keys.len() ==> keys[i] != (path, method),
        forall|i: int| 0 <= i < route_index(keys, path, method) ==> keys[i] != (path, method),
    decreases keys.len(),
{
    if keys.len() > 0 && keys[0] != (path, method) {
        lemma_route_index(keys.drop_first(), path, method);
        assert forall|i: int| 1 <= i < keys.len() implies keys[i] == keys.drop_first()[i - 1] by {}
    }
}

/// A server's address and route table. Routes are registered before the server starts
/// and no (path, method) pair is registered twice.
pub struct HTTPServer<H> {
    addr: String,
    routes: Vec<AppRoute<H>>,
}

impl<H> HTTPServer<H> {
    /// The (path, method) pairs of the registered routes, in order of registration.
    pub closed spec fn keys(&self) -> Seq<(Seq<char>, RequestMethod)> {
        self.routes@.map_values(|r: AppRoute<H>| (r.path@, r.method))
    }

    /// The handlers of the registered routes, in the same order.
    pub closed spec fn handlers(&self) -> Seq<H> {
        self.routes@.map_values(|r: AppRoute<H>| r.handler)
    }

    pub closed spec fn address(&self) -> Seq<char> {
        self.addr@
    }

    /// No two routes share a (path, method) pair.
    pub open spec fn wf(&self) -> bool {
        forall|i: int, j: int|
            0 <= i < j < self.keys().len() ==> self.keys()[i] != self.keys()[j]
    }

    pub open spec fn is_registered(&self, path: Seq<char>, method: RequestMethod) -> bool {
        exists|i: int| 0 <= i < self.keys().len() && self.keys()[i] == (path, method)
    }

    pub fn new(hostname: &str, port: u16) -> (r: HTTPServer<H>)
        ensures
            r.address() == hostname@ + seq![':'] + decimal(port as nat),
            r.keys() == Seq::<(Seq<char>, RequestMethod)>::empty(),
            r.handlers() == Seq::<H>::empty(),
            r.wf(),
    {
        let mut addr = hostname.to_owned();
        crate::text::push_char(&mut addr, ':');
        push_decimal(&mut addr, port as u64);
        let r = HTTPServer { addr, routes: Vec::new() };
        assert(r.keys() =~= Seq::<(Seq<char>, RequestMethod)>::empty());
        assert(r.handlers() =~= Seq::<H>::empty());
        r
    }

    /// The `host:port` address the server listens on.
    pub fn addr(&self) -> (r: &String)
        ensures
            r@ == self.address(),
    {
        &self.addr
    }

    fn get_route(&self, path: &str, method: RequestMethod) -> (r: Option<usize>)
        ensures
            match r {
                Some(i) => route_index(self.keys(), path@, method) == i,
                None => route_index(self.keys(), path@, method) < 0,
            },
    {
        let key = path.to_owned();
        let ghost ks = self.keys();
        let mut i: usize = 0;
        assert(ks.subrange(0, ks.len() as int) =~= ks);
        while i < self.routes.len()
            invariant
                ks == self.keys(),
                i <= ks.len(),
                key@ == path@,
                route_index(ks, path@, method) == (if route_index(
                    ks.subrange(i as int, ks.len() as int),
                    path@,
                    method,
                ) < 0 {
                    -1
                } else {
                    i + route_index(ks.subrange(i as int, ks.len() as int), path@, method)
                }),
            decreases ks.len() - i,
        {
            let ghost rest = ks.subrange(i as int, ks.len() as int);
            assert(rest[0] == (self.routes@[i as int].path@, self.routes@[i as int].method));
            if self.routes[i].path == key && self.routes[i].method == method {
                return Some(i);
            }
            assert(rest.drop_first() =~= ks.subrange(i + 1, ks.len() as int));
            i += 1;
        }
        None
    }

    pub fn route_exists(&self, path: &str, method: RequestMethod) -> (r: bool)
        ensures
            r == self.is_registered(path@, method),
    {
        proof {
            lemma_route_index(self.keys(), path@, method);
        }
        self.get_route(path, method).is_some()
    }

    fn add_route(&mut self, path: &str, method: RequestMethod, handler: H)
        requires
            old(self).wf(),
            !old(self).is_registered(path@, method),
        ensures
            final(self).wf(),
            final(self).address() == old(self).address(),
            final(self).keys() == old(self).keys().push((path@, method)),
            final(self).handlers() == old(self).handlers().push(handler),
    {
        self.routes.push(AppRoute { path: path.to_owned(), method, handler });
        assert(self.keys() =~= old(self).keys().push((path@, method)));
        assert(self.handlers() =~= old(self).handlers().push(handler));
        assert(self.wf()) by {
            assert forall|i: int, j: int| 0 <= i < j < self.keys().len() implies self.keys()[i]
                != self.keys()[j] by {
                if j == self.keys().len() - 1 {
                    assert(self.keys()[i] == old(self).keys()[i]);
                }
            }
        }
    }

    /// Registers a GET route. A (path, method) pair may be registered once only.
    pub fn get(&mut self, path: &str, handler: H)
        requires
            old(self).wf(),
            !old(self).is_registered(path@, RequestMethod::GET),
        ensures
            final(self).wf(),
            final(self).address() == old(self).address(),
            final(self).keys() == old(self).keys().push((path@, RequestMethod::GET)),
            final(self).handlers() == old(self).handlers().push(handler),
            final(self).is_registered(path@, RequestMethod::GET),
    {
        self.add_route(path, RequestMethod::GET, handler);
        assert(self.keys()[self.keys().len() - 1] == (path@, RequestMethod::GET));
    }

    /// Registers a POST route. A (path, method) pair may be registered once only.
    pub fn post(&mut self, path: &str, handler: H)
        requires
            old(self).wf(),
            !old(self).is_registered(path@, RequestMethod::POST),
        ensures
            final(self).wf(),
            final(self).address() == old(self).address(),
            final(self).keys() == old(self).keys().push((path@, RequestMethod::POST)),
            final(self).handlers() == old(self).handlers().push(handler),
            final(self).is_registered(path@, RequestMethod::POST),
    {
        self.add_route(path, RequestMethod::POST, handler);
        assert(self.keys()[self.keys().len() - 1] == (path@, RequestMethod::POST));
    }

    /// The handler of the route at index `i`.
    pub fn handler_at(&self, i: usize) -> (r: &H)
        requires
            i < self.keys().len(),
        ensures
            *r == self.handlers()[i as int],
    {
        &self.routes[i]
            .handler
    }

    /// Where a parsed request goes: the first registered route with its exact path and
    /// method, else the static-file handler for a path under `/static/`, else "not found".
    pub fn select_handler(&self, request: &Request) -> (r: Handler)
        ensures
            r == dispatch(self.keys(), request.path@, request.method),
            r matches Handler::Route(i) ==> i < self.keys().len(),
    {
        proof {
            lemma_route_index(self.keys(), request.path@, request.method);
        }
        match self.get_route(request.path.as_str(), request.method) {
            Some(i) => Handler::Route(i),
            None => match default_route_handler(request) {
                Some(h) => h,
                None => Handler::NotFound,
            },
        }
    }
}

/// The wire form of a handled request: the response as the handler left it, with the
/// body it returned.
pub fn respond(res: Response, body: ResponseBody) -> (r: String)
    ensures
        r@ == wire(
            res.status,
            finalized(res.headers@, body.data@, body.declared_type()),
            body.data@,
        ),
{
    let mut res = res;
    res.body = body;
    res.build_response()
}

/// The wire form of the answer to a request that could not be parsed.
pub fn error_response(err: HttpError) -> (r: String)
    ensures
        r@ == wire(
            err.status,
            finalized(Seq::empty(), err.cause@, None),
            err.cause@,
        ),
{
    let mut res = Response::new();
    res.status = err.status;
    res.body = ResponseBody::from_data(err.cause);
    res.build_response()
}

/// A well-formed request head whose path and method are registered goes to that route's
/// handler, and what is sent is the status that the handler left (200 unless it set
/// another), then the headers, then the body that the handler returned.
pub proof fn lemma_registered_route_served<H>(
    server: HTTPServer<H>,
    head: Seq<char>,
    i: int,
    status: u16,
    hs: Seq<(Seq<char>, Seq<char>)>,
    body: Seq<char>,
)
    requires
        server.wf(),
        head_result(head) is Ok,
        0 <= i < server.keys().len(),
        server.keys()[i] == (head_result(head)->Ok_0.1, head_result(head)->Ok_0.0),
    ensures
        dispatch(server.keys(), head_result(head)->Ok_0.1, head_result(head)->Ok_0.0)
            == Handler::Route(i as usize),
        ({
            let w = wire(status, hs, body);
            let line = "HTTP/1.1 "@ + decimal(status as nat) + " \r\n"@;
            w.subrange(0, line.len() as int) == line && w.subrange(
                w.len() - body.len(),
                w.len() as int,
            ) == body
        }),
{
    let path = head_result(head)->Ok_0.1;
    let method = head_result(head)->Ok_0.0;
    lemma_route_index(server.keys(), path, method);
    let k = route_index(server.keys(), path, method);
    if k != i {
        if k < i {
            assert(server.keys()[k] == server.keys()[i]);
        }
    }
    lemma_wire_shape(status, hs, body);
}

} // verus!
