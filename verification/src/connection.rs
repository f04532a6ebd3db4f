//! Request processing: HTTP methods, wire parsing, response formatting,
//! per-client sessions, and the dispatcher that ties them together.

pub mod method;
pub mod request;
pub mod response;
pub mod session;

use vstd::prelude::*;
use crate::connection::request::{spec_parse, ParseError, Request};
use crate::connection::response::{
    error404, format_content, spec_error404_bytes, spec_success_bytes,
};
use crate::connection::session::{spec_resolve_sid, Sessions};
use crate::routing::{spec_has_route, spec_register, Handler, Routes};

verus! {

/// The per-connection dispatcher: it owns the route table and the
/// session store and carries one request from raw bytes to response
/// bytes. The caller does the reading and writing; nothing here touches
/// a connection.
pub struct RequestHandler<H: Handler> {
    routes: Routes<H>,
    sessions: Sessions,
}

impl<H: Handler> RequestHandler<H> {
    /// The route table.
    pub closed spec fn spec_routes(self) -> Routes<H> {
        self.routes
    }

    /// The session store.
    pub closed spec fn spec_sessions(self) -> Sessions {
        self.sessions
    }

    /// A dispatcher over the given tables.
    pub fn new(routes: Routes<H>, sessions: Sessions) -> (r: RequestHandler<H>)
        ensures
            r.spec_routes() == routes,
            r.spec_sessions() == sessions,
    {
        RequestHandler { routes, sessions }
    }

    /// Registers `f` at `path`; the first registration at a path wins.
    pub fn route(&mut self, path: &str, f: H)
        ensures
            final(self).spec_routes().entries() == spec_register(
                old(self).spec_routes().entries(),
                path@,
                f,
            ),
            final(self).spec_sessions() == old(self).spec_sessions(),
    {
        self.routes.add(path, f);
    }

    /// Carries one request to completion: parse the bytes, look the path
    /// up, resolve the session, run the handler, format the response.
    ///
    /// A parse failure aborts the connection with its error and changes
    /// nothing. An unregistered path yields the fixed not-found bytes and
    /// leaves the session store untouched. A registered path yields
    /// success bytes that echo the resolved session identifier — the
    /// requested one when the store knows it, a fresh one otherwise —
    /// and only that session's state can have changed.
    pub fn resolve(&mut self, data: &[u8]) -> (r: Result<Vec<u8>, ParseError>)
        ensures
            final(self).spec_routes() == old(self).spec_routes(),
            match spec_parse(data@) {
                Err(e) => r == Err::<Vec<u8>, ParseError>(e) && final(self).spec_sessions() == old(
                    self,
                ).spec_sessions(),
                Ok(req) => {
                    if !spec_has_route(old(self).spec_routes().entries(), req.resource) {
                        &&& r matches Ok(v) && v@ == spec_error404_bytes()
                        &&& final(self).spec_sessions() == old(self).spec_sessions()
                    } else {
                        let count = old(self).spec_sessions()@.len();
                        let sid = spec_resolve_sid(count, req.session);
                        &&& r matches Ok(v) && (exists|body: Seq<char>|
                            v@ == spec_success_bytes(body, sid))
                        &&& (sid as int) < final(self).spec_sessions()@.len()
                        &&& final(self).spec_sessions()@.len() == (if sid < count {
                            count as int
                        } else {
                            count as int + 1
                        })
                        &&& forall|j: int|
                            0 <= j < count && j != sid ==> final(self).spec_sessions()@[j] == old(
                                self,
                            ).spec_sessions()@[j]
                    }
                },
            },
    {
        let request = match Request::parse(data) {
            Ok(req) => req,
            Err(e) => {
                return Err(e);
            },
        };
        let route = self.routes.get_route(request.resource.as_str());
        match route {
            Some(route) => {
                let f = route.get_fn();
                let session_id = self.sessions.resolve(request.session);
                let session = self.sessions.get(session_id);
                let response = f.handle(request, session);
                let length = response.as_str().as_bytes().len();
                let fmt_response = format_content(length, response.as_str(), session_id);
                proof {
                    assert(fmt_response@ == spec_success_bytes(
                        response@,
                        session_id as nat,
                    ));
                }
                Ok(fmt_response)
            },
            None => {
                let err = error404();
                Ok(err.as_str().as_bytes_vec())
            },
        }
    }
}

} // verus!
