//! Exact-path routing: a registry of `(path, handler)` bindings with
//! first-registration-wins semantics and linear lookup by string
//! equality. No prefix or wildcard matching exists.

use vstd::prelude::*;
use crate::connection::request::Request;
use crate::connection::session::Session;
use crate::text::str_eq;

verus! {

/// What a route runs: anything that takes the request and the client's
/// mutable session and yields the response body. Nothing is assumed of
/// an implementation; the dispatcher's contract holds whatever a handler
/// returns.
pub trait Handler: Sized {
    /// Produces the response body for a request.
    fn handle(&self, request: Request, session: &mut Session) -> String;
}

/// One `(path, handler)` binding.
pub struct Route<H> {
    path: String,
    handler: H,
}

impl<H> Route<H> {
    /// The path this route serves.
    pub closed spec fn spec_path(self) -> Seq<char> {
        self.path@
    }

    /// The handler behind this route.
    pub closed spec fn spec_handler(self) -> H {
        self.handler
    }

    /// Binds `handler` to `path`.
    pub fn new(path: String, handler: H) -> (r: Route<H>)
        ensures
            r.spec_path() == path@,
            r.spec_handler() == handler,
    {
        Route { path, handler }
    }

    /// The handler of this route.
    pub fn get_fn(&self) -> (f: &H)
        ensures
            *f == self.spec_handler(),
    {
        &self.handler
    }
}

/// Some entry serves `path`.
pub open spec fn spec_has_route<H>(entries: Seq<(Seq<char>, H)>, path: Seq<char>) -> bool {
    exists|i: int| 0 <= i < entries.len() && (#[trigger] entries[i]).0 == path
}

/// Index of the first entry serving `path`.
pub open spec fn spec_route_index<H>(entries: Seq<(Seq<char>, H)>, path: Seq<char>) -> int
    decreases entries.len(),
{
    if entries.len() == 0 {
        0
    } else if entries[0].0 == path {
        0
    } else {
        1 + spec_route_index(entries.drop_first(), path)
    }
}

/// The first-registered entry serving `path`, when there is one.
pub open spec fn spec_lookup<H>(entries: Seq<(Seq<char>, H)>, path: Seq<char>) -> Option<
    (Seq<char>, H),
> {
    if spec_has_route(entries, path) {
        Some(entries[spec_route_index(entries, path)])
    } else {
        None
    }
}

/// Registration with first-registration-wins: a path already served
/// keeps its table unchanged; otherwise the new binding is appended.
pub open spec fn spec_register<H>(entries: Seq<(Seq<char>, H)>, path: Seq<char>, handler: H) -> Seq<
    (Seq<char>, H),
> {
    if spec_has_route(entries, path) {
        entries
    } else {
        entries.push((path, handler))
    }
}

/// When some entry serves `path`, `spec_route_index` names the first.
pub proof fn lemma_route_index<H>(entries: Seq<(Seq<char>, H)>, path: Seq<char>)
    requires
        spec_has_route(entries, path),
    ensures
        0 <= spec_route_index(entries, path) < entries.len(),
        entries[spec_route_index(entries, path)].0 == path,
        forall|k: int| 0 <= k < spec_route_index(entries, path) ==> (#[trigger] entries[k]).0
            != path,
    decreases entries.len(),
{
    if entries.len() > 0 && entries[0].0 != path {
        let rest = entries.drop_first();
        let w = choose|i: int| 0 <= i < entries.len() && (#[trigger] entries[i]).0 == path;
        assert((rest[w - 1]).0 == path);
        lemma_route_index(rest, path);
        assert(forall|k: int|
            1 <= k < entries.len() ==> (#[trigger] entries[k]).0 == rest[k - 1].0);
    }
}

/// The route table.
pub struct Routes<H> {
    routes: Vec<Route<H>>,
}

impl<H> Routes<H> {
    /// The table as `(path, handler)` pairs in registration order.
    pub closed spec fn entries(self) -> Seq<(Seq<char>, H)> {
        self.routes@.map(|i: int, r: Route<H>| (r.spec_path(), r.spec_handler()))
    }

    /// An empty table.
    pub fn new() -> (r: Routes<H>)
        ensures
            r.entries() == Seq::<(Seq<char>, H)>::empty(),
    {
        let r = Routes { routes: Vec::new() };
        proof {
            assert(r.entries() =~= Seq::<(Seq<char>, H)>::empty());
        }
        r
    }

    /// Looks `path` up by exact string equality; the first registered
    /// route with that path wins.
    pub fn get_route(&self, path: &str) -> (r: Option<&Route<H>>)
        ensures
            match r {
                Some(route) => spec_lookup(self.entries(), path@) == Some(
                    (route.spec_path(), route.spec_handler()),
                ) && route.spec_path() == path@,
                None => !spec_has_route(self.entries(), path@),
            },
    {
        let n = self.routes.len();
        let mut i: usize = 0;
        while i < n
            invariant
                i <= n,
                n == self.routes@.len(),
                n == self.entries().len(),
                forall|k: int| 0 <= k < i ==> (#[trigger] self.entries()[k]).0 != path@,
            decreases n - i,
        {
            proof {
                assert(self.entries()[i as int] == (
                    self.routes@[i as int].spec_path(),
                    self.routes@[i as int].spec_handler(),
                ));
            }
            if str_eq(self.routes[i].path.as_str(), path) {
                proof {
                    let entries = self.entries();
                    assert((entries[i as int]).0 == path@);
                    lemma_route_index(entries, path@);
                    assert(spec_route_index(entries, path@) == i as int);
                }
                return Some(&self.routes[i]);
            }
            i = i + 1;
        }
        None
    }

    /// Registers `f` at `path`. If a route already serves `path` the
    /// call silently changes nothing: the first registration wins.
    pub fn add(&mut self, path: &str, f: H)
        ensures
            final(self).entries() == spec_register(old(self).entries(), path@, f),
    {
        if self.get_route(path).is_some() {
            return;
        }
        let route = Route::new(path.to_owned(), f);
        let ghost before = self.entries();
        self.routes.push(route);
        proof {
            assert(self.entries() =~= before.push((path@, f)));
        }
    }
}

/// Route first-write-wins: registering a second handler at a path that
/// is already served changes nothing; in particular, after registering
/// `first` and then `second` at a fresh path, lookup yields `first` and
/// never `second`.
pub proof fn lemma_route_first_write_wins<H>(
    entries: Seq<(Seq<char>, H)>,
    path: Seq<char>,
    first: H,
    second: H,
)
    ensures
        spec_register(spec_register(entries, path, first), path, second) == spec_register(
            entries,
            path,
            first,
        ),
        !spec_has_route(entries, path) ==> spec_lookup(
            spec_register(spec_register(entries, path, first), path, second),
            path,
        ) == Some((path, first)),
{
    let once = spec_register(entries, path, first);
    if spec_has_route(entries, path) {
        assert(once == entries);
    } else {
        assert(once == entries.push((path, first)));
        assert((once[entries.len() as int]).0 == path);
        assert(spec_has_route(once, path));
        lemma_route_index(once, path);
        let idx = spec_route_index(once, path);
        if idx < entries.len() {
            assert((entries[idx]).0 == (once[idx]).0);
            assert(spec_has_route(entries, path));
        }
        assert(idx == entries.len());
    }
    assert(spec_has_route(once, path)) by {
        if !spec_has_route(entries, path) {
            assert((once[entries.len() as int]).0 == path);
        }
    }
}

} // verus!
