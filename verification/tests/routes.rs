use rwf::connection::request::Request;
use rwf::connection::session::Session;
use rwf::routing::{Handler, Route, Routes};

/// A handler that always answers with a fixed text.
struct Fixed(&'static str);

impl Handler for Fixed {
    fn handle(&self, _request: Request, _session: &mut Session) -> String {
        self.0.to_string()
    }
}

fn run(h: &Fixed) -> String {
    let data = "GET / HTTP/1.1\r\n\r\n".as_bytes();
    let req = Request::parse(data).unwrap();
    let mut session = Session::new();
    h.handle(req, &mut session)
}

#[test]
fn lookup_finds_registered_route() {
    let mut routes: Routes<Fixed> = Routes::new();
    routes.add("/a", Fixed("alpha"));
    routes.add("/b", Fixed("beta"));
    let r = routes.get_route("/a").unwrap();
    assert_eq!(run(r.get_fn()), "alpha");
    let r = routes.get_route("/b").unwrap();
    assert_eq!(run(r.get_fn()), "beta");
}

#[test]
fn lookup_misses_unregistered_route() {
    let mut routes: Routes<Fixed> = Routes::new();
    routes.add("/a", Fixed("alpha"));
    assert!(routes.get_route("/b").is_none());
    assert!(routes.get_route("/a/").is_none());
    assert!(routes.get_route("").is_none());
}

#[test]
fn first_registration_wins() {
    let mut routes: Routes<Fixed> = Routes::new();
    routes.add("/same", Fixed("first"));
    routes.add("/same", Fixed("second"));
    let r = routes.get_route("/same").unwrap();
    assert_eq!(run(r.get_fn()), "first");
}

#[test]
fn route_new_carries_its_handler() {
    let route = Route::new("/x".to_string(), Fixed("x"));
    assert_eq!(run(route.get_fn()), "x");
}

#[test]
fn empty_table_has_no_routes() {
    let routes: Routes<Fixed> = Routes::new();
    assert!(routes.get_route("/").is_none());
}
