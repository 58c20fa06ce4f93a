//! Routing by exact match on (method, path) over a route table.
use vstd::prelude::*;
use crate::bytes::bytes_eq;
use crate::request::{frame, parse_request, FrameError, RequestModel};

verus! {
/// The handler that a request is sent to.
#[derive(PartialEq, Eq, Structural, Clone, Copy, Debug)]
pub enum Handler {
    Index,
    Styles,
    Scripts,
    Favicon,
    Forecast,
    NotFound,
}

/// One entry of a route table.
pub struct Route {
    pub method: Vec<u8>,
    pub path: Vec<u8>,
    pub handler: Handler,
}

/// A route table: the first entry that matches a request's method and path
/// exactly gives its handler.
pub struct Router {
    routes: Vec<Route>,
}

impl View for Router {
    type V = Seq<(Seq<u8>, Seq<u8>, Handler)>;

    closed spec fn view(&self) -> Seq<(Seq<u8>, Seq<u8>, Handler)> {
        self.routes@.map_values(|r: Route| (r.method@, r.path@, r.handler))
    }
}

/// The handler of the first entry of `table` with this method and path, or
/// `NotFound`.
pub open spec fn lookup(table: Seq<(Seq<u8>, Seq<u8>, Handler)>, m: Seq<u8>, p: Seq<u8>) -> Handler
    decreases table.len(),
{
    if table.len() == 0 {
        Handler::NotFound
    } else if table[0].0 == m && table[0].1 == p {
        table[0].2
    } else {
        lookup(table.drop_first(), m, p)
    }
}

/// `GET`
pub open spec fn get_method() -> Seq<u8> {
    seq![71u8, 69, 84]
}

fn get_bytes() -> (r: Vec<u8>)
    ensures
        r@ == get_method(),
{
    let r = vec![71u8, 69, 84];
    assert(r@ =~= get_method());
    r
}

/// `POST`
pub open spec fn post_method() -> Seq<u8> {
    seq![80u8, 79, 83, 84]
}

fn post_bytes() -> (r: Vec<u8>)
    ensures
        r@ == post_method(),
{
    let r = vec![80u8, 79, 83, 84];
    assert(r@ =~= post_method());
    r
}

/// `/`
pub open spec fn root_path() -> Seq<u8> {
    seq![47u8]
}

fn root_bytes() -> (r: Vec<u8>)
    ensures
        r@ == root_path(),
{
    let r = vec![47u8];
    assert(r@ =~= root_path());
    r
}

/// `/styles.css`
pub open spec fn styles_path() -> Seq<u8> {
    seq![47u8, 115, 116, 121, 108, 101, 115, 46, 99, 115, 115]
}

fn styles_bytes() -> (r: Vec<u8>)
    ensures
        r@ == styles_path(),
{
    let r = vec![47u8, 115, 116, 121, 108, 101, 115, 46, 99, 115, 115];
    assert(r@ =~= styles_path());
    r
}

/// `/scripts.js`
pub open spec fn scripts_path() -> Seq<u8> {
    seq![47u8, 115, 99, 114, 105, 112, 116, 115, 46, 106, 115]
}

fn scripts_bytes() -> (r: Vec<u8>)
    ensures
        r@ == scripts_path(),
{
    let r = vec![47u8, 115, 99, 114, 105, 112, 116, 115, 46, 106, 115];
    assert(r@ =~= scripts_path());
    r
}

/// `/favicon.ico`
pub open spec fn favicon_path() -> Seq<u8> {
    seq![47u8, 102, 97, 118, 105, 99, 111, 110, 46, 105, 99, 111]
}

fn favicon_bytes() -> (r: Vec<u8>)
    ensures
        r@ == favicon_path(),
{
    let r = vec![47u8, 102, 97, 118, 105, 99, 111, 110, 46, 105, 99, 111];
    assert(r@ =~= favicon_path());
    r
}

/// `/api/forecast`
pub open spec fn forecast_path() -> Seq<u8> {
    seq![47u8, 97, 112, 105, 47, 102, 111, 114, 101, 99, 97, 115, 116]
}

fn forecast_bytes() -> (r: Vec<u8>)
    ensures
        r@ == forecast_path(),
{
    let r = vec![47u8, 97, 112, 105, 47, 102, 111, 114, 101, 99, 97, 115, 116];
    assert(r@ =~= forecast_path());
    r
}

/// The routes this server answers.
pub open spec fn app_routes() -> Seq<(Seq<u8>, Seq<u8>, Handler)> {
    seq![
        (get_method(), root_path(), Handler::Index),
        (get_method(), styles_path(), Handler::Styles),
        (get_method(), scripts_path(), Handler::Scripts),
        (get_method(), favicon_path(), Handler::Favicon),
        (post_method(), forecast_path(), Handler::Forecast),
    ]
}

impl Router {
    /// A table with no routes.
    pub fn new() -> (r: Router)
        ensures
            r@ == Seq::<(Seq<u8>, Seq<u8>, Handler)>::empty(),
    {
        let r = Router { routes: Vec::new() };
        assert(r@ =~= Seq::<(Seq<u8>, Seq<u8>, Handler)>::empty());
        r
    }

    /// Adds a route after those already there.
    pub fn mount(&mut self, method: Vec<u8>, path: Vec<u8>, handler: Handler)
        ensures
            final(self)@ == old(self)@.push((method@, path@, handler)),
    {
        let ghost m = method@;
        let ghost p = path@;
        self.routes.push(Route { method, path, handler });
        assert(self@ =~= old(self)@.push((m, p, handler)));
    }

    /// The handler for a request with this method and path.
    pub fn dispatch(&self, method: &[u8], path: &[u8]) -> (h: Handler)
        ensures
            h == lookup(self@, method@, path@),
    {
        let mut i: usize = 0;
        assert(self@.subrange(0, self@.len() as int) =~= self@);
        while i < self.routes.len()
            invariant
                i <= self@.len(),
                self@.len() == self.routes@.len(),
                lookup(self@, method@, path@) == lookup(
                    self@.subrange(i as int, self@.len() as int),
                    method@,
                    path@,
                ),
            decreases self.routes@.len() - i,
        {
            let r = &self.routes[i];
            let ghost rest = self@.subrange(i as int, self@.len() as int);
            assert(rest[0] == (r.method@, r.path@, r.handler));
            assert(rest.drop_first() =~= self@.subrange(i + 1, self@.len() as int));
            if bytes_eq(r.method.as_slice(), method) && bytes_eq(r.path.as_slice(), path) {
                return r.handler;
            }
            i = i + 1;
        }
        Handler::NotFound
    }
}

/// The route table of the server: the page, its three assets, and the
/// forecast endpoint.
pub fn rocket() -> (r: Router)
    ensures
        r@ == app_routes(),
{
    let mut r = Router::new();
    r.mount(get_bytes(), root_bytes(), Handler::Index);
    r.mount(get_bytes(), styles_bytes(), Handler::Styles);
    r.mount(get_bytes(), scripts_bytes(), Handler::Scripts);
    r.mount(get_bytes(), favicon_bytes(), Handler::Favicon);
    r.mount(post_bytes(), forecast_bytes(), Handler::Forecast);
    assert(r@ =~= app_routes());
    r
}

/// A request whose method and path the server does not list goes to the
/// not-found handler.
pub proof fn lemma_unknown_route_not_found(m: Seq<u8>, p: Seq<u8>)
    requires
        forall|i: int| 0 <= i < app_routes().len() ==> !(app_routes()[i].0 == m && app_routes()[i].1 == p),
    ensures
        lookup(app_routes(), m, p) == Handler::NotFound,
{
    let t = app_routes();
    reveal_with_fuel(lookup, 6);
    assert(!(t[0].0 == m && t[0].1 == p));
    assert(!(t[1].0 == m && t[1].1 == p));
    assert(!(t[2].0 == m && t[2].1 == p));
    assert(!(t[3].0 == m && t[3].1 == p));
    assert(!(t[4].0 == m && t[4].1 == p));
    assert(t.drop_first().drop_first().drop_first().drop_first().drop_first().len() == 0);
}

/// A listed route reaches its handler.
pub proof fn lemma_listed_route_found(i: int)
    requires
        0 <= i < app_routes().len(),
    ensures
        lookup(app_routes(), app_routes()[i].0, app_routes()[i].1) == app_routes()[i].2,
{
    let t = app_routes();
    reveal_with_fuel(lookup, 6);
    assert(get_method() != post_method());
    assert(root_path() != styles_path()) by { assert(root_path().len() != styles_path().len()); }
    assert(root_path() != scripts_path()) by { assert(root_path().len() != scripts_path().len()); }
    assert(root_path() != favicon_path()) by { assert(root_path().len() != favicon_path().len()); }
    assert(styles_path() != scripts_path()) by { assert(styles_path()[2] != scripts_path()[2]); }
    assert(styles_path() != favicon_path()) by { assert(styles_path()[1] != favicon_path()[1]); }
    assert(scripts_path() != favicon_path()) by { assert(scripts_path()[1] != favicon_path()[1]); }
}

/// Frames the request at the front of `input` and picks its handler. Gives
/// the handler and the request's body, or why the request could not be
/// framed.
pub fn route_request(router: &Router, input: &[u8]) -> (r: Result<(Handler, Vec<u8>), FrameError>)
    ensures
        match r {
            Ok((h, body)) => {
                &&& frame(input@) is Ok
                &&& h == lookup(router@, frame(input@)->Ok_0.method, frame(input@)->Ok_0.path)
                &&& body@ == frame(input@)->Ok_0.body
            },
            Err(e) => frame(input@) == Err::<RequestModel, FrameError>(e),
        },
{
    match parse_request(input) {
        Ok(q) => {
            let h = router.dispatch(q.method.as_slice(), q.path.as_slice());
            Ok((h, q.body))
        },
        Err(e) => Err(e),
    }
}


} // verus!
