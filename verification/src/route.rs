//! The route table: for each registered path its handler and the methods
//! that it accepts, each with a default content type.
//!
//! The model of a table is the sequence of its routes in the order in which
//! their paths were first registered.

use crate::fields::{distinct_names, has_name, value_of, Pair, StringMap};
use vstd::prelude::*;

verus! {

/// The handlers that a route can name.
#[derive(Clone, Copy, Debug, PartialEq, Eq)]
pub enum Handler {
    /// Answers 200 with the default body.
    Status,
}

/// The model of a route.
pub struct RouteModel {
    pub path: Seq<char>,
    pub handler: Handler,
    pub methods: Seq<Pair>,
}

/// Index of the first route of `routes` with the path `path`, or the length
/// of `routes` when there is none.
pub open spec fn route_index(routes: Seq<RouteModel>, path: Seq<char>) -> nat
    decreases routes.len(),
{
    if routes.len() == 0 {
        0
    } else if routes[0].path == path {
        0
    } else {
        1 + route_index(routes.skip(1), path)
    }
}

/// The route registered for `path`, if there is one.
pub open spec fn find_route(routes: Seq<RouteModel>, path: Seq<char>) -> Option<RouteModel> {
    if route_index(routes, path) < routes.len() {
        Some(routes[route_index(routes, path) as int])
    } else {
        None
    }
}

/// `routes` with `route` registered: in place of the route of the same path
/// where there is one, at the end otherwise.
pub open spec fn with_route(routes: Seq<RouteModel>, route: RouteModel) -> Seq<RouteModel> {
    if route_index(routes, route.path) < routes.len() {
        routes.update(route_index(routes, route.path) as int, route)
    } else {
        routes.push(route)
    }
}

/// No two routes have the same path, and no route names a method twice.
pub open spec fn valid_routes(routes: Seq<RouteModel>) -> bool {
    &&& forall|i: int, j: int|
        0 <= i < j < routes.len() ==> (#[trigger] routes[i]).path != (#[trigger] routes[j]).path
    &&& forall|i: int| 0 <= i < routes.len() ==> distinct_names((#[trigger] routes[i]).methods)
}

/// What `route_index` finds: the first route of that path, and none before
/// it.
pub proof fn lemma_route_index(routes: Seq<RouteModel>, path: Seq<char>)
    ensures
        route_index(routes, path) <= routes.len(),
        route_index(routes, path) < routes.len() ==> routes[route_index(routes, path) as int].path
            == path,
        forall|i: int| 0 <= i < route_index(routes, path) ==> (#[trigger] routes[i]).path != path,
    decreases routes.len(),
{
    if routes.len() > 0 && routes[0].path != path {
        let rest = routes.skip(1);
        lemma_route_index(rest, path);
        assert forall|i: int| 0 <= i < route_index(routes, path) implies (
        #[trigger] routes[i]).path != path by {
            if i > 0 {
                assert(routes[i] == rest[i - 1]);
            }
        }
        if route_index(rest, path) < rest.len() {
            assert(routes[route_index(routes, path) as int] == rest[route_index(rest, path) as int]);
        }
    }
}

/// Registering a route keeps the table valid, makes its path resolve to it,
/// and leaves every other path as it was.
pub proof fn lemma_with_route(routes: Seq<RouteModel>, route: RouteModel, other: Seq<char>)
    requires
        valid_routes(routes),
        distinct_names(route.methods),
    ensures
        valid_routes(with_route(routes, route)),
        find_route(with_route(routes, route), route.path) == Some(route),
        other != route.path ==> find_route(with_route(routes, route), other) == find_route(
            routes,
            other,
        ),
{
    let after = with_route(routes, route);
    let at = route_index(routes, route.path) as int;
    lemma_route_index(routes, route.path);
    lemma_route_index(routes, other);
    lemma_route_index(after, route.path);
    lemma_route_index(after, other);
    assert(after[at] == route);
    assert forall|i: int| 0 <= i < after.len() && i != at implies #[trigger] after[i]
        == routes[i] by {}
    assert forall|i: int, j: int| 0 <= i < j < after.len() implies (#[trigger] after[i]).path != (
    #[trigger] after[j]).path by {
        if i != at && j != at {
            assert(routes[i].path != routes[j].path);
        } else if i == at {
            assert(after[j] == routes[j]);
            if at < routes.len() {
                assert(routes[i].path != routes[j].path);
            }
        } else {
            assert(after[i] == routes[i]);
            if at < routes.len() {
                assert(routes[i].path != routes[j].path);
            }
        }
    }
    assert forall|i: int| 0 <= i < after.len() implies distinct_names(
        (#[trigger] after[i]).methods,
    ) by {
        if i != at {
            assert(after[i] == routes[i]);
        }
    }
    let k = route_index(after, route.path) as int;
    if k < at {
        assert(after[k] == routes[k]);
    }
    if other != route.path {
        let a = route_index(routes, other) as int;
        let b = route_index(after, other) as int;
        if a < routes.len() {
            assert(a != at);
            assert(after[a] == routes[a]);
            if b < a {
                if b != at {
                    assert(after[b] == routes[b]);
                }
            }
        } else {
            if b < after.len() {
                if b != at {
                    assert(after[b] == routes[b]);
                }
            }
        }
    }
}

/// One route: a path, its handler, and the methods that it accepts, each
/// with a default content type.
#[derive(Clone, Debug)]
pub struct Route {
    path: String,
    handler: Handler,
    methods: StringMap,
}

impl View for Route {
    type V = RouteModel;

    closed spec fn view(&self) -> RouteModel {
        RouteModel { path: self.path@, handler: self.handler, methods: self.methods@ }
    }
}

impl Route {
    /// The path of the route.
    pub fn path(&self) -> (path: &String)
        ensures
            path@ == self@.path,
    {
        &self.path
    }

    /// The handler of the route.
    pub fn handler(&self) -> (handler: Handler)
        ensures
            handler == self@.handler,
    {
        self.handler
    }

    /// Whether the route accepts `method`.
    pub fn allows(&self, method: &str) -> (allowed: bool)
        ensures
            allowed == has_name(self@.methods, method@),
    {
        self.methods.contains_key(method)
    }

    /// The default content type of `method`, if the route accepts it.
    pub fn content_type(&self, method: &str) -> (content_type: Option<&String>)
        ensures
            content_type.deep_view() == value_of(self@.methods, method@),
    {
        self.methods.get(method)
    }
}

/// The routes of a server. It is filled at start-up and only read afterwards.
#[derive(Clone, Debug)]
pub struct RouteTable {
    routes: Vec<Route>,
}

/// The models of a sequence of routes.
spec fn models(routes: Seq<Route>) -> Seq<RouteModel> {
    Seq::new(routes.len(), |i: int| routes[i]@)
}

impl View for RouteTable {
    type V = Seq<RouteModel>;

    closed spec fn view(&self) -> Seq<RouteModel> {
        models(self.routes@)
    }
}

impl RouteTable {
    /// The invariant of the type: the table is valid.
    pub closed spec fn wf(&self) -> bool {
        &&& valid_routes(models(self.routes@))
        &&& forall|i: int| 0 <= i < self.routes@.len() ==> (#[trigger] self.routes@[i]).methods.wf()
    }

    /// The routes of a well-formed table are valid.
    pub proof fn lemma_valid(&self)
        requires
            self.wf(),
        ensures
            valid_routes(self@),
    {
    }

    /// The table without routes.
    pub fn new() -> (table: RouteTable)
        ensures
            table.wf(),
            table@ == Seq::<RouteModel>::empty(),
    {
        let table = RouteTable { routes: Vec::new() };
        assert(table@ =~= Seq::<RouteModel>::empty());
        table
    }

    /// Number of routes.
    pub fn len(&self) -> (n: usize)
        ensures
            n == self@.len(),
    {
        self.routes.len()
    }

    /// Position of the route of `path`, or the number of routes when there is
    /// none.
    fn position(&self, path: &str) -> (at: usize)
        ensures
            at == route_index(self@, path@),
            at <= self@.len(),
    {
        let n = self.routes.len();
        let key = path.to_owned();
        let mut i: usize = 0;
        assert(self@.skip(0) == self@);
        while i < n
            invariant
                key@ == path@,
                n == self@.len(),
                n == self.routes@.len(),
                i <= n,
                route_index(self@, path@) == i + route_index(self@.skip(i as int), path@),
            decreases n - i,
        {
            assert(self@.skip(i as int)[0] == self@[i as int]);
            assert(self@[i as int].path == self.routes@[i as int].path@);
            if self.routes[i].path == key {
                return i;
            }
            assert(self@.skip(i as int).skip(1) == self@.skip(i + 1));
            i += 1;
        }
        n
    }

    /// Registers `handler` for `path` with the methods that it accepts, in
    /// place of an earlier route of that path.
    pub fn register(&mut self, path: &str, handler: Handler, methods: StringMap)
        requires
            old(self).wf(),
            methods.wf(),
        ensures
            final(self).wf(),
            final(self)@ == with_route(
                old(self)@,
                RouteModel { path: path@, handler, methods: methods@ },
            ),
    {
        let ghost model = RouteModel { path: path@, handler, methods: methods@ };
        proof {
            methods.lemma_distinct();
            lemma_with_route(self@, model, path@);
        }
        let at = self.position(path);
        let route = Route { path: path.to_owned(), handler, methods };
        assert(route@ == model);
        if at < self.routes.len() {
            self.routes.set(at, route);
        } else {
            self.routes.push(route);
        }
        assert(models(self.routes@) =~= with_route(old(self)@, model));
        assert forall|i: int| 0 <= i < self.routes@.len() implies (
        #[trigger] self.routes@[i]).methods.wf() by {
            if i != at {
                assert(self.routes@[i] == old(self).routes@[i]);
            }
        }
    }

    /// The route registered for `path`, if there is one.
    pub fn lookup(&self, path: &str) -> (route: Option<&Route>)
        ensures
            match route {
                Some(found) => find_route(self@, path@) == Some(found@),
                None => find_route(self@, path@) is None,
            },
    {
        let at = self.position(path);
        if at < self.routes.len() {
            Some(&self.routes[at])
        } else {
            None
        }
    }
}

} // verus!
