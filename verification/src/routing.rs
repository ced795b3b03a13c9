//! The routing table: backends by hostname, in the order of their
//! declaration.

use vstd::prelude::*;

verus! {

/// A downstream server.
#[derive(Debug, PartialEq, Eq)]
pub struct Backend {
    pub host: String,
    pub port: u16,
}

/// What a `Backend` holds.
pub struct BackendView {
    pub host: Seq<char>,
    pub port: u16,
}

impl View for Backend {
    type V = BackendView;

    open spec fn view(&self) -> BackendView {
        BackendView { host: self.host@, port: self.port }
    }
}

impl Clone for Backend {
    fn clone(&self) -> (copy: Backend)
        ensures
            copy@ == self@,
    {
        Backend { host: self.host.clone(), port: self.port }
    }
}

/// One entry of the table: a routing key and the backend it stands for.
#[derive(Debug, PartialEq, Eq)]
pub struct Route {
    pub key: String,
    pub backend: Backend,
}

/// What a `Route` holds.
pub struct RouteView {
    pub key: Seq<char>,
    pub backend: BackendView,
}

impl View for Route {
    type V = RouteView;

    open spec fn view(&self) -> RouteView {
        RouteView { key: self.key@, backend: self.backend@ }
    }
}

impl Clone for Route {
    fn clone(&self) -> (copy: Route)
        ensures
            copy@ == self@,
    {
        Route { key: self.key.clone(), backend: self.backend.clone() }
    }
}

/// The routing table. Its entries stand in the order in which they were
/// declared, and a lookup tries them in that order.
#[derive(Debug, PartialEq, Eq)]
pub struct Config {
    pub backends: Vec<Route>,
}

impl View for Config {
    type V = Seq<RouteView>;

    open spec fn view(&self) -> Seq<RouteView> {
        Seq::new(self.backends@.len(), |i: int| self.backends@[i]@)
    }
}

/// Whether a route lets `hostname` through: the hostname is the route's key
/// or its backend's host, character for character.
pub open spec fn admits(route: RouteView, hostname: Seq<char>) -> bool {
    hostname == route.key || hostname == route.backend.host
}

/// The backend of the first route of `table` that admits `hostname`.
pub open spec fn resolve(table: Seq<RouteView>, hostname: Seq<char>) -> Option<BackendView>
    decreases table.len(),
{
    if table.len() == 0 {
        None
    } else if admits(table[0], hostname) {
        Some(table[0].backend)
    } else {
        resolve(table.drop_first(), hostname)
    }
}

impl Config {
    /// The table without entries.
    pub fn new() -> (table: Config)
        ensures
            table@ == Seq::<RouteView>::empty(),
    {
        let table = Config { backends: Vec::new() };
        assert(table@ =~= Seq::<RouteView>::empty());
        table
    }

    /// Declares one more route, after those already there.
    pub fn declare(&mut self, key: String, backend: Backend)
        ensures
            final(self)@ == old(self)@.push(RouteView { key: key@, backend: backend@ }),
    {
        let ghost route = RouteView { key: key@, backend: backend@ };
        self.backends.push(Route { key, backend });
        assert(self@ =~= old(self)@.push(route));
    }

    /// The number of routes.
    pub fn len(&self) -> (n: usize)
        ensures
            n == self@.len(),
    {
        self.backends.len()
    }

    /// The backend for `hostname`: that of the first route, in declaration
    /// order, whose key or whose backend host equals it.
    pub fn lookup(&self, hostname: &String) -> (found: Option<Backend>)
        ensures
            found.is_some() == resolve(self@, hostname@).is_some(),
            found matches Some(backend) ==> resolve(self@, hostname@) == Some(backend@),
    {
        let mut i: usize = 0;
        assert(self@.skip(0) =~= self@);
        while i < self.backends.len()
            invariant
                i <= self.backends.len(),
                resolve(self@, hostname@) == resolve(self@.skip(i as int), hostname@),
            decreases self.backends.len() - i,
        {
            let route = &self.backends[i];
            proof {
                let rest = self@.skip(i as int);
                assert(rest[0] == route@);
                assert(rest.drop_first() =~= self@.skip(i + 1));
            }
            if *hostname == route.key || *hostname == route.backend.host {
                return Some(route.backend.clone());
            }
            i = i + 1;
        }
        None
    }
}

/// A lookup that finds a backend found it at some route that admits the
/// hostname and that no admitting route precedes; a lookup that finds none
/// means that no route admits the hostname.
pub proof fn lemma_resolve_is_first_match(table: Seq<RouteView>, hostname: Seq<char>)
    ensures
        match resolve(table, hostname) {
            Some(backend) => exists|i: int|
                0 <= i < table.len() && admits(#[trigger] table[i], hostname) && table[i].backend
                    == backend && forall|j: int| 0 <= j < i ==> !admits(#[trigger] table[j], hostname),
            None => forall|i: int| 0 <= i < table.len() ==> !admits(#[trigger] table[i], hostname),
        },
    decreases table.len(),
{
    if table.len() > 0 && !admits(table[0], hostname) {
        let rest = table.drop_first();
        lemma_resolve_is_first_match(rest, hostname);
        assert forall|i: int| 0 <= i < rest.len() implies rest[i] == table[i + 1] by {}
        match resolve(rest, hostname) {
            Some(backend) => {
                let i = choose|i: int|
                    0 <= i < rest.len() && admits(#[trigger] rest[i], hostname) && rest[i].backend
                        == backend && forall|j: int|
                        0 <= j < i ==> !admits(#[trigger] rest[j], hostname);
                assert forall|j: int| 0 <= j < i + 1 implies !admits(
                    #[trigger] table[j],
                    hostname,
                ) by {
                    if j > 0 {
                        assert(table[j] == rest[j - 1]);
                    }
                }
                assert(admits(table[i + 1], hostname) && table[i + 1].backend == backend);
            },
            None => {
                assert forall|i: int| 0 <= i < table.len() implies !admits(
                    #[trigger] table[i],
                    hostname,
                ) by {
                    if i > 0 {
                        assert(table[i] == rest[i - 1]);
                    }
                }
            },
        }
    } else if table.len() > 0 {
        assert(admits(table[0], hostname));
    }
}

} // verus!
