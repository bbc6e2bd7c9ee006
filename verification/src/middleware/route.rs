//! Routing: a request whose method and path match a route goes to the route's handler.

use vstd::prelude::*;
use crate::context::ServerHttpRequest;

verus! {

/// The method and path a route answers.
pub struct RouteConfig {
    pub method: String,
    pub route: String,
}

impl PartialEq for RouteConfig {
    /// Two configurations are equal when their methods and routes are.
    fn eq(&self, other: &Self) -> (r: bool) {
        self.method == other.method && self.route == other.route
    }
}

impl vstd::std_specs::cmp::PartialEqSpecImpl for RouteConfig {
    open spec fn obeys_eq_spec() -> bool {
        true
    }

    open spec fn eq_spec(&self, other: &Self) -> bool {
        self.method@ == other.method@ && self.route@ == other.route@
    }
}

impl Eq for RouteConfig {
}

/// A route: the handler that answers it.
pub struct Route<H> {
    pub handler: H,
}

/// A handler: a plain function of the request state, or an asynchronous handler.
#[derive(Clone)]
pub enum RouteHandler<C, A> {
    Closure(C),
    AsyncHandler(A),
}

/// The routing table that a list of `(method, path, handler)` triples gives,
/// a later triple overriding an earlier one for the same method and path.
pub open spec fn route_map<H>(routes: Seq<(&str, &str, H)>) -> Map<(Seq<char>, Seq<char>), H>
    decreases routes.len(),
{
    if routes.len() == 0 {
        Map::empty()
    } else {
        let last = routes.last();
        route_map(routes.drop_last()).insert((last.0@, last.1@), last.2)
    }
}

/// The method and path that a route triple names.
pub open spec fn triple_key<H>(triple: (&str, &str, H)) -> (Seq<char>, Seq<char>) {
    (triple.0@, triple.1@)
}

/// A routing table answers a method and path with the handler of the last
/// triple that names them.
pub proof fn law_last_route_wins<H>(routes: Seq<(&str, &str, H)>, i: int)
    requires
        0 <= i < routes.len(),
        forall|j: int| i < j < routes.len() ==> triple_key(routes[j]) != triple_key(routes[i]),
    ensures
        route_map(routes).contains_key(triple_key(routes[i])),
        route_map(routes)[triple_key(routes[i])] == routes[i].2,
    decreases routes.len(),
{
    let n = routes.len() - 1;
    let prefix = routes.drop_last();
    assert(routes.last() == routes[n]);
    if i < n {
        assert(prefix[i] == routes[i]);
        assert forall|j: int| i < j < prefix.len() implies triple_key(prefix[j]) != triple_key(
            prefix[i],
        ) by {
            assert(prefix[j] == routes[j]);
        }
        law_last_route_wins(prefix, i);
        assert(triple_key(routes[n]) != triple_key(routes[i]));
    }
}

/// A routing table does not answer a method and path that no triple names.
pub proof fn law_unnamed_route_absent<H>(routes: Seq<(&str, &str, H)>, key: (Seq<char>, Seq<char>))
    requires
        forall|i: int| 0 <= i < routes.len() ==> triple_key(routes[i]) != key,
    ensures
        !route_map(routes).contains_key(key),
    decreases routes.len(),
{
    if routes.len() > 0 {
        let n = routes.len() - 1;
        let prefix = routes.drop_last();
        assert(routes.last() == routes[n]);
        assert forall|i: int| 0 <= i < prefix.len() implies triple_key(prefix[i]) != key by {
            assert(prefix[i] == routes[i]);
        }
        law_unnamed_route_absent(prefix, key);
    }
}

/// The method and path of a table entry.
pub open spec fn entry_key<H>(entry: (RouteConfig, Route<H>)) -> (Seq<char>, Seq<char>) {
    (entry.0.method@, entry.0.route@)
}

/// No two entries share a method and path.
pub open spec fn keys_distinct<H>(entries: Seq<(RouteConfig, Route<H>)>) -> bool {
    forall|i: int, j: int|
        0 <= i < entries.len() && 0 <= j < entries.len() && i != j ==> entry_key(entries[i])
            != entry_key(entries[j])
}

/// The table the entries stand for.
pub open spec fn entries_map<H>(entries: Seq<(RouteConfig, Route<H>)>) -> Map<
    (Seq<char>, Seq<char>),
    H,
>
    decreases entries.len(),
{
    if entries.len() == 0 {
        Map::empty()
    } else {
        let last = entries.last();
        entries_map(entries.drop_last()).insert(entry_key(last), last.1.handler)
    }
}

/// With distinct keys, the table holds exactly the entries' keys, each with its entry's handler.
proof fn lemma_entries_map<H>(entries: Seq<(RouteConfig, Route<H>)>)
    requires
        keys_distinct(entries),
    ensures
        forall|k: (Seq<char>, Seq<char>)|
            entries_map(entries).contains_key(k) <==> exists|i: int|
                0 <= i < entries.len() && entry_key(entries[i]) == k,
        forall|i: int|
            0 <= i < entries.len() ==> #[trigger] entries_map(entries)[entry_key(entries[i])]
                == entries[i].1.handler,
    decreases entries.len(),
{
    if entries.len() > 0 {
        let prefix = entries.drop_last();
        assert(keys_distinct(prefix)) by {
            assert forall|i: int, j: int|
                0 <= i < prefix.len() && 0 <= j < prefix.len() && i != j implies entry_key(
                prefix[i],
            ) != entry_key(prefix[j]) by {
                assert(prefix[i] == entries[i]);
                assert(prefix[j] == entries[j]);
            }
        }
        lemma_entries_map(prefix);
        let n = entries.len() - 1;
        assert(entries.last() == entries[n]);
        assert(entries_map(entries) == entries_map(prefix).insert(
            entry_key(entries[n]),
            entries[n].1.handler,
        ));
        assert forall|k: (Seq<char>, Seq<char>)|
            entries_map(entries).contains_key(k) implies exists|i: int|
                0 <= i < entries.len() && entry_key(entries[i]) == k by {
            if k != entry_key(entries[n]) {
                assert(entries_map(prefix).contains_key(k));
                let i = choose|i: int| 0 <= i < prefix.len() && entry_key(prefix[i]) == k;
                assert(prefix[i] == entries[i]);
                assert(entry_key(entries[i]) == k);
            } else {
                assert(entry_key(entries[n]) == k);
            }
        }
        assert forall|k: (Seq<char>, Seq<char>)|
            (exists|i: int| 0 <= i < entries.len() && entry_key(entries[i]) == k) implies entries_map(
            entries,
        ).contains_key(k) by {
            let i = choose|i: int| 0 <= i < entries.len() && entry_key(entries[i]) == k;
            if i < n {
                assert(prefix[i] == entries[i]);
                assert(entry_key(prefix[i]) == k);
                assert(entries_map(prefix).contains_key(k));
            }
        }
        assert forall|i: int| 0 <= i < entries.len() implies #[trigger] entries_map(
            entries,
        )[entry_key(entries[i])] == entries[i].1.handler by {
            if i < n {
                assert(prefix[i] == entries[i]);
                assert(entry_key(entries[i]) != entry_key(entries[n]));
                assert(entries_map(prefix)[entry_key(prefix[i])] == prefix[i].1.handler);
            }
        }
    }
}

/// The index of the entry whose configuration equals `config`, if there is one.
fn position_of_config<H>(entries: &Vec<(RouteConfig, Route<H>)>, config: &RouteConfig) -> (r: Option<
    usize,
>)
    ensures
        match r {
            Some(i) => i < entries@.len() && entry_key(entries@[i as int]) == (
                config.method@,
                config.route@,
            ),
            None => forall|j: int|
                0 <= j < entries@.len() ==> entry_key(entries@[j]) != (config.method@, config.route@),
        },
{
    let n = entries.len();
    let mut index: usize = 0;
    while index < n
        invariant
            n == entries@.len(),
            index <= n,
            forall|j: int| 0 <= j < index ==> entry_key(entries@[j]) != (config.method@, config.route@),
        decreases n - index,
    {
        if entries[index].0 == *config {
            return Some(index);
        }
        index = index + 1;
    }
    None
}

/// Routes requests by method and path.
pub struct RouteMiddleware<H> {
    routes: Vec<(RouteConfig, Route<H>)>,
}

impl<H> RouteMiddleware<H> {
    #[verifier::type_invariant]
    spec fn wf(self) -> bool {
        keys_distinct(self.routes@)
    }

    /// The routing table: method and path to handler.
    pub closed spec fn table(self) -> Map<(Seq<char>, Seq<char>), H> {
        entries_map(self.routes@)
    }

    /// The routes of `routes`, a later triple overriding an earlier one for
    /// the same method and path.
    pub fn from_routes(routes: Vec<(&str, &str, H)>) -> (r: Self)
        ensures
            r.table() == route_map(routes@),
    {
        let ghost all = routes@;
        let total = routes.len();
        let mut remaining = routes;
        let mut entries: Vec<(RouteConfig, Route<H>)> = Vec::new();
        let mut taken: usize = 0;
        assert(all.take(0) =~= Seq::<(&str, &str, H)>::empty());
        while remaining.len() > 0
            invariant
                total == all.len(),
                taken <= all.len(),
                remaining@ == all.skip(taken as int),
                keys_distinct(entries@),
                entries_map(entries@) == route_map(all.take(taken as int)),
            decreases remaining@.len(),
        {
            let (method, path, handler) = remaining.remove(0);
            assert(all[taken as int] == (method, path, handler));
            let ghost before = entries@;
            let config = RouteConfig { method: method.to_owned(), route: path.to_owned() };
            let position = position_of_config(&entries, &config);
            proof {
                lemma_entries_map(before);
            }
            let entry = (config, Route { handler });
            match position {
                Some(index) => {
                    entries.set(index, entry);
                },
                None => {
                    entries.push(entry);
                },
            }
            proof {
                let k = (method@, path@);
                assert(keys_distinct(entries@)) by {
                    assert forall|i: int, j: int|
                        0 <= i < entries@.len() && 0 <= j < entries@.len() && i != j implies entry_key(
                        entries@[i],
                    ) != entry_key(entries@[j]) by {
                        match position {
                            Some(index) => {
                                assert(entry_key(entries@[index as int]) == k);
                                if i != index {
                                    assert(entries@[i] == before[i]);
                                }
                                if j != index {
                                    assert(entries@[j] == before[j]);
                                }
                            },
                            None => {
                                if i < before.len() {
                                    assert(entries@[i] == before[i]);
                                }
                                if j < before.len() {
                                    assert(entries@[j] == before[j]);
                                }
                            },
                        }
                    }
                }
                lemma_entries_map(entries@);
                assert(all.take(taken + 1).drop_last() =~= all.take(taken as int));
                assert(all.take(taken + 1).last() == all[taken as int]);
                let target = entries_map(before).insert(k, handler);
                assert forall|key: (Seq<char>, Seq<char>)|
                    entries_map(entries@).contains_key(key) <==> target.contains_key(key) by {
                    if entries_map(entries@).contains_key(key) && key != k {
                        let i = choose|i: int| 0 <= i < entries@.len() && entry_key(entries@[i]) == key;
                        assert(entries@[i] == before[i]);
                        assert(entry_key(before[i]) == key);
                    }
                    if target.contains_key(key) && key != k {
                        let i = choose|i: int| 0 <= i < before.len() && entry_key(before[i]) == key;
                        assert(entries@[i] == before[i]);
                        assert(entry_key(entries@[i]) == key);
                    }
                    if key == k {
                        let last = match position {
                            Some(index) => index as int,
                            None => before.len() as int,
                        };
                        assert(entry_key(entries@[last]) == key);
                    }
                }
                assert forall|key: (Seq<char>, Seq<char>)| #[trigger]
                    entries_map(entries@).contains_key(key) implies entries_map(entries@)[key]
                    == target[key] by {
                    let i = choose|i: int| 0 <= i < entries@.len() && entry_key(entries@[i]) == key;
                    assert(entries_map(entries@)[entry_key(entries@[i])] == entries@[i].1.handler);
                    if key != k {
                        assert(entries@[i] == before[i]);
                        assert(entries_map(before)[entry_key(before[i])] == before[i].1.handler);
                    } else {
                        let last = match position {
                            Some(index) => index as int,
                            None => before.len() as int,
                        };
                        assert(entries_map(entries@)[entry_key(entries@[last])] == entries@[last].1.handler);
                    }
                }
                assert(entries_map(entries@) =~= target);
                assert(all.skip(taken + 1) =~= remaining@);
            }
            taken = taken + 1;
        }
        assert(all.take(taken as int) =~= all);
        RouteMiddleware { routes: entries }
    }

    /// The route for the request's method and path, if there is one.
    pub fn find_route(&self, request: &ServerHttpRequest) -> (r: Option<&Route<H>>)
        ensures
            match r {
                Some(route) => self.table().contains_key((request.method@, request.path@))
                    && route.handler == self.table()[(request.method@, request.path@)],
                None => !self.table().contains_key((request.method@, request.path@)),
            },
    {
        let config = RouteConfig { method: request.method.clone(), route: request.path.clone() };
        match position_of_config(&self.routes, &config) {
            Some(index) => {
                proof {
                    use_type_invariant(self);
                    lemma_entries_map(self.routes@);
                    assert(self.table()[entry_key(self.routes@[index as int])]
                        == self.routes@[index as int].1.handler);
                }
                Some(&self.routes[index].1)
            },
            None => {
                proof {
                    use_type_invariant(self);
                    lemma_entries_map(self.routes@);
                }
                None
            },
        }
    }
}

} // verus!
