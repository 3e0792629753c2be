//! Compiling a router into the matching engine, and looking requests up.

use path_tree::PathTree;
use vstd::prelude::*;
use vstd::string::*;
use crate::engine::{
    acceptable, is_marker, param_views, tree_filed, tree_find, tree_insert, tree_match, tree_new,
};
use crate::method::{is_method_token, Method};
use crate::path::trim_start_slashes;
use crate::router::{encode_key, entry_views, RouteEntry, RouteView, Router};

verus! {

/// The route that the matching engine could not take.
#[derive(Clone, Copy, Debug, PartialEq, Eq, Structural)]
pub struct PatternRejected {
    /// The place of the route among the router's entries.
    pub index: usize,
}

/// The handlers of `routes`, in order.
pub open spec fn handlers_of<T>(routes: Seq<RouteView<T>>) -> Seq<T> {
    routes.map_values(|e: RouteView<T>| e.handler)
}

/// Whether the engine takes the key of every entry of `routes`.
pub open spec fn all_acceptable<T>(routes: Seq<RouteView<T>>) -> bool {
    forall|i: int| 0 <= i < routes.len() ==> acceptable(#[trigger] routes[i].key)
}

/// Whether the entry at `index` is the first of `routes` whose key the
/// engine does not take.
pub open spec fn first_rejected<T>(routes: Seq<RouteView<T>>, index: int) -> bool {
    &&& 0 <= index < routes.len()
    &&& !acceptable(routes[index].key)
    &&& forall|i: int| 0 <= i < index ==> acceptable(#[trigger] routes[i].key)
}

/// Whether the entry at `index` is the last of `routes` with the key `key`.
pub open spec fn last_with_key<T>(routes: Seq<RouteView<T>>, key: Seq<char>, index: int) -> bool {
    &&& 0 <= index < routes.len()
    &&& routes[index].key == key
    &&& forall|later: int| index < later < routes.len() ==> (#[trigger] routes[later]).key != key
}

/// What the engine files once the key of each entry of `routes` was handed
/// to it as a pattern, in order and with the place of the entry: under a
/// key, the place of the last entry with that key; no pattern that is not
/// the key of an entry; and the key of the last entry.
pub open spec fn files_routes<T>(filed: Map<Seq<char>, usize>, routes: Seq<RouteView<T>>) -> bool {
    &&& forall|key: Seq<char>| #[trigger]
        filed.contains_key(key) ==> last_with_key(routes, key, filed[key] as int)
    &&& routes.len() > 0 ==> filed.contains_key(routes.last().key)
}

/// A key begins with its method token, which holds no slash: no slash
/// stands at its start for the engine to drop.
pub proof fn lemma_key_starts_with_token<T>(entry: RouteView<T>)
    requires
        entry.well_formed(),
    ensures
        trim_start_slashes(entry.key) == entry.key,
{
    let method = choose|m: Method| #[trigger] m.token() == entry.token();
    method.lemma_token();
    assert(entry.key[0] == entry.token()[0]);
    assert(method.token().contains(entry.key[0]));
}

/// Handing the key of the next entry to the engine, with its place, keeps
/// what `files_routes` says.
proof fn lemma_file_next<T>(
    before: Map<Seq<char>, usize>,
    after: Map<Seq<char>, usize>,
    routes: Seq<RouteView<T>>,
    next: int,
)
    requires
        0 <= next < routes.len(),
        files_routes(before, routes.subrange(0, next)),
        after.contains_pair(routes[next].key, next as usize),
        next <= usize::MAX,
        forall|other: Seq<char>|
            other != routes[next].key && #[trigger] after.contains_key(other)
                ==> before.contains_pair(other, after[other]),
    ensures
        files_routes(after, routes.subrange(0, next + 1)),
{
    let shorter = routes.subrange(0, next);
    let longer = routes.subrange(0, next + 1);
    assert(longer.last() == routes[next]);
    assert forall|key: Seq<char>| #[trigger] after.contains_key(key) implies last_with_key(
        longer,
        key,
        after[key] as int,
    ) by {
        if key != routes[next].key {
            assert(before.contains_key(key));
            let index = before[key] as int;
            assert(last_with_key(shorter, key, index));
            assert(longer[index] == shorter[index]);
            assert forall|later: int| index < later < longer.len() implies (#[trigger] longer[later]).key
                != key by {
                if later < next {
                    assert(longer[later] == shorter[later]);
                }
            }
        }
    }
}

/// The compiled routes: the matching engine, which files the place of each
/// handler under the key of its route, and the handlers in the order in
/// which they were bound.
#[derive(Debug)]
pub struct Matcher<T> {
    tree: PathTree<usize>,
    handlers: Vec<T>,
}

impl<T> Matcher<T> {
    /// The handlers, in the order in which they were bound.
    pub closed spec fn handlers(self) -> Seq<T> {
        self.handlers@
    }

    /// What the engine files: the keys of routes, each with the place of a
    /// handler.
    pub closed spec fn filed(self) -> Map<Seq<char>, usize> {
        tree_filed(self.tree)
    }

    #[verifier::type_invariant]
    closed spec fn valid(self) -> bool {
        forall|key: Seq<char>| #[trigger]
            self.filed().contains_key(key) ==> self.filed()[key] < self.handlers().len()
    }

    /// The handler of the route that the engine matches to `method` and
    /// `path`, with the parameters that it captured. The engine is asked
    /// for the route's key behind a slash, as it files every pattern below
    /// its root `/`.
    pub fn find(&self, method: Method, path: &str) -> (found: Option<(&T, Vec<(String, String)>)>)
        ensures
            match self.matched(lookup_key(method, path@)) {
                Some(hit) => {
                    &&& found matches Some(out)
                    &&& self.filed().contains_value(hit.0)
                    &&& hit.0 < self.handlers().len()
                    &&& *out.0 == self.handlers()[hit.0 as int]
                    &&& param_views(out.1@) == hit.1
                },
                None => found is None,
            },
    {
        proof {
            use_type_invariant(self);
        }
        let key = request_key(method, path);
        let hit = tree_find(&self.tree, key.as_str());
        proof {
            if hit is Some {
                let filed = self.filed();
                let place = hit.unwrap().0;
                let under = choose|under: Seq<char>|
                    filed.contains_key(under) && filed[under] == place;
                assert(filed.contains_key(under));
            }
        }
        self.resolve(hit)
    }

    /// What the engine matches to `key`: the place of a handler, with the
    /// parameters that the match captured, or nothing.
    pub closed spec fn matched(self, key: Seq<char>) -> Option<
        (usize, Seq<(Seq<char>, Seq<char>)>),
    > {
        tree_match(self.tree, key)
    }

    /// What a match of the engine stands for: the handler at the place that
    /// the engine gave, with the parameters as they came, or nothing where
    /// the engine matched nothing or gave a place that holds no handler.
    pub fn resolve(&self, hit: Option<(usize, Vec<(String, String)>)>) -> (found: Option<
        (&T, Vec<(String, String)>),
    >)
        ensures
            match hit {
                Some(hit) if hit.0 < self.handlers().len() => {
                    &&& found matches Some(out)
                    &&& *out.0 == self.handlers()[hit.0 as int]
                    &&& out.1 == hit.1
                },
                _ => found is None,
            },
    {
        match hit {
            Some((index, params)) => {
                if index < self.handlers.len() {
                    Some((&self.handlers[index], params))
                } else {
                    None
                }
            },
            None => None,
        }
    }

    /// The handler that was bound as the `index`-th, counted from zero.
    pub fn handler_at(&self, index: usize) -> (handler: Option<&T>)
        ensures
            match handler {
                Some(handler) => index < self.handlers().len() && *handler
                    == self.handlers()[index as int],
                None => index >= self.handlers().len(),
            },
    {
        if index < self.handlers.len() {
            Some(&self.handlers[index])
        } else {
            None
        }
    }

    /// How many handlers were compiled.
    pub fn len(&self) -> (n: usize)
        ensures
            n == self.handlers().len(),
    {
        self.handlers.len()
    }
}

/// The key under which the engine is asked for a request: a slash, as the
/// engine files every pattern below its root `/`, and behind it the key of
/// a route, which is the method's token with the request's path right
/// behind it.
pub open spec fn lookup_key(method: Method, path: Seq<char>) -> Seq<char> {
    seq!['/'] + encode_key(method, path)
}

/// The key under which the engine is asked for a request of `method` for
/// `path`.
pub fn request_key(method: Method, path: &str) -> (key: String)
    ensures
        key@ == lookup_key(method, path@),
{
    proof {
        reveal_strlit("/");
        assert("/"@ == seq!['/']);
    }
    let mut key = String::from_str("/");
    key.append(method.as_str());
    key.append(path);
    proof {
        assert(key@ =~= lookup_key(method, path@));
    }
    key
}

/// Whether `key` holds a `:` or a `*`, with which a parameter begins.
fn has_marker(key: &str) -> (found: bool)
    ensures
        found <==> exists|i: int| 0 <= i < key@.len() && is_marker(#[trigger] key@[i]),
{
    let chars = key.chars();
    proof {
        axiom_spec_iter(key);
    }
    let mut found = false;
    for c in it: chars
        invariant
            it.seq() == key@,
            found <==> exists|i: int| 0 <= i < it.index() && is_marker(#[trigger] key@[i]),
    {
        if c == ':' || c == '*' {
            found = true;
        }
    }
    found
}

/// Whether the engine takes `key` as a pattern.
pub fn is_acceptable(key: &str) -> (accepted: bool)
    ensures
        accepted == acceptable(key@),
{
    key.is_ascii() || !has_marker(key)
}

impl<T> Router<T> {
    /// Hands every entry to the matching engine, in the order in which the
    /// entries were made: the key as the pattern, and with it the place of
    /// the handler. The router is left drained. The work ends at the first
    /// key that the engine does not take, which is one that holds a
    /// parameter and a character outside ASCII.
    pub fn compile(&mut self) -> (r: Result<Matcher<T>, PatternRejected>)
        ensures
            final(self)@ == old(self)@.drained(),
            r is Ok <==> all_acceptable(old(self)@.routes()),
            match r {
                Ok(matcher) => {
                    &&& matcher.handlers() == handlers_of(old(self)@.routes())
                    &&& files_routes(matcher.filed(), old(self)@.routes())
                },
                Err(rejected) => first_rejected(old(self)@.routes(), rejected.index as int),
            },
    {
        let ghost before = self@;
        let list = match self.take_entries() {
            Some(list) => list,
            None => Vec::new(),
        };
        let ghost routes = entry_views(list@);
        assert(routes =~= before.routes());
        assert(routes.len() == list.len());
        let mut tree = tree_new();
        let mut handlers: Vec<T> = Vec::new();
        for entry in it: list
            invariant
                before == old(self)@,
                before.well_formed(),
                self@ == before.drained(),
                handlers.len() == it.index(),
                routes == before.routes(),
                routes.len() <= usize::MAX,
                entry_views(it.seq()) == routes,
                handlers@ == handlers_of(routes.subrange(0, it.index())),
                files_routes(tree_filed(tree), routes.subrange(0, it.index())),
                forall|i: int| 0 <= i < it.index() ==> acceptable(#[trigger] routes[i].key),
        {
            let ghost i = it.index();
            assert(entry@ == routes[i]);
            let RouteEntry { key, method_prefix_len: _, handler } = entry;
            if !is_acceptable(key.as_str()) {
                assert(!acceptable(routes[i].key));
                return Err(PatternRejected { index: handlers.len() });
            }
            let ghost filed = tree_filed(tree);
            tree_insert(&mut tree, key.as_str(), handlers.len());
            proof {
                lemma_key_starts_with_token(routes[i]);
                lemma_file_next(filed, tree_filed(tree), routes, i);
            }
            handlers.push(handler);
            proof {
                assert(routes.subrange(0, i + 1) =~= routes.subrange(0, i).push(routes[i]));
                assert(handlers@ =~= handlers_of(routes.subrange(0, i + 1)));
            }
        }
        assert(routes.subrange(0, routes.len() as int) =~= routes);
        Ok(Matcher { tree, handlers })
    }
}

} // verus!
