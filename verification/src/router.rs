//! Routers: bindings collected under a mount path, and their composition.

use vstd::prelude::*;
use vstd::string::*;
use crate::method::{is_method_token, Method};
use crate::path::{
    is_absolute, is_mount, join, join_paths, lemma_join_absolute, lemma_join_assoc, mount_of,
    normalize_mount,
};

verus! {

/// One binding: the key under which the matching engine files it, the
/// length of the method token that the key begins with, and the handler.
#[derive(Debug)]
pub struct RouteEntry<T> {
    pub key: String,
    pub method_prefix_len: usize,
    pub handler: T,
}

/// What a [`RouteEntry`] holds, as plain values.
pub struct RouteView<T> {
    pub key: Seq<char>,
    pub method_prefix_len: nat,
    pub handler: T,
}

impl<T> View for RouteEntry<T> {
    type V = RouteView<T>;

    open spec fn view(&self) -> RouteView<T> {
        RouteView {
            key: self.key@,
            method_prefix_len: self.method_prefix_len as nat,
            handler: self.handler,
        }
    }
}

/// The key of a route: the method's token, and the path right behind it.
pub open spec fn encode_key(method: Method, path: Seq<char>) -> Seq<char> {
    method.token() + path
}

/// The entry that binds `handler` to `method` at the absolute path `path`.
pub open spec fn route<T>(method: Method, path: Seq<char>, handler: T) -> RouteView<T> {
    RouteView {
        key: encode_key(method, path),
        method_prefix_len: method.token().len(),
        handler,
    }
}

impl<T> RouteView<T> {
    /// The method token at the start of the key.
    pub open spec fn token(self) -> Seq<char> {
        self.key.subrange(0, self.method_prefix_len as int)
    }

    /// The path pattern, which is the key behind the method token.
    pub open spec fn path(self) -> Seq<char> {
        self.key.subrange(self.method_prefix_len as int, self.key.len() as int)
    }

    /// The key begins with a method token of the recorded length, and an
    /// absolute path follows it.
    pub open spec fn well_formed(self) -> bool {
        &&& self.method_prefix_len <= self.key.len()
        &&& is_method_token(self.token())
        &&& is_absolute(self.path())
    }

    /// The same binding with its path joined behind `mount`.
    pub open spec fn under(self, mount: Seq<char>) -> RouteView<T> {
        RouteView {
            key: self.token() + join(mount, self.path()),
            method_prefix_len: self.method_prefix_len,
            handler: self.handler,
        }
    }
}

/// What a [`Router`] holds, as plain values. `entries` is `None` until the
/// first binding is made.
pub struct RouterView<T> {
    pub mount: Seq<char>,
    pub name: Option<Seq<char>>,
    pub inherit: bool,
    pub entries: Option<Seq<RouteView<T>>>,
}

impl<T> RouterView<T> {
    /// The bindings in the order in which they were made.
    pub open spec fn routes(self) -> Seq<RouteView<T>> {
        match self.entries {
            Some(entries) => entries,
            None => Seq::empty(),
        }
    }

    /// The mount path is absolute and, unless it is the root, ends without
    /// a slash; the entries, where there are any, are not empty; and every
    /// entry is well formed.
    pub open spec fn well_formed(self) -> bool {
        &&& is_mount(self.mount)
        &&& self.entries matches Some(entries) ==> entries.len() > 0
        &&& forall|i: int|
            0 <= i < self.routes().len() ==> (#[trigger] self.routes()[i]).well_formed()
    }

    /// The router mounted at the mount path that `path` stands for.
    pub open spec fn mounted(self, path: Seq<char>) -> RouterView<T> {
        RouterView {
            mount: mount_of(path),
            name: self.name,
            inherit: self.inherit,
            entries: self.entries,
        }
    }

    /// The router with one more binding, of `handler` to `method` at `path`
    /// below the mount path.
    pub open spec fn bind(self, method: Method, path: Seq<char>, handler: T) -> RouterView<T> {
        RouterView {
            mount: self.mount,
            name: self.name,
            inherit: self.inherit,
            entries: Some(self.routes().push(route(method, join(self.mount, path), handler))),
        }
    }

    /// The router without its entries.
    pub open spec fn drained(self) -> RouterView<T> {
        RouterView { mount: self.mount, name: self.name, inherit: self.inherit, entries: None }
    }

    /// The router with the entries of `child` behind its own, each moved
    /// under this router's mount path. A child in which no binding was
    /// made, or which was drained, changes nothing.
    pub open spec fn scope(self, child: RouterView<T>) -> RouterView<T> {
        match child.entries {
            None => self,
            Some(moved) => RouterView {
                mount: self.mount,
                name: self.name,
                inherit: self.inherit,
                entries: Some(
                    self.routes() + moved.map_values(|e: RouteView<T>| e.under(self.mount)),
                ),
            },
        }
    }
}

/// A key splits back into what it was made of: its first characters, as
/// many as the token has, are the method's token, and the rest is the path.
pub proof fn lemma_key_round_trip(method: Method, path: Seq<char>)
    ensures
        encode_key(method, path).len() == method.token().len() + path.len(),
        encode_key(method, path).subrange(0, method.token().len() as int) == method.token(),
        encode_key(method, path).subrange(
            method.token().len() as int,
            encode_key(method, path).len() as int,
        ) == path,
{
    let key = encode_key(method, path);
    let n = method.token().len() as int;
    assert(key.subrange(0, n) =~= method.token());
    assert(key.subrange(n, key.len() as int) =~= path);
}

/// The entry that `route` makes reads back as the method's token and the
/// path, and is well formed where the path is absolute.
pub proof fn lemma_route<T>(method: Method, path: Seq<char>, handler: T)
    ensures
        route(method, path, handler).token() == method.token(),
        route(method, path, handler).path() == path,
        is_absolute(path) ==> route(method, path, handler).well_formed(),
{
    lemma_key_round_trip(method, path);
}

/// Moving an entry under a mount keeps its token and its handler, and joins
/// its path behind the mount. Under an absolute mount it stays well formed.
pub proof fn lemma_under<T>(entry: RouteView<T>, mount: Seq<char>)
    requires
        entry.well_formed(),
    ensures
        entry.under(mount).token() == entry.token(),
        entry.under(mount).path() == join(mount, entry.path()),
        entry.under(mount).handler == entry.handler,
        is_absolute(mount) ==> entry.under(mount).well_formed(),
{
    let moved = entry.under(mount);
    let n = entry.method_prefix_len as int;
    assert(moved.key.subrange(0, n) =~= entry.token());
    assert(moved.key.subrange(n, moved.key.len() as int) =~= join(mount, entry.path()));
    if is_absolute(mount) {
        lemma_join_absolute(mount, entry.path());
    }
}

/// Mount paths add up from the outside in: an entry moved under `inner` and
/// then under `outer` is the entry moved under `outer` joined with `inner`.
pub proof fn lemma_under_twice<T>(entry: RouteView<T>, outer: Seq<char>, inner: Seq<char>)
    requires
        entry.well_formed(),
    ensures
        entry.under(inner).under(outer) == entry.under(join(outer, inner)),
{
    lemma_under(entry, inner);
    lemma_join_assoc(outer, inner, entry.path());
}

/// A binding made in a router mounted at `inner`, which is then scoped into
/// a router mounted at `outer`, has the key of the same binding made in a
/// router mounted at `outer` joined with `inner`.
pub proof fn lemma_nested_mounts<T>(
    outer: Seq<char>,
    inner: Seq<char>,
    method: Method,
    path: Seq<char>,
    handler: T,
)
    ensures
        route(method, join(inner, path), handler).under(outer) == route(
            method,
            join(join(outer, inner), path),
            handler,
        ),
{
    lemma_route(method, join(inner, path), handler);
    lemma_join_assoc(outer, inner, path);
}

/// Setting the mount path keeps a router well formed and its entries as
/// they are.
pub proof fn lemma_mounted<T>(router: RouterView<T>, path: Seq<char>)
    requires
        router.well_formed(),
    ensures
        router.mounted(path).well_formed(),
        router.mounted(path).routes() == router.routes(),
{
    crate::path::lemma_mount_of(path);
}

/// Binding keeps a router well formed, adds one entry behind the others,
/// and that entry reads back as the method's token, the path joined behind
/// the mount path, and the handler.
pub proof fn lemma_bind<T>(router: RouterView<T>, method: Method, path: Seq<char>, handler: T)
    requires
        router.well_formed(),
    ensures
        router.bind(method, path, handler).well_formed(),
        router.bind(method, path, handler).routes().len() == router.routes().len() + 1,
        router.bind(method, path, handler).routes().subrange(0, router.routes().len() as int)
            == router.routes(),
        router.bind(method, path, handler).routes().last().token() == method.token(),
        router.bind(method, path, handler).routes().last().path() == join(router.mount, path),
        router.bind(method, path, handler).routes().last().handler == handler,
{
    let bound = router.bind(method, path, handler);
    lemma_join_absolute(router.mount, path);
    lemma_route(method, join(router.mount, path), handler);
    assert(bound.routes().subrange(0, router.routes().len() as int) =~= router.routes());
    assert forall|i: int| 0 <= i < bound.routes().len() implies (#[trigger] bound.routes()[i]).well_formed() by {
        if i < router.routes().len() {
            assert(bound.routes()[i] == router.routes()[i]);
        }
    }
}

/// Scoping keeps a router well formed, keeps its own entries in front, and
/// puts each entry of the child behind them, moved under the mount path.
pub proof fn lemma_scope<T>(parent: RouterView<T>, child: RouterView<T>)
    requires
        parent.well_formed(),
        child.well_formed(),
    ensures
        parent.scope(child).well_formed(),
        parent.scope(child).routes().len() == parent.routes().len() + child.routes().len(),
        forall|i: int|
            0 <= i < parent.routes().len() ==> #[trigger] parent.scope(child).routes()[i]
                == parent.routes()[i],
        forall|i: int|
            0 <= i < child.routes().len() ==> #[trigger] parent.scope(child).routes()[parent.routes().len()
                + i] == child.routes()[i].under(parent.mount),
{
    let scoped = parent.scope(child);
    assert forall|i: int| 0 <= i < scoped.routes().len() implies (#[trigger] scoped.routes()[i]).well_formed() by {
        if i < parent.routes().len() {
            assert(scoped.routes()[i] == parent.routes()[i]);
        } else {
            let j = i - parent.routes().len();
            assert(scoped.routes()[i] == child.routes()[j].under(parent.mount));
            lemma_under(child.routes()[j], parent.mount);
        }
    }
}

/// Scoping a child in which no binding was made leaves the parent as it is.
pub proof fn lemma_scope_empty_child<T>(parent: RouterView<T>, child: RouterView<T>)
    requires
        child.well_formed(),
        child.routes().len() == 0,
    ensures
        parent.scope(child) == parent,
{
}

/// A router that was scoped into another is drained, and scoping it again,
/// into whatever router, adds nothing.
pub proof fn lemma_scope_drained<T>(child: RouterView<T>, other: RouterView<T>)
    ensures
        child.drained().routes().len() == 0,
        other.scope(child.drained()) == other,
        child.well_formed() ==> child.drained().well_formed(),
{
}

/// A builder of routes below a mount path.
#[derive(Debug)]
pub struct Router<T> {
    inherit: bool,
    path: String,
    name: Option<String>,
    routes: Option<Vec<RouteEntry<T>>>,
}

/// The views of the entries of `list`, in order.
pub open spec fn entry_views<T>(list: Seq<RouteEntry<T>>) -> Seq<RouteView<T>> {
    list.map_values(|e: RouteEntry<T>| e@)
}

impl<T> View for Router<T> {
    type V = RouterView<T>;

    closed spec fn view(&self) -> RouterView<T> {
        RouterView {
            mount: self.path@,
            name: match self.name {
                Some(name) => Some(name@),
                None => None,
            },
            inherit: self.inherit,
            entries: match self.routes {
                Some(list) => Some(entry_views(list@)),
                None => None,
            },
        }
    }
}

impl<T> Router<T> {
    #[verifier::type_invariant]
    closed spec fn valid(self) -> bool {
        self@.well_formed()
    }

    /// A router mounted at the root, with no binding made.
    pub fn new() -> (r: Self)
        ensures
            r@ == (RouterView::<T> { mount: seq!['/'], name: None, inherit: false, entries: None }),
            r@.well_formed(),
    {
        proof {
            reveal_strlit("/");
            assert("/"@ == seq!['/']);
        }
        Router { inherit: false, path: String::from_str("/"), name: None, routes: None }
    }

    /// Sets the mount path, below which later bindings are made, to the
    /// mount path that `path` stands for. Entries already made keep their
    /// keys.
    pub fn path(self, path: &str) -> (r: Self)
        ensures
            r@ == self@.mounted(path@),
            r@.well_formed(),
    {
        proof {
            use_type_invariant(&self);
        }
        let ghost before = self@;
        let Router { inherit, path: _, name, routes } = self;
        let mount = normalize_mount(path);
        proof {
            let r = Router { inherit, path: mount, name, routes };
            assert(r@.routes() == before.routes());
        }
        Router { inherit, path: mount, name, routes }
    }

    /// Sets the display name.
    pub fn name(self, name: &str) -> (r: Self)
        ensures
            r@ == (RouterView {
                mount: self@.mount,
                name: Some(name@),
                inherit: self@.inherit,
                entries: self@.entries,
            }),
            r@.well_formed(),
    {
        proof {
            use_type_invariant(&self);
        }
        let ghost before = self@;
        let Router { inherit, path, name: _, routes } = self;
        let name = Some(name.to_owned());
        proof {
            let r = Router { inherit, path, name, routes };
            assert(r@.routes() == before.routes());
        }
        Router { inherit, path, name, routes }
    }

    /// Sets the inherit flag, which is kept for the caller and has no part
    /// in how keys are made.
    pub fn inherit(self, b: bool) -> (r: Self)
        ensures
            r@ == (RouterView {
                mount: self@.mount,
                name: self@.name,
                inherit: b,
                entries: self@.entries,
            }),
            r@.well_formed(),
    {
        proof {
            use_type_invariant(&self);
        }
        let ghost before = self@;
        let Router { inherit: _, path, name, routes } = self;
        proof {
            let r = Router { inherit: b, path, name, routes };
            assert(r@.routes() == before.routes());
        }
        Router { inherit: b, path, name, routes }
    }

    /// Returns the router as it is.
    pub fn with(self) -> (r: Self)
        ensures
            r@ == self@,
            r@.well_formed(),
    {
        proof {
            use_type_invariant(&self);
        }
        self
    }

    /// Returns the router as it is: no static files are served.
    pub fn serve_static(self, path: &str) -> (r: Self)
        ensures
            r@ == self@,
            r@.well_formed(),
    {
        proof {
            use_type_invariant(&self);
        }
        self
    }

    /// Binds `handler` to `method` at `path`, which is taken below the
    /// mount path. The new entry comes behind the others, and its key is
    /// the method's token with the joined path right behind it.
    pub fn on(self, method: Method, path: &str, handler: T) -> (r: Self)
        ensures
            r@ == self@.bind(method, path@, handler),
            r@.well_formed(),
            r@.routes().last().token() == method.token(),
            r@.routes().last().path() == join(self@.mount, path@),
    {
        let token = method.as_str();
        proof {
            use_type_invariant(&self);
            lemma_bind(self@, method, path@, handler);
            method.lemma_token();
            vstd::utf8::is_ascii_chars_encode_utf8(token@);
        }
        let full = join_paths(self.path.as_str(), path);
        let key = String::from_str(token).concat(full.as_str());
        let entry = RouteEntry { key, method_prefix_len: token.len(), handler };
        let Router { inherit, path: mount, name, routes } = self;
        let mut list = match routes {
            Some(list) => list,
            None => Vec::new(),
        };
        let ghost before = entry_views(list@);
        list.push(entry);
        proof {
            assert(before =~= self@.routes());
            assert(entry_views(list@) =~= before.push(entry@));
        }
        Router { inherit, path: mount, name, routes: Some(list) }
    }

    /// Binds `handler` to `OPTIONS` requests at `path`.
    pub fn options(self, path: &str, handler: T) -> (r: Self)
        ensures
            r@ == self@.bind(Method::Options, path@, handler),
            r@.well_formed(),
    {
        self.on(Method::Options, path, handler)
    }

    /// Binds `handler` to `GET` requests at `path`.
    pub fn get(self, path: &str, handler: T) -> (r: Self)
        ensures
            r@ == self@.bind(Method::Get, path@, handler),
            r@.well_formed(),
    {
        self.on(Method::Get, path, handler)
    }

    /// Binds `handler` to `POST` requests at `path`.
    pub fn post(self, path: &str, handler: T) -> (r: Self)
        ensures
            r@ == self@.bind(Method::Post, path@, handler),
            r@.well_formed(),
    {
        self.on(Method::Post, path, handler)
    }

    /// Binds `handler` to `PUT` requests at `path`.
    pub fn put(self, path: &str, handler: T) -> (r: Self)
        ensures
            r@ == self@.bind(Method::Put, path@, handler),
            r@.well_formed(),
    {
        self.on(Method::Put, path, handler)
    }

    /// Binds `handler` to `DELETE` requests at `path`.
    pub fn delete(self, path: &str, handler: T) -> (r: Self)
        ensures
            r@ == self@.bind(Method::Delete, path@, handler),
            r@.well_formed(),
    {
        self.on(Method::Delete, path, handler)
    }

    /// Binds `handler` to `HEAD` requests at `path`.
    pub fn head(self, path: &str, handler: T) -> (r: Self)
        ensures
            r@ == self@.bind(Method::Head, path@, handler),
            r@.well_formed(),
    {
        self.on(Method::Head, path, handler)
    }

    /// Binds `handler` to `TRACE` requests at `path`.
    pub fn trace(self, path: &str, handler: T) -> (r: Self)
        ensures
            r@ == self@.bind(Method::Trace, path@, handler),
            r@.well_formed(),
    {
        self.on(Method::Trace, path, handler)
    }

    /// Binds `handler` to `CONNECT` requests at `path`.
    pub fn connect(self, path: &str, handler: T) -> (r: Self)
        ensures
            r@ == self@.bind(Method::Connect, path@, handler),
            r@.well_formed(),
    {
        self.on(Method::Connect, path, handler)
    }

    /// Binds `handler` to `PATCH` requests at `path`.
    pub fn patch(self, path: &str, handler: T) -> (r: Self)
        ensures
            r@ == self@.bind(Method::Patch, path@, handler),
            r@.well_formed(),
    {
        self.on(Method::Patch, path, handler)
    }

    /// Binds `handler` to requests of every method at `path`.
    pub fn any(self, path: &str, handler: T) -> (r: Self)
        ensures
            r@ == self@.bind(Method::Any, path@, handler),
            r@.well_formed(),
    {
        self.on(Method::Any, path, handler)
    }

    /// The mount path.
    pub fn mount_path(&self) -> (mount: &str)
        ensures
            mount@ == self@.mount,
            is_mount(mount@),
    {
        proof {
            use_type_invariant(self);
        }
        self.path.as_str()
    }

    /// The display name, if one was set.
    pub fn display_name(&self) -> (name: Option<&str>)
        ensures
            match name {
                Some(name) => self@.name == Some(name@),
                None => self@.name is None,
            },
    {
        match &self.name {
            Some(name) => Some(name.as_str()),
            None => None,
        }
    }

    /// The inherit flag.
    pub fn inherits(&self) -> (b: bool)
        ensures
            b == self@.inherit,
    {
        self.inherit
    }

    /// The entries in the order in which they were made, or `None` where
    /// no binding was made since the router was new or drained.
    pub fn routes(&self) -> (routes: Option<&Vec<RouteEntry<T>>>)
        ensures
            self@.well_formed(),
            match routes {
                Some(list) => self@.entries == Some(entry_views(list@)),
                None => self@.entries is None,
            },
    {
        proof {
            use_type_invariant(self);
        }
        self.routes.as_ref()
    }

    /// Takes the entries out of the router, which is left drained.
    pub(crate) fn take_entries(&mut self) -> (taken: Option<Vec<RouteEntry<T>>>)
        ensures
            old(self)@.well_formed(),
            match taken {
                Some(list) => old(self)@.entries == Some(entry_views(list@)),
                None => old(self)@.entries is None,
            },
            final(self)@ == old(self)@.drained(),
    {
        proof {
            use_type_invariant(&*self);
        }
        let mut whole = Router::new();
        std::mem::swap(self, &mut whole);
        let Router { inherit, path, name, routes } = whole;
        *self = Router { inherit, path, name, routes: None };
        routes
    }

    /// Mounts `router` under this router: its entries are taken out of it,
    /// each has its path joined behind this router's mount path, and they
    /// are put behind this router's own entries in their order. A `router`
    /// without entries leaves this router as it is.
    pub fn scope(self, router: Self) -> (r: Self)
        ensures
            r@ == self@.scope(router@),
            r@.well_formed(),
            router@.routes().len() == 0 ==> r@ == self@,
    {
        let mut child = router;
        self.scope_from(&mut child)
    }

    /// Mounts `router` under this router as [`Router::scope`] does, and
    /// leaves `router` to the caller, drained of its entries: mounted
    /// again, here or elsewhere, it adds nothing.
    pub fn scope_from(self, router: &mut Self) -> (r: Self)
        ensures
            r@ == self@.scope(old(router)@),
            r@.well_formed(),
            old(router)@.routes().len() == 0 ==> r@ == self@,
            final(router)@ == old(router)@.drained(),
            final(router)@.entries is None,
    {
        proof {
            use_type_invariant(&self);
        }
        let ghost parent = self@;
        let ghost child = router@;
        match router.take_entries() {
            None => self,
            Some(moved) => {
                let Router { inherit, path: mount, name, routes } = self;
                let mut list = match routes {
                    Some(list) => list,
                    None => Vec::new(),
                };
                assert(entry_views(list@) =~= parent.routes());
                let ghost views = entry_views(moved@);
                for entry in it: moved
                    invariant
                        entry_views(it.seq()) == views,
                        views == child.routes(),
                        views.len() > 0,
                        child.well_formed(),
                        mount@ == parent.mount,
                        is_mount(parent.mount),
                        entry_views(list@) == parent.routes() + views.subrange(
                            0,
                            it.index(),
                        ).map_values(|e: RouteView<T>| e.under(parent.mount)),
                        forall|k: int|
                            0 <= k < list.len() ==> (#[trigger] entry_views(list@)[k]).well_formed(),
                {
                    let ghost i = it.index();
                    let ghost before = entry_views(list@);
                    assert(entry@ == views[i]);
                    let moved_entry = remount(mount.as_str(), entry);
                    list.push(moved_entry);
                    proof {
                        assert(entry_views(list@) =~= before.push(moved_entry@));
                        assert(views.subrange(0, i + 1) =~= views.subrange(0, i).push(views[i]));
                    }
                }
                assert(views.subrange(0, views.len() as int) =~= views);
                Router { inherit, path: mount, name, routes: Some(list) }
            },
        }
    }
}

/// Moves `entry` under `mount`: the method token stays, and the path is
/// joined behind `mount`.
fn remount<T>(mount: &str, entry: RouteEntry<T>) -> (r: RouteEntry<T>)
    requires
        entry@.well_formed(),
        is_absolute(mount@),
    ensures
        r@ == entry@.under(mount@),
        r@.well_formed(),
{
    proof {
        lemma_under(entry@, mount@);
    }
    let RouteEntry { key, method_prefix_len, handler } = entry;
    let n = key.as_str().unicode_len();
    let token = key.as_str().substring_char(0, method_prefix_len);
    let rest = key.as_str().substring_char(method_prefix_len, n);
    let moved = String::from_str(token).concat(join_paths(mount, rest).as_str());
    RouteEntry { key: moved, method_prefix_len, handler }
}

} // verus!
