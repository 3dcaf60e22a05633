use vstd::prelude::*;
use crate::matcher::{route_matches, template_matches};
use crate::response::{is_bare, not_found, Response};

verus! {

/// The templates of a route table, in scan order.
pub open spec fn keys_of<H>(routes: Seq<(Seq<char>, H)>) -> Seq<Seq<char>> {
    routes.map_values(|e: (Seq<char>, H)| e.0)
}

/// No template occurs twice in the table.
pub open spec fn distinct_keys<H>(routes: Seq<(Seq<char>, H)>) -> bool {
    forall|i: int, j: int|
        0 <= i < routes.len() && 0 <= j < routes.len() && i != j ==> routes[i].0 != routes[j].0
}

/// The position of the first key equal to `template`, if any.
pub open spec fn first_equal(keys: Seq<Seq<char>>, template: Seq<char>) -> Option<int>
    decreases keys.len(),
{
    if keys.len() == 0 {
        None
    } else {
        match first_equal(keys.drop_last(), template) {
            Some(i) => Some(i),
            None => if keys.last() == template {
                Some(keys.len() - 1)
            } else {
                None
            },
        }
    }
}

/// The position of the first key that matches `path`, if any.
pub open spec fn first_matching(keys: Seq<Seq<char>>, path: Seq<char>) -> Option<int>
    decreases keys.len(),
{
    if keys.len() == 0 {
        None
    } else {
        match first_matching(keys.drop_last(), path) {
            Some(i) => Some(i),
            None => if route_matches(keys.last(), path) {
                Some(keys.len() - 1)
            } else {
                None
            },
        }
    }
}

/// Where `template` sits in the table, if it was registered.
pub open spec fn template_index<H>(routes: Seq<(Seq<char>, H)>, template: Seq<char>) -> Option<
    int,
> {
    first_equal(keys_of(routes), template)
}

/// The table after registering `handler` under `template`: an entry with that
/// exact template gets the new handler in its place, otherwise the entry goes
/// last.
pub open spec fn registered<H>(routes: Seq<(Seq<char>, H)>, template: Seq<char>, handler: H) -> Seq<
    (Seq<char>, H),
> {
    match template_index(routes, template) {
        Some(i) => routes.update(i, (template, handler)),
        None => routes.push((template, handler)),
    }
}

/// The entry that serves `path`: the first one, in scan order, whose template
/// matches it.
pub open spec fn dispatch<H>(routes: Seq<(Seq<char>, H)>, path: Seq<char>) -> Option<int> {
    first_matching(keys_of(routes), path)
}

/// `template_index` is the least position that holds `template`.
pub proof fn lemma_template_index<H>(routes: Seq<(Seq<char>, H)>, template: Seq<char>)
    ensures
        match template_index(routes, template) {
            Some(i) => 0 <= i < routes.len() && routes[i].0 == template && forall|j: int|
                0 <= j < i ==> #[trigger] routes[j].0 != template,
            None => forall|j: int| 0 <= j < routes.len() ==> #[trigger] routes[j].0 != template,
        },
    decreases routes.len(),
{
    if routes.len() > 0 {
        let prev = routes.drop_last();
        assert(keys_of(routes).drop_last() =~= keys_of(prev));
        lemma_template_index(prev, template);
        assert forall|j: int| 0 <= j < prev.len() implies prev[j] == routes[j] by {}
    }
}

/// `dispatch` is the least position whose template matches `path`.
pub proof fn lemma_dispatch<H>(routes: Seq<(Seq<char>, H)>, path: Seq<char>)
    ensures
        match dispatch(routes, path) {
            Some(i) => 0 <= i < routes.len() && route_matches(routes[i].0, path) && forall|j: int|
                0 <= j < i ==> !route_matches(#[trigger] routes[j].0, path),
            None => forall|j: int| 0 <= j < routes.len() ==> !route_matches(#[trigger] routes[j].0, path),
        },
    decreases routes.len(),
{
    if routes.len() > 0 {
        let prev = routes.drop_last();
        assert(keys_of(routes).drop_last() =~= keys_of(prev));
        lemma_dispatch(prev, path);
        assert forall|j: int| 0 <= j < prev.len() implies prev[j] == routes[j] by {}
    }
}

/// Any position that holds `template` while none before it does is `template_index`.
proof fn lemma_template_index_is<H>(routes: Seq<(Seq<char>, H)>, template: Seq<char>, i: int)
    requires
        0 <= i < routes.len(),
        routes[i].0 == template,
        forall|j: int| 0 <= j < i ==> #[trigger] routes[j].0 != template,
    ensures
        template_index(routes, template) == Some(i),
{
    lemma_template_index(routes, template);
}

/// Any position whose template matches `path` while none before it does is
/// `dispatch`.
proof fn lemma_dispatch_is<H>(routes: Seq<(Seq<char>, H)>, path: Seq<char>, i: int)
    requires
        0 <= i < routes.len(),
        route_matches(routes[i].0, path),
        forall|j: int| 0 <= j < i ==> !route_matches(#[trigger] routes[j].0, path),
    ensures
        dispatch(routes, path) == Some(i),
{
    lemma_dispatch(routes, path);
}

/// Registering the same template twice leaves the table as if only the second
/// handler had been registered: whenever a path is dispatched to that template,
/// the second handler serves it.
pub proof fn lemma_register_overwrites<H>(
    routes: Seq<(Seq<char>, H)>,
    template: Seq<char>,
    first: H,
    second: H,
)
    requires
        distinct_keys(routes),
    ensures
        registered(registered(routes, template, first), template, second) == registered(
            routes,
            template,
            second,
        ),
        forall|path: Seq<char>, i: int|
            #![trigger dispatch(registered(registered(routes, template, first), template, second), path), registered(registered(routes, template, first), template, second)[i]]
            dispatch(registered(registered(routes, template, first), template, second), path)
                == Some(i) && registered(registered(routes, template, first), template, second)[i].0
                == template ==> registered(
                registered(routes, template, first),
                template,
                second,
            )[i].1 == second,
{
    lemma_register_overwrites_table(routes, template, first, second);
    let table = registered(routes, template, second);
    lemma_template_index(routes, template);
    assert forall|path: Seq<char>, i: int|
        #![trigger dispatch(table, path), table[i]]
        dispatch(table, path) == Some(i) && table[i].0 == template implies table[i].1
        == second by {
        lemma_dispatch(table, path);
        match template_index(routes, template) {
            Some(k) => {
                if i != k {
                    assert(routes[i].0 == template);
                    assert(routes[k].0 == template);
                }
            },
            None => {
                if i != routes.len() {
                    assert(routes[i].0 == template);
                }
            },
        }
    }
}

proof fn lemma_register_overwrites_table<H>(
    routes: Seq<(Seq<char>, H)>,
    template: Seq<char>,
    first: H,
    second: H,
)
    ensures
        registered(registered(routes, template, first), template, second) == registered(
            routes,
            template,
            second,
        ),
{
    lemma_template_index(routes, template);
    let once = registered(routes, template, first);
    match template_index(routes, template) {
        Some(i) => {
            lemma_template_index_is(once, template, i);
            assert(once.update(i, (template, second)) =~= routes.update(i, (template, second)));
        },
        None => {
            lemma_template_index_is(once, template, routes.len() as int);
            assert(once.update(routes.len() as int, (template, second)) =~= routes.push(
                (template, second),
            ));
        },
    }
}

/// Of two new templates that both match `path`, the one registered first is
/// scanned first: it serves the path unless an older entry already does, and
/// the later one never does.
pub proof fn lemma_first_registered_serves<H>(
    routes: Seq<(Seq<char>, H)>,
    t1: Seq<char>,
    h1: H,
    t2: Seq<char>,
    h2: H,
    path: Seq<char>,
)
    requires
        template_index(routes, t1) is None,
        template_index(routes, t2) is None,
        t1 != t2,
        route_matches(t1, path),
        route_matches(t2, path),
    ensures
        ({
            let table = registered(registered(routes, t1, h1), t2, h2);
            &&& table == routes.push((t1, h1)).push((t2, h2))
            &&& dispatch(table, path) == match dispatch(routes, path) {
                Some(i) => Some(i),
                None => Some(routes.len() as int),
            }
        }),
{
    lemma_template_index(routes, t2);
    let once = routes.push((t1, h1));
    assert(registered(routes, t1, h1) == once);
    lemma_template_index(once, t2);
    if template_index(once, t2) is Some {
        let k = template_index(once, t2)->0;
        assert(k < routes.len() ==> once[k] == routes[k]);
    }
    let table = once.push((t2, h2));
    lemma_dispatch(routes, path);
    match dispatch(routes, path) {
        Some(i) => {
            assert(table[i] == routes[i]);
            assert forall|j: int| 0 <= j < i implies !route_matches(#[trigger] table[j].0, path) by {
                assert(table[j] == routes[j]);
            }
            lemma_dispatch_is(table, path, i);
        },
        None => {
            assert forall|j: int| 0 <= j < routes.len() implies !route_matches(
                #[trigger] table[j].0,
                path,
            ) by {
                assert(table[j] == routes[j]);
            }
            lemma_dispatch_is(table, path, routes.len() as int);
        },
    }
}

/// A table of route templates, each with its handler, scanned in the order in
/// which the templates were first registered.
///
/// Registration happens before serving: `register` takes the router and hands
/// it back, and lookups borrow it.
pub struct Router<H> {
    routes: Vec<(String, H)>,
}

impl<H> View for Router<H> {
    type V = Seq<(Seq<char>, H)>;

    closed spec fn view(&self) -> Seq<(Seq<char>, H)> {
        self.routes@.map_values(|e: (String, H)| (e.0@, e.1))
    }
}

impl<H> Router<H> {
    /// Each template is registered once.
    pub open spec fn wf(&self) -> bool {
        distinct_keys(self@)
    }

    /// An empty router.
    pub fn new() -> (r: Self)
        ensures
            r@ == Seq::<(Seq<char>, H)>::empty(),
            r.wf(),
    {
        let r = Router { routes: Vec::new() };
        assert(r@ =~= Seq::<(Seq<char>, H)>::empty());
        r
    }

    /// Registers `handler` under the exact text `template`. A template already
    /// registered keeps its place in the scan order and takes the new handler;
    /// a new one is scanned after all others.
    pub fn register(self, template: String, handler: H) -> (r: Self)
        requires
            self.wf(),
        ensures
            r@ == registered(self@, template@, handler),
            r.wf(),
    {
        let ghost before = self@;
        let mut routes = self.routes;
        let n = routes.len();
        let mut i: usize = 0;
        while i < n
            invariant
                n == routes@.len() == before.len(),
                i <= n,
                before == routes@.map_values(|e: (String, H)| (e.0@, e.1)),
                before == self@,
                distinct_keys(before),
                forall|j: int| 0 <= j < i ==> before[j].0 != template@,
            decreases n - i,
        {
            if routes[i].0 == template {
                proof {
                    assert(before[i as int].0 == routes@[i as int].0@);
                    lemma_template_index(before, template@);
                    let k = template_index(before, template@)->0;
                    assert(k == i);
                }
                routes[i] = (template, handler);
                let r = Router { routes };
                assert(r@ =~= registered(before, template@, handler));
                assert(distinct_keys(r@)) by {
                    assert forall|j: int| 0 <= j < r@.len() implies r@[j].0 == before[j].0 by {}
                }
                return r;
            }
            i = i + 1;
        }
        proof {
            lemma_template_index(before, template@);
        }
        routes.push((template, handler));
        let r = Router { routes };
        assert(r@ =~= registered(before, template@, handler));
        r
    }

    /// The position, in scan order, of the entry that serves `path`; `None`
    /// when no template matches it.
    pub fn route(&self, path: &str) -> (r: Option<usize>)
        ensures
            r matches Some(i) ==> i < self@.len() && dispatch(self@, path@) == Some(i as int),
            r is None ==> dispatch(self@, path@) is None,
            r is None <==> forall|j: int| 0 <= j < self@.len() ==> !route_matches(self@[j].0, path@),
    {
        let n = self.routes.len();
        let mut i: usize = 0;
        while i < n
            invariant
                n == self@.len(),
                i <= n,
                forall|j: int| 0 <= j < i ==> !route_matches(self@[j].0, path@),
            decreases n - i,
        {
            if template_matches(self.routes[i].0.as_str(), path) {
                proof {
                    assert(self@[i as int].0 == self.routes@[i as int].0@);
                    lemma_dispatch(self@, path@);
                    let k = dispatch(self@, path@)->0;
                    assert(k == i);
                }
                return Some(i);
            }
            i = i + 1;
        }
        proof {
            lemma_dispatch(self@, path@);
        }
        None
    }

    /// The handler that serves `path`, or `None` when there is no path or no
    /// template matches it.
    pub fn handler_for(&self, path: Option<&str>) -> (r: Option<&H>)
        ensures
            path is None ==> r is None,
            path matches Some(p) ==> match dispatch(self@, p@) {
                Some(i) => r == Some(&self@[i].1),
                None => r is None,
            },
    {
        match path {
            Some(p) => match self.route(p) {
                Some(i) => {
                    assert(self@[i as int].1 == self.routes@[i as int].1);
                    Some(&self.routes[i].1)
                },
                None => None,
            },
            None => None,
        }
    }

    /// Hands `request` to the handler that serves `path` and returns what it
    /// answers; when no template matches, answers not found without calling
    /// any handler.
    pub fn invoke<Req>(&self, path: &str, request: Req) -> (r: Response) where
        H: Fn(Req) -> Response,

        requires
            match dispatch(self@, path@) {
                Some(i) => self@[i].1.requires((request,)),
                None => true,
            },
        ensures
            match dispatch(self@, path@) {
                Some(i) => self@[i].1.ensures((request,), r),
                None => is_bare(r, 404),
            },
    {
        proof {
            lemma_dispatch(self@, path@);
        }
        match self.route(path) {
            Some(i) => {
                assert(self@[i as int].1 == self.routes@[i as int].1);
                let handler = &self.routes[i].1;
                handler(request)
            },
            None => not_found(),
        }
    }
}

} // verus!
