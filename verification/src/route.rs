//! Routes: which upstream service a request goes to, and under which URI.

use crate::text::{starts_with, take};
use crate::uri::{self, Uri};
use vstd::prelude::*;

verus! {

/// Sends the requests for a path to an upstream service.
#[derive(Debug)]
pub struct Route {
    /// The path to match.
    pub pattern: Uri,
    /// The base URI of the upstream service.
    pub target: Uri,
    /// Whether the paths that start with the pattern match too.
    pub wildcard: bool,
}

pub ghost struct RouteView {
    pub pattern: Seq<char>,
    pub target: Seq<char>,
    pub wildcard: bool,
}

impl View for Route {
    type V = RouteView;

    open spec fn view(&self) -> RouteView {
        RouteView { pattern: self.pattern@, target: self.target@, wildcard: self.wildcard }
    }
}

impl Clone for Route {
    fn clone(&self) -> (copy: Self)
        ensures
            copy@ == self@,
    {
        Route {
            pattern: self.pattern.clone(),
            target: self.target.clone(),
            wildcard: self.wildcard,
        }
    }
}

/// The routes that a list stands for.
pub open spec fn route_views(routes: Seq<Route>) -> Seq<RouteView> {
    routes.map_values(|route: Route| route@)
}

impl RouteView {
    /// The route is for requests for `path`.
    pub open spec fn matches(self, path: Seq<char>) -> bool {
        if self.wildcard {
            uri::shown_uri(self.pattern)->Some_0.is_prefix_of(path)
        } else {
            uri::uri_equals(self.pattern, path)
        }
    }

    /// The pattern, taken literally, is `path` or, for a wildcard, starts it.
    pub open spec fn matches_literally(self, path: Seq<char>) -> bool {
        if self.wildcard {
            self.pattern.is_prefix_of(path)
        } else {
            self.pattern == path
        }
    }
}

/// Which of the routes are for requests for `path`.
pub open spec fn matching(routes: Seq<RouteView>, path: Seq<char>) -> Seq<bool> {
    Seq::new(routes.len(), |i: int| routes[i].matches(path))
}

/// Which of the routes match `path` literally.
pub open spec fn matching_literally(routes: Seq<RouteView>, path: Seq<char>) -> Seq<bool> {
    Seq::new(routes.len(), |i: int| routes[i].matches_literally(path))
}

/// The route that a request for `path` takes: the first that matches.
pub open spec fn chosen(routes: Seq<RouteView>, path: Seq<char>) -> Option<int> {
    matching(routes, path).index_of_first(true)
}

/// Every pattern is a path, without query or fragment.
pub open spec fn path_patterns(routes: Seq<RouteView>) -> bool {
    forall|i: int| 0 <= i < routes.len() ==> uri::path_alone((#[trigger] routes[i]).pattern)
}

/// `path`, and the query if there is one, right behind `base`.
pub open spec fn appended(base: Seq<char>, path: Seq<char>, query: Option<Seq<char>>) -> Seq<char> {
    match query {
        Some(query) => (base + path).push('?') + query,
        None => base + path,
    }
}

/// `s` without its last character where that is a slash.
pub open spec fn without_final_slash(s: Seq<char>) -> Seq<char> {
    if s.len() > 0 && s.last() == '/' {
        s.drop_last()
    } else {
        s
    }
}

/// `path` opens with a slash.
pub open spec fn rooted(path: Seq<char>) -> bool {
    path.len() > 0 && path[0] == '/'
}

/// The URI to send a request to, for a target shown as `target`: the path stands
/// behind the target, with the one slash between them that a path opens with, and
/// the query follows if there is one.
pub open spec fn forward_text(
    target: Seq<char>,
    path: Seq<char>,
    query: Option<Seq<char>>,
) -> Seq<char> {
    if rooted(path) {
        appended(without_final_slash(target), path, query)
    } else {
        appended(target, path, query)
    }
}

/// The base of a service's address: the address, without the slash that its path
/// may end with.
pub open spec fn base_of(target: Seq<char>) -> Seq<char> {
    if crate::uri_serde::uri_parts(target).path.len() == 0 {
        target
    } else {
        without_final_slash(target)
    }
}

/// The query that an optional string slice stands for.
pub open spec fn query_view(query: Option<&str>) -> Option<Seq<char>> {
    match query {
        Some(query) => Some(query@),
        None => None,
    }
}

/// A wildcard route, its pattern shown as `shown`, is for the requests for `shown`
/// followed by any text.
pub proof fn law_wildcard_takes_extensions(route: RouteView, shown: Seq<char>, more: Seq<char>)
    requires
        route.wildcard,
        uri::shown_uri(route.pattern) == Some(shown),
    ensures
        route.matches(shown + more),
{
    assert((shown + more).subrange(0, shown.len() as int) =~= shown);
}

/// A wildcard route, its pattern shown as `shown`, is for no request but those for
/// `shown` followed by some text.
pub proof fn law_wildcard_takes_nothing_else(
    route: RouteView,
    shown: Seq<char>,
    path: Seq<char>,
)
    requires
        route.wildcard,
        uri::shown_uri(route.pattern) == Some(shown),
        route.matches(path),
    ensures
        path.len() >= shown.len(),
        path == shown + path.skip(shown.len() as int),
{
    assert(path =~= path.subrange(0, shown.len() as int) + path.skip(shown.len() as int));
}

/// A route that is no wildcard is for the requests for what its pattern equals.
pub proof fn law_exact_route_takes_equals(route: RouteView, path: Seq<char>)
    requires
        !route.wildcard,
    ensures
        route.matches(path) <==> uri::uri_equals(route.pattern, path),
{
}

/// Taken literally, a wildcard pattern matches itself followed by any text and nothing
/// else, and another pattern itself and nothing else.
pub proof fn law_literal_matches(route: RouteView, more: Seq<char>, path: Seq<char>)
    ensures
        route.wildcard ==> route.matches_literally(route.pattern + more),
        route.wildcard && route.matches_literally(path) ==> path.len() >= route.pattern.len()
            && path == route.pattern + path.skip(route.pattern.len() as int),
        !route.wildcard ==> (route.matches_literally(path) <==> path == route.pattern),
{
    assert((route.pattern + more).subrange(0, route.pattern.len() as int) =~= route.pattern);
    if route.wildcard && route.matches_literally(path) {
        assert(path =~= path.subrange(0, route.pattern.len() as int) + path.skip(
            route.pattern.len() as int,
        ));
    }
}

/// The route that a request takes matches, no route before it does, and there is one
/// whenever any route matches.
pub proof fn law_chosen_is_first(routes: Seq<RouteView>, path: Seq<char>)
    ensures
        match chosen(routes, path) {
            Some(i) => 0 <= i < routes.len() && routes[i].matches(path) && forall|j: int|
                0 <= j < i ==> !(#[trigger] routes[j]).matches(path),
            None => forall|j: int| 0 <= j < routes.len() ==> !(#[trigger] routes[j]).matches(path),
        },
{
    let flags = matching(routes, path);
    flags.index_of_first_ensures(true);
    match chosen(routes, path) {
        Some(i) => {
            assert forall|j: int| 0 <= j < i implies !(#[trigger] routes[j]).matches(path) by {
                assert(flags[j] != true);
            }
        },
        None => {
            assert forall|j: int| 0 <= j < routes.len() implies !(#[trigger] routes[j]).matches(
                path,
            ) by {
                assert(flags[j] == routes[j].matches(path));
            }
        },
    }
}

/// A target that is shown with or without a slash at its end, and a path that opens with
/// a slash, meet in one slash; the path and the query follow as they are.
pub proof fn law_target_and_path_meet_in_one_slash(
    base: Seq<char>,
    rest: Seq<char>,
    query: Seq<char>,
)
    ensures
        forward_text(base + seq!['/'], seq!['/'] + rest, None) == base + seq!['/'] + rest,
        forward_text(base + seq!['/'], seq!['/'] + rest, Some(query)) == base + seq!['/'] + rest
            + seq!['?'] + query,
        base.len() == 0 || base[base.len() - 1] != '/' ==> forward_text(
            base,
            seq!['/'] + rest,
            None,
        ) == base + seq!['/'] + rest && forward_text(base, seq!['/'] + rest, Some(query)) == base
            + seq!['/'] + rest + seq!['?'] + query,
{
    let path = seq!['/'] + rest;
    assert((base + seq!['/']).drop_last() =~= base);
    assert(base + path =~= base + seq!['/'] + rest);
    assert((base + path).push('?') + query =~= base + seq!['/'] + rest + seq!['?'] + query);
}

/// A path that opens with no slash follows the target as it is.
pub proof fn law_other_paths_follow_the_target(
    target: Seq<char>,
    path: Seq<char>,
    query: Seq<char>,
)
    requires
        path.len() == 0 || path[0] != '/',
    ensures
        forward_text(target, path, None) == target + path,
        forward_text(target, path, Some(query)) == target + path + seq!['?'] + query,
{
    assert((target + path).push('?') + query =~= target + path + seq!['?'] + query);
}

/// A path opens with a slash or it does not, and a text loses one slash at its end at most.
pub proof fn law_slashes(s: Seq<char>, c: char)
    ensures
        rooted(seq!['/'] + s),
        c != '/' ==> !rooted(seq![c] + s),
        !rooted(Seq::empty()),
        without_final_slash(s + seq!['/']) == s,
        c != '/' ==> without_final_slash(s + seq![c]) == s + seq![c],
        without_final_slash(Seq::empty()) == Seq::<char>::empty(),
{
    assert((s + seq!['/']).drop_last() =~= s);
}

/// A path and a query follow the base as they are.
pub proof fn law_appended_follows_base(base: Seq<char>, path: Seq<char>, query: Seq<char>)
    ensures
        appended(base, path, None) == base + path,
        appended(base, path, Some(query)) == base + path + seq!['?'] + query,
{
    assert((base + path).push('?') + query =~= base + path + seq!['?'] + query);
}

/// Whether a route matches does not depend on the others.
pub proof fn law_routes_match_one_by_one(routes: Seq<RouteView>, path: Seq<char>, i: int)
    requires
        0 <= i < routes.len(),
    ensures
        matching(routes, path).len() == routes.len(),
        matching(routes, path)[i] == routes[i].matches(path),
        matching_literally(routes, path).len() == routes.len(),
        matching_literally(routes, path)[i] == routes[i].matches_literally(path),
        path_patterns(routes) ==> uri::path_alone(routes[i].pattern),
        path_patterns(seq![routes[i]]) <==> uri::path_alone(routes[i].pattern),
{
    assert(seq![routes[i]][0] == routes[i]);
}

/// A route stands for its pattern, its target and its wildcard setting, and a list of
/// routes for its routes, one by one.
pub proof fn law_routes_stand_for_themselves(routes: Seq<Route>, i: int)
    requires
        0 <= i < routes.len(),
    ensures
        route_views(routes).len() == routes.len(),
        route_views(routes)[i].pattern == routes[i].pattern@,
        route_views(routes)[i].target == routes[i].target@,
        route_views(routes)[i].wildcard == routes[i].wildcard,
{
}

/// An optional string slice stands for its text.
pub proof fn law_query_stands_for_itself(query: &str)
    ensures
        query_view(Some(query)) == Some(query@),
        query_view(None) is None,
{
}

/// The URI to send to is the base URI of a service followed by the path of the
/// request, whether the base URI is shown with a slash behind it or without.
pub proof fn law_forward_appends_path(
    base: Seq<char>,
    shown: Seq<char>,
    path: Seq<char>,
    query: Option<Seq<char>>,
)
    requires
        shown == base.push('/') || (shown == base && !(base.len() > 0 && base.last() == '/')),
        rooted(path),
    ensures
        forward_text(shown, path, query) == appended(base, path, query),
{
    assert(base.push('/').drop_last() =~= base);
}

/// A path arrives at the service unchanged: the URI to send to ends with it, but for
/// the query, and what stands before it depends on the target alone.
pub proof fn law_path_arrives_unchanged(
    target: Seq<char>,
    path: Seq<char>,
    query: Option<Seq<char>>,
)
    requires
        rooted(path),
    ensures
        ({
            let sent = forward_text(target, path, query);
            let start = without_final_slash(target).len() as int;
            let end = start + path.len();
            &&& sent.take(start) == without_final_slash(target)
            &&& sent.subrange(start, end) == path
            &&& sent.skip(end) == match query {
                Some(query) => seq!['?'] + query,
                None => Seq::empty(),
            }
        }),
{
    let sent = forward_text(target, path, query);
    let start = without_final_slash(target).len() as int;
    let end = start + path.len();
    assert(sent.take(start) =~= without_final_slash(target));
    assert(sent.subrange(start, end) =~= path);
    match query {
        Some(query) => assert(sent.skip(end) =~= seq!['?'] + query),
        None => assert(sent.skip(end) =~= Seq::empty()),
    }
}

proof fn lemma_address_is_no_path(target: Seq<char>)
    requires
        uri::address(target),
    ensures
        !uri::path_alone(target),
{
    reveal_strlit("http");
    reveal_strlit("https");
    target.index_of_first_ensures(':');
    let scheme = crate::uri_serde::uri_parts(target).scheme->Some_0;
    let colon = target.index_of_first(':')->Some_0;
    assert(scheme == target.take(colon));
    assert(scheme.len() > 0 && scheme[0] == 'h');
}

/// Whether a wildcard pattern, shown as `shown`, is for requests for `path`.
pub fn wildcard_matches(shown: &str, path: &str) -> (b: bool)
    ensures
        b == shown@.is_prefix_of(path@),
        b <==> path@.len() >= shown@.len() && path@.take(shown@.len() as int) == shown@,
{
    starts_with(path, shown)
}

/// The URI to send a request to, for a target shown as `target`.
pub fn forward_uri(target: &str, path: &str, query: Option<&str>) -> (address: String)
    ensures
        address@ == forward_text(target@, path@, query_view(query)),
{
    let len = target.unicode_len();
    let joint = path.unicode_len() > 0 && path.get_char(0) == '/' && len > 0 && target.get_char(
        len - 1,
    ) == '/';
    let mut address = String::from_str(
        if joint {
            take(target, len - 1)
        } else {
            target
        },
    );
    address.append(path);
    match query {
        Some(query) => {
            address.push('?');
            address.append(query);
        },
        None => {},
    }
    address
}

impl Route {
    /// Whether the route is for requests for `path`. A path as pattern matches
    /// itself and no other path, and as a wildcard the paths that start with it and no
    /// other.
    pub fn matches(&self, path: &str) -> (b: bool)
        ensures
            b == self@.matches(path@),
            uri::path_alone(self@.pattern) && !path@.contains('#') ==> b
                == self@.matches_literally(path@),
            uri::path_alone(self.pattern@) && !path@.contains('#') && self.wildcard ==> (b
                <==> exists|more: Seq<char>| path@ == #[trigger] (self.pattern@ + more)),
            uri::path_alone(self.pattern@) && !path@.contains('#') && !self.wildcard ==> (b
                <==> path@ == self.pattern@),
    {
        proof {
            assert forall|more: Seq<char>| path@ == #[trigger] (self.pattern@
                + more) implies self.pattern@.is_prefix_of(path@) by {
                assert(path@.subrange(0, self.pattern@.len() as int) =~= self.pattern@);
            }
            if self.pattern@.is_prefix_of(path@) {
                let len = self.pattern@.len() as int;
                assert(path@ =~= self.pattern@ + path@.skip(len));
            }
        }
        if self.wildcard {
            wildcard_matches(self.pattern.to_string().as_str(), path)
        } else {
            let b = self.pattern.equals(path);
            proof {
                let marked = self.pattern@.push('#');
                if marked.is_prefix_of(path@) {
                    let at = self.pattern@.len() as int;
                    assert(marked[at] == '#');
                    assert(path@[at] == path@.subrange(0, marked.len() as int)[at]);
                    assert(path@.contains('#'));
                }
            }
            b
        }
    }

    /// A route as the settings give it; without a word on `wildcard`, it is none.
    pub fn from_settings(pattern: Uri, target: Uri, wildcard: Option<bool>) -> (route: Route)
        ensures
            route@ == (RouteView {
                pattern: pattern@,
                target: target@,
                wildcard: crate::config::set_or(wildcard, false),
            }),
            route.pattern == pattern,
            route.target == target,
            route.wildcard <==> wildcard == Some(true),
    {
        let wildcard = match wildcard {
            Some(wildcard) => wildcard,
            None => false,
        };
        Route { pattern, target, wildcard }
    }

    /// The URI to send a request to on this route. For the address of a service, and a
    /// path that opens with a slash, it is the base of the address followed by the path.
    pub fn forward(&self, path: &str, query: Option<&str>) -> (address: String)
        ensures
            uri::shown_uri(self@.target) is Some,
            address@ == forward_text(
                uri::shown_uri(self@.target)->Some_0,
                path@,
                query_view(query),
            ),
            uri::address(self@.target) && rooted(path@) ==> address@ == appended(
                base_of(self@.target),
                path@,
                query_view(query),
            ),
    {
        let shown = self.target.to_string();
        proof {
            if uri::address(self@.target) && rooted(path@) {
                lemma_address_is_no_path(self@.target);
                assert(self@.target.push('/').drop_last() =~= self@.target);
            }
        }
        forward_uri(shown.as_str(), path, query)
    }
}

/// Finds the route that a request for `path` takes.
pub fn find_route(routes: &Vec<Route>, path: &str) -> (found: Option<usize>)
    ensures
        match found {
            Some(i) => i < routes@.len() && chosen(route_views(routes@), path@) == Some(i as int),
            None => chosen(route_views(routes@), path@) is None,
        },
        path_patterns(route_views(routes@)) && !path@.contains('#') ==> chosen(
            route_views(routes@),
            path@,
        ) == matching_literally(route_views(routes@), path@).index_of_first(true),
        (forall|j: int|
            0 <= j < routes@.len() ==> uri::path_alone((#[trigger] routes@[j]).pattern@))
            && !path@.contains('#') ==> ({
            // The paths that a pattern takes: those that start with a wildcard, and itself.
            let taken = |route: Route|
                if route.wildcard {
                    route.pattern@.is_prefix_of(path@)
                } else {
                    route.pattern@ == path@
                };
            match found {
                Some(i) => i < routes@.len() && taken(routes@[i as int]) && forall|j: int|
                    0 <= j < i ==> !taken(#[trigger] routes@[j]),
                None => forall|j: int| 0 <= j < routes@.len() ==> !taken(#[trigger] routes@[j]),
            }
        }),
{
    let ghost views = route_views(routes@);
    let ghost flags = matching(views, path@);
    let ghost literal = matching_literally(views, path@);
    let ghost literally = path_patterns(views) && !path@.contains('#');
    proof {
        flags.index_of_first_ensures(true);
        literal.index_of_first_ensures(true);
    }
    let mut i: usize = 0;
    while i < routes.len()
        invariant
            views == route_views(routes@),
            flags == matching(views, path@),
            literal == matching_literally(views, path@),
            literally == (path_patterns(views) && !path@.contains('#')),
            i <= routes@.len(),
            forall|j: int| 0 <= j < i ==> !(#[trigger] flags[j]),
            literally ==> forall|j: int| 0 <= j < i ==> !(#[trigger] literal[j]),
            forall|j: int|
                0 <= j < i && uri::path_alone((#[trigger] routes@[j]).pattern@) && !path@.contains(
                    '#',
                ) ==> !if routes@[j].wildcard {
                    routes@[j].pattern@.is_prefix_of(path@)
                } else {
                    routes@[j].pattern@ == path@
                },
        decreases routes.len() - i,
    {
        proof {
            assert(views[i as int] == routes@[i as int]@);
        }
        if routes[i].matches(path) {
            proof {
                flags.index_of_first_ensures(true);
                literal.index_of_first_ensures(true);
                assert(flags[i as int]);
                assert(flags.contains(true));
                if literally {
                    assert(literal[i as int]);
                    assert(literal.contains(true));
                }
            }
            return Some(i);
        }
        i += 1;
    }
    None
}

} // verus!
