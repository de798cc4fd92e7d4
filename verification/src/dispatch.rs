//! Deciding what becomes of a request.
//!
//! The decision is made from what a request says of itself: the host it
//! names, its path and its query. It is either a reply that is made up on
//! the spot or a request to an upstream. The transport carries that request
//! out and hands the outcome to [`conclude`].
//!
//! The rules, in their order:
//! 1. A host header that cannot be read makes the request malformed: 400.
//! 2. No host, an empty host, or the root path: the welcome page, 200. The
//!    root path is welcomed even where the host is known to the table.
//! 3. A host that the table knows: the request goes to the upstream of its
//!    entry, with method and body as they came.
//! 4. Any other host: 404.

use crate::config::EntryView;
use crate::routing::RoutingTable;
use vstd::prelude::*;

verus! {

/// What a request says of the host it is meant for.
#[derive(Debug, PartialEq, Eq)]
pub enum HostHeader {
    /// The request has no host header.
    Absent,
    /// The request has a host header that is no text.
    Unreadable,
    /// The host that the request names; it may be empty.
    Named(String),
}

/// A [`HostHeader`] as plain values.
pub enum HostView {
    Absent,
    Unreadable,
    Named(Seq<char>),
}

impl View for HostHeader {
    type V = HostView;

    open spec fn view(&self) -> HostView {
        match self {
            HostHeader::Absent => HostView::Absent,
            HostHeader::Unreadable => HostView::Unreadable,
            HostHeader::Named(name) => HostView::Named(name@),
        }
    }
}

/// What the decision reads of a request, and the body that it passes on.
#[derive(Debug, PartialEq, Eq)]
pub struct InboundRequest<B> {
    pub method: String,
    /// The path, without the query.
    pub path: String,
    /// What stands behind the `?`, where there is one.
    pub query: Option<String>,
    pub host: HostHeader,
    pub body: B,
}

/// How the body of a reply is to be read.
#[derive(Clone, Copy, Debug, PartialEq, Eq, Structural)]
pub enum BodyKind {
    Html,
    PlainText,
}

/// A reply that is made up here.
#[derive(Debug, PartialEq, Eq)]
pub struct Reply {
    pub status: u16,
    pub kind: BodyKind,
    pub body: String,
}

/// A [`Reply`] as plain values.
pub struct ReplyView {
    pub status: u16,
    pub kind: BodyKind,
    pub body: Seq<char>,
}

impl View for Reply {
    type V = ReplyView;

    open spec fn view(&self) -> ReplyView {
        ReplyView { status: self.status, kind: self.kind, body: self.body@ }
    }
}

/// A request to an upstream.
#[derive(Debug, PartialEq, Eq)]
pub struct OutboundRequest<B> {
    pub method: String,
    /// The upstream, followed by path and query of the inbound request.
    pub uri: String,
    pub body: B,
}

/// What is to be done with a request.
#[derive(Debug, PartialEq, Eq)]
pub enum Action<B> {
    /// Answer with this reply.
    Respond(Reply),
    /// Send this request to the upstream and relay what comes back.
    Forward(OutboundRequest<B>),
}

/// How an exchange ends.
#[derive(Debug, PartialEq, Eq)]
pub enum Completion<R> {
    /// With the response of the upstream, as it came.
    Upstream(R),
    /// With a reply that is made up here.
    Local(Reply),
}

/// The root path.
pub open spec fn root_path() -> Seq<char> {
    "/"@
}

/// The welcome page: status 200.
pub open spec fn welcome() -> ReplyView {
    ReplyView {
        status: 200,
        kind: BodyKind::Html,
        body: "<html><head><title>MiHTTP</title></head><body><h1>Welcome to MiHTTP</h1><p>Your reverse proxy server is running!</p></body></html>"@,
    }
}

/// The reply to a request that is malformed: status 400.
pub open spec fn bad_request() -> ReplyView {
    ReplyView { status: 400, kind: BodyKind::PlainText, body: "Bad Request"@ }
}

/// The reply to a request for a host that the table does not know: status 404.
pub open spec fn not_found() -> ReplyView {
    ReplyView { status: 404, kind: BodyKind::PlainText, body: "Not Found"@ }
}

/// The reply where the upstream could not be reached or did not answer
/// properly: status 502.
pub open spec fn bad_gateway() -> ReplyView {
    ReplyView { status: 502, kind: BodyKind::PlainText, body: "Bad Gateway"@ }
}

/// A query as plain values.
pub open spec fn query_view(query: Option<String>) -> Option<Seq<char>> {
    match query {
        Some(q) => Some(q@),
        None => None,
    }
}

/// Where a request goes: the upstream, followed by the path and, where the
/// request has a query, by `?` and the query.
pub open spec fn target(upstream: Seq<char>, path: Seq<char>, query: Option<Seq<char>>) -> Seq<
    char,
> {
    match query {
        Some(q) => upstream + path + "?"@ + q,
        None => upstream + path,
    }
}

/// A decision as plain values.
pub enum Route {
    /// Answer with this reply.
    Reply(ReplyView),
    /// Forward to this address.
    Forward(Seq<char>),
}

/// What is to be done with a request that names `host` and asks for `path`
/// and `query`, under the table `table`.
pub open spec fn route(
    host: HostView,
    path: Seq<char>,
    query: Option<Seq<char>>,
    table: Map<Seq<char>, EntryView>,
) -> Route {
    match host {
        HostView::Unreadable => Route::Reply(bad_request()),
        HostView::Absent => Route::Reply(welcome()),
        HostView::Named(name) => if name.len() == 0 || path == root_path() {
            Route::Reply(welcome())
        } else if table.contains_key(name) {
            Route::Forward(target(table[name].upstream, path, query))
        } else {
            Route::Reply(not_found())
        },
    }
}

impl<B> Action<B> {
    /// The decision that the action carries out.
    pub open spec fn decision(self) -> Route {
        match self {
            Action::Respond(reply) => Route::Reply(reply@),
            Action::Forward(out) => Route::Forward(out.uri@),
        }
    }
}

/// The welcome page.
pub fn welcome_reply() -> (reply: Reply)
    ensures
        reply@ == welcome(),
{
    Reply {
        status: 200,
        kind: BodyKind::Html,
        body: "<html><head><title>MiHTTP</title></head><body><h1>Welcome to MiHTTP</h1><p>Your reverse proxy server is running!</p></body></html>".to_owned(),
    }
}

/// The reply to a malformed request.
pub fn bad_request_reply() -> (reply: Reply)
    ensures
        reply@ == bad_request(),
{
    Reply { status: 400, kind: BodyKind::PlainText, body: "Bad Request".to_owned() }
}

/// The reply to a request for an unknown host.
pub fn not_found_reply() -> (reply: Reply)
    ensures
        reply@ == not_found(),
{
    Reply { status: 404, kind: BodyKind::PlainText, body: "Not Found".to_owned() }
}

/// The reply where the upstream failed.
pub fn bad_gateway_reply() -> (reply: Reply)
    ensures
        reply@ == bad_gateway(),
{
    Reply { status: 502, kind: BodyKind::PlainText, body: "Bad Gateway".to_owned() }
}

/// Tests whether `path` is the root path.
pub fn is_root(path: &str) -> (b: bool)
    ensures
        b == (path@ == root_path()),
{
    proof {
        reveal_strlit("/");
    }
    if path.unicode_len() == 1 {
        let first = path.get_char(0);
        assert(first == '/' ==> path@ =~= root_path());
        first == '/'
    } else {
        false
    }
}

/// The address that a request for `path` and `query` is forwarded to.
pub fn outbound_uri(upstream: &str, path: &str, query: &Option<String>) -> (uri: String)
    ensures
        uri@ == target(upstream@, path@, query_view(*query)),
{
    let mut uri = upstream.to_owned();
    uri.append(path);
    match query {
        Some(q) => {
            uri.append("?");
            uri.append(q.as_str());
        },
        None => {},
    }
    uri
}

/// Decides what is to be done with `request`.
///
/// A request that is forwarded keeps its method and its body.
pub fn handle<B>(request: InboundRequest<B>, table: &RoutingTable) -> (action: Action<B>)
    ensures
        action.decision() == route(
            request.host@,
            request.path@,
            query_view(request.query),
            table@,
        ),
        action matches Action::Forward(out) ==> out.method@ == request.method@ && out.body
            == request.body,
{
    let InboundRequest { method, path, query, host, body } = request;
    match host {
        HostHeader::Unreadable => Action::Respond(bad_request_reply()),
        HostHeader::Absent => Action::Respond(welcome_reply()),
        HostHeader::Named(name) => {
            if name.as_str().is_empty() || is_root(path.as_str()) {
                Action::Respond(welcome_reply())
            } else {
                match table.lookup(name.as_str()) {
                    Some(entry) => {
                        let uri = outbound_uri(entry.upstream.as_str(), path.as_str(), &query);
                        Action::Forward(OutboundRequest { method, uri, body })
                    },
                    None => Action::Respond(not_found_reply()),
                }
            }
        },
    }
}

/// Decides how an exchange ends once the upstream was asked: its response
/// passes through as it came; any failure becomes the 502 reply.
pub fn conclude<R, E>(outcome: Result<R, E>) -> (done: Completion<R>)
    ensures
        match outcome {
            Ok(response) => done == Completion::Upstream(response),
            Err(_) => done matches Completion::Local(reply) && reply@ == bad_gateway(),
        },
{
    match outcome {
        Ok(response) => Completion::Upstream(response),
        Err(_) => Completion::Local(bad_gateway_reply()),
    }
}

/// A request without a host, or with an empty one, gets the welcome page,
/// whatever it asks for.
pub proof fn lemma_no_host_is_welcomed(
    host: HostView,
    path: Seq<char>,
    query: Option<Seq<char>>,
    table: Map<Seq<char>, EntryView>,
)
    requires
        host is Absent || host == HostView::Named(Seq::empty()),
    ensures
        route(host, path, query, table) == Route::Reply(welcome()),
        welcome().status == 200,
{
}

/// A request for the root path gets the welcome page, also where the table
/// knows its host.
pub proof fn lemma_root_path_is_welcomed(
    name: Seq<char>,
    query: Option<Seq<char>>,
    table: Map<Seq<char>, EntryView>,
)
    ensures
        route(HostView::Named(name), root_path(), query, table) == Route::Reply(welcome()),
        route(HostView::Absent, root_path(), query, table) == Route::Reply(welcome()),
        welcome().status == 200,
{
}

/// A request for another path than the root, with a host that the table
/// knows, goes to the upstream of that host's entry, followed by path and
/// query.
pub proof fn lemma_known_host_is_forwarded(
    name: Seq<char>,
    path: Seq<char>,
    query: Option<Seq<char>>,
    table: Map<Seq<char>, EntryView>,
)
    requires
        name.len() > 0,
        path != root_path(),
        table.contains_key(name),
    ensures
        route(HostView::Named(name), path, query, table) == Route::Forward(
            target(table[name].upstream, path, query),
        ),
{
}

/// A request for another path than the root, with a host that the table
/// does not know, gets the 404 reply.
pub proof fn lemma_unknown_host_is_not_found(
    name: Seq<char>,
    path: Seq<char>,
    query: Option<Seq<char>>,
    table: Map<Seq<char>, EntryView>,
)
    requires
        name.len() > 0,
        path != root_path(),
        !table.contains_key(name),
    ensures
        route(HostView::Named(name), path, query, table) == Route::Reply(not_found()),
        not_found().status == 404,
        not_found().kind == BodyKind::PlainText,
{
}

} // verus!
