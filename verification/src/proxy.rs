//! One exchange: a request arrives, is sent on, and is answered.
//!
//! The proxy decides; whoever runs it moves the bytes. Each decision takes the
//! stage that the exchange is in and what happened since, and gives the next stage
//! and what to do.

use crate::config::Span;
use crate::headers::{self, forward_headers, return_headers, Header, ReceivedHeader};
use crate::route::{self, find_route, Route};
use vstd::prelude::*;

verus! {

/// The request line and the header fields of a request that arrived.
pub struct RequestHead {
    pub method: String,
    pub path: String,
    pub query: Option<String>,
    pub headers: Vec<Header>,
}

/// A request to send to an upstream service. There is no body to set where the
/// one that arrived is empty.
pub struct Outgoing {
    pub method: String,
    pub uri: String,
    pub headers: Vec<Header>,
    pub body: Option<Vec<u8>>,
}

/// An answer to the client.
pub struct Reply {
    pub status: u16,
    pub headers: Vec<Header>,
    pub body: Vec<u8>,
}

/// How far an exchange has come.
pub enum Stage {
    Arrived,
    CollectingBody { outgoing: Outgoing },
    AwaitingReply,
    CollectingReply { status: u16, headers: Vec<Header> },
    Answered,
}

/// What happened.
pub enum Event {
    /// A request arrived.
    Request(RequestHead),
    /// The body of the request was collected.
    Body(Vec<u8>),
    /// The body of the request exceeds the limit, or could not be read.
    BodyRefused,
    /// The upstream service replied.
    Reply { status: u16, headers: Vec<ReceivedHeader> },
    /// The request could not be sent, or no reply came.
    SendFailed,
    /// The body of the reply was collected.
    ReplyBody(Vec<u8>),
    /// The body of the reply could not be read.
    ReplyBodyFailed,
}

/// What to do.
pub enum Action {
    /// Collect the body of the request, up to `limit` bytes.
    CollectBody { limit: usize },
    /// Send a request to the upstream service.
    Send(Outgoing),
    /// Collect the body of the reply.
    CollectReply,
    /// Answer the client; the exchange is over.
    Answer(Reply),
}

pub ghost struct RequestView {
    pub method: Seq<char>,
    pub path: Seq<char>,
    pub query: Option<Seq<char>>,
    pub headers: Seq<headers::HeaderView>,
}

pub ghost struct OutgoingView {
    pub method: Seq<char>,
    pub uri: Seq<char>,
    pub headers: Seq<headers::HeaderView>,
    pub body: Option<Seq<u8>>,
}

pub ghost struct ReplyView {
    pub status: u16,
    pub headers: Seq<headers::HeaderView>,
    pub body: Seq<u8>,
}

pub ghost enum StageView {
    Arrived,
    CollectingBody { outgoing: OutgoingView },
    AwaitingReply,
    CollectingReply { status: u16, headers: Seq<headers::HeaderView> },
    Answered,
}

pub ghost enum EventView {
    Request(RequestView),
    Body(Seq<u8>),
    BodyRefused,
    Reply { status: u16, headers: Seq<headers::ReceivedHeaderView> },
    SendFailed,
    ReplyBody(Seq<u8>),
    ReplyBodyFailed,
}

pub ghost enum ActionView {
    CollectBody { limit: usize },
    Send(OutgoingView),
    CollectReply,
    Answer(ReplyView),
}

impl View for RequestHead {
    type V = RequestView;

    open spec fn view(&self) -> RequestView {
        RequestView {
            method: self.method@,
            path: self.path@,
            query: match self.query {
                Some(query) => Some(query@),
                None => None,
            },
            headers: headers::header_views(self.headers@),
        }
    }
}

impl View for Outgoing {
    type V = OutgoingView;

    open spec fn view(&self) -> OutgoingView {
        OutgoingView {
            method: self.method@,
            uri: self.uri@,
            headers: headers::header_views(self.headers@),
            body: match self.body {
                Some(body) => Some(body@),
                None => None,
            },
        }
    }
}

impl View for Reply {
    type V = ReplyView;

    open spec fn view(&self) -> ReplyView {
        ReplyView {
            status: self.status,
            headers: headers::header_views(self.headers@),
            body: self.body@,
        }
    }
}

impl View for Stage {
    type V = StageView;

    open spec fn view(&self) -> StageView {
        match self {
            Stage::Arrived => StageView::Arrived,
            Stage::CollectingBody { outgoing } => StageView::CollectingBody {
                outgoing: outgoing@,
            },
            Stage::AwaitingReply => StageView::AwaitingReply,
            Stage::CollectingReply { status, headers } => StageView::CollectingReply {
                status: *status,
                headers: headers::header_views(headers@),
            },
            Stage::Answered => StageView::Answered,
        }
    }
}

impl View for Event {
    type V = EventView;

    open spec fn view(&self) -> EventView {
        match self {
            Event::Request(head) => EventView::Request(head@),
            Event::Body(body) => EventView::Body(body@),
            Event::BodyRefused => EventView::BodyRefused,
            Event::Reply { status, headers } => EventView::Reply {
                status: *status,
                headers: headers::received_views(headers@),
            },
            Event::SendFailed => EventView::SendFailed,
            Event::ReplyBody(body) => EventView::ReplyBody(body@),
            Event::ReplyBodyFailed => EventView::ReplyBodyFailed,
        }
    }
}

impl View for Action {
    type V = ActionView;

    open spec fn view(&self) -> ActionView {
        match self {
            Action::CollectBody { limit } => ActionView::CollectBody { limit: *limit },
            Action::Send(outgoing) => ActionView::Send(outgoing@),
            Action::CollectReply => ActionView::CollectReply,
            Action::Answer(reply) => ActionView::Answer(reply@),
        }
    }
}

impl StageView {
    /// What can happen in this stage.
    pub open spec fn expects(self, event: EventView) -> bool {
        match self {
            StageView::Arrived => event is Request,
            StageView::CollectingBody { .. } => event is Body || event is BodyRefused,
            StageView::AwaitingReply => event is Reply || event is SendFailed,
            StageView::CollectingReply { .. } => event is ReplyBody || event is ReplyBodyFailed,
            StageView::Answered => false,
        }
    }

    /// How many steps the exchange can still take at most.
    pub open spec fn steps_left(self) -> nat {
        match self {
            StageView::Arrived => 4,
            StageView::CollectingBody { .. } => 3,
            StageView::AwaitingReply => 2,
            StageView::CollectingReply { .. } => 1,
            StageView::Answered => 0,
        }
    }
}

/// No route is for the request.
pub const NOT_FOUND: u16 = 404;

/// The body of the request is too large.
pub const PAYLOAD_TOO_LARGE: u16 = 413;

/// The upstream service failed.
pub const BAD_GATEWAY: u16 = 502;

/// An answer that the proxy gives by itself: a status and a message.
pub open spec fn refusal(status: u16, message: Seq<char>) -> ReplyView {
    ReplyView { status, headers: Seq::empty(), body: vstd::utf8::encode_utf8(message) }
}

/// The largest request body to accept, as far as it can be held in memory.
pub open spec fn body_limit(max_body_bytes: u64) -> usize {
    if max_body_bytes <= usize::MAX {
        max_body_bytes as usize
    } else {
        usize::MAX
    }
}

/// What the proxy is set up with.
pub ghost struct ProxyView {
    pub routes: Seq<route::RouteView>,
    pub max_body_bytes: u64,
}

/// The request to send on for one that takes `route`, before its body is known.
pub open spec fn outgoing(route: route::RouteView, head: RequestView) -> OutgoingView {
    OutgoingView {
        method: head.method,
        uri: route::forward_text(
            crate::uri::shown_uri(route.target)->Some_0,
            head.path,
            head.query,
        ),
        headers: headers::forwarded(head.headers),
        body: None,
    }
}

/// The request to send on, with the body that arrived.
pub open spec fn with_body(outgoing: OutgoingView, body: Seq<u8>) -> OutgoingView {
    OutgoingView {
        body: if body.len() == 0 {
            None
        } else {
            Some(body)
        },
        ..outgoing
    }
}

impl ProxyView {
    /// The next stage of an exchange, and what to do.
    pub open spec fn next(self, stage: StageView, event: EventView) -> (StageView, ActionView) {
        match (stage, event) {
            (StageView::Arrived, EventView::Request(head)) => match route::chosen(
                self.routes,
                head.path,
            ) {
                None => answer(refusal(NOT_FOUND, "pluh could not find that one for ya"@)),
                Some(i) => (
                    StageView::CollectingBody { outgoing: outgoing(self.routes[i], head) },
                    ActionView::CollectBody { limit: body_limit(self.max_body_bytes) },
                ),
            },
            (StageView::CollectingBody { outgoing }, EventView::Body(body)) => if body.len()
                <= self.max_body_bytes {
                (StageView::AwaitingReply, ActionView::Send(with_body(outgoing, body)))
            } else {
                answer(refusal(PAYLOAD_TOO_LARGE, "bro its a megabyte"@))
            },
            (StageView::CollectingBody { .. }, _) => answer(
                refusal(PAYLOAD_TOO_LARGE, "bro its a megabyte"@),
            ),
            (StageView::AwaitingReply, EventView::Reply { status, headers }) => (
                StageView::CollectingReply { status, headers: headers::returned(headers) },
                ActionView::CollectReply,
            ),
            (StageView::AwaitingReply, _) => answer(
                refusal(
                    BAD_GATEWAY,
                    "i tried to understand this server's response, but i could not for the life of me"@,
                ),
            ),
            (StageView::CollectingReply { status, headers }, EventView::ReplyBody(body)) => answer(
                ReplyView { status, headers, body },
            ),
            (_, _) => answer(refusal(BAD_GATEWAY, "Failed to read response from server"@)),
        }
    }
}

/// The exchange ends with `reply`.
pub open spec fn answer(reply: ReplyView) -> (StageView, ActionView) {
    (StageView::Answered, ActionView::Answer(reply))
}

/// A request that no route is for is answered with 404, and nothing is sent on.
pub proof fn law_unrouted_request_is_not_found(proxy: ProxyView, head: RequestView)
    requires
        forall|i: int|
            0 <= i < proxy.routes.len() ==> !(#[trigger] proxy.routes[i]).matches(head.path),
    ensures
        proxy.next(StageView::Arrived, EventView::Request(head)) == (
            StageView::Answered,
            ActionView::Answer(
                ReplyView {
                    status: 404,
                    headers: Seq::empty(),
                    body: vstd::utf8::encode_utf8("pluh could not find that one for ya"@),
                },
            ),
        ),
{
    let flags = route::matching(proxy.routes, head.path);
    flags.index_of_first_ensures(true);
    if flags.contains(true) {
        let i = choose|i: int| 0 <= i < flags.len() && flags[i] == true;
        assert(!proxy.routes[i].matches(head.path));
    }
}

/// Of several routes for a request, the first in the list takes it, and its target
/// is the one that the request is prepared for. The body is collected up to the
/// configured maximum, as far as a length can be that large.
pub proof fn law_first_route_wins(proxy: ProxyView, head: RequestView, i: int)
    requires
        0 <= i < proxy.routes.len(),
        proxy.routes[i].matches(head.path),
        forall|j: int| 0 <= j < i ==> !(#[trigger] proxy.routes[j]).matches(head.path),
    ensures
        proxy.next(StageView::Arrived, EventView::Request(head)) == (
            StageView::CollectingBody { outgoing: outgoing(proxy.routes[i], head) },
            ActionView::CollectBody { limit: body_limit(proxy.max_body_bytes) },
        ),
        ({
            let (stage, action) = proxy.next(StageView::Arrived, EventView::Request(head));
            &&& stage == StageView::CollectingBody {
                outgoing: OutgoingView {
                    method: head.method,
                    uri: route::forward_text(
                        crate::uri::shown_uri(proxy.routes[i].target)->Some_0,
                        head.path,
                        head.query,
                    ),
                    headers: headers::forwarded(head.headers),
                    body: None,
                },
            }
            &&& action is CollectBody
            &&& proxy.max_body_bytes <= usize::MAX ==> action->limit as int
                == proxy.max_body_bytes as int
            &&& proxy.max_body_bytes > usize::MAX ==> action->limit as int == usize::MAX as int
        }),
{
    let flags = route::matching(proxy.routes, head.path);
    flags.index_of_first_ensures(true);
    assert(flags[i]);
    assert(flags.contains(true));
    let first = flags.index_of_first(true)->Some_0;
    if first < i {
        assert(!proxy.routes[first].matches(head.path));
    }
}

/// A body that is refused or exceeds the configured maximum is answered with 413,
/// wherever the request would have gone, and nothing is sent on.
pub proof fn law_oversized_body_is_too_large(
    proxy: ProxyView,
    outgoing: OutgoingView,
    event: EventView,
)
    requires
        event is BodyRefused || (event matches EventView::Body(body) && body.len()
            > proxy.max_body_bytes),
    ensures
        proxy.next(StageView::CollectingBody { outgoing }, event) == (
            StageView::Answered,
            ActionView::Answer(
                ReplyView {
                    status: 413,
                    headers: Seq::empty(),
                    body: vstd::utf8::encode_utf8("bro its a megabyte"@),
                },
            ),
        ),
{
}

/// A body of up to the configured maximum, that length included, is sent on with the
/// request as it was prepared; an empty one is not set.
pub proof fn law_body_is_sent_on(proxy: ProxyView, outgoing: OutgoingView, body: Seq<u8>)
    requires
        body.len() <= proxy.max_body_bytes,
    ensures
        ({
            let (stage, action) = proxy.next(
                StageView::CollectingBody { outgoing },
                EventView::Body(body),
            );
            &&& stage == StageView::AwaitingReply
            &&& action is Send
            &&& action->Send_0.method == outgoing.method
            &&& action->Send_0.uri == outgoing.uri
            &&& action->Send_0.headers == outgoing.headers
            &&& body.len() > 0 ==> action->Send_0.body == Some(body)
            &&& body.len() == 0 ==> action->Send_0.body is None
        }),
{
}

/// The fields of a reply are kept as they are to be answered with, and its body is
/// collected; with the body, the client is answered.
pub proof fn law_reply_is_collected(
    proxy: ProxyView,
    status: u16,
    received: Seq<headers::ReceivedHeaderView>,
    fields: Seq<headers::HeaderView>,
    body: Seq<u8>,
)
    ensures
        proxy.next(StageView::AwaitingReply, EventView::Reply { status, headers: received }) == (
            StageView::CollectingReply { status, headers: headers::returned(received) },
            ActionView::CollectReply,
        ),
        proxy.next(
            StageView::CollectingReply { status, headers: fields },
            EventView::ReplyBody(body),
        ) == (
            StageView::Answered,
            ActionView::Answer(ReplyView { status, headers: fields, body }),
        ),
{
}

/// An upstream service that gives no reply, or no body, is answered for with 502.
pub proof fn law_failed_service_is_bad_gateway(
    proxy: ProxyView,
    status: u16,
    headers: Seq<headers::HeaderView>,
)
    ensures
        proxy.next(StageView::AwaitingReply, EventView::SendFailed) == (
            StageView::Answered,
            ActionView::Answer(
                ReplyView {
                    status: 502,
                    headers: Seq::empty(),
                    body: vstd::utf8::encode_utf8(
                        "i tried to understand this server's response, but i could not for the life of me"@,
                    ),
                },
            ),
        ),
        proxy.next(StageView::CollectingReply { status, headers }, EventView::ReplyBodyFailed) == (
            StageView::Answered,
            ActionView::Answer(
                ReplyView {
                    status: 502,
                    headers: Seq::empty(),
                    body: vstd::utf8::encode_utf8("Failed to read response from server"@),
                },
            ),
        ),
{
}

/// Where nothing fails, the service gets the request's method, its path under the
/// target, its fields but `host` and `content-length`, and its body; and the client
/// gets the reply's status, its fields and its body.
pub proof fn law_exchange_relays(
    proxy: ProxyView,
    head: RequestView,
    body: Seq<u8>,
    status: u16,
    headers: Seq<headers::ReceivedHeaderView>,
    reply_body: Seq<u8>,
)
    requires
        route::chosen(proxy.routes, head.path) is Some,
        body.len() <= proxy.max_body_bytes,
    ensures
        ({
            let route = proxy.routes[route::chosen(proxy.routes, head.path)->Some_0];
            let (collecting, _) = proxy.next(StageView::Arrived, EventView::Request(head));
            let (waiting, sent) = proxy.next(collecting, EventView::Body(body));
            let (reading, _) = proxy.next(waiting, EventView::Reply { status, headers });
            let (over, answered) = proxy.next(reading, EventView::ReplyBody(reply_body));
            &&& sent == ActionView::Send(
                OutgoingView {
                    method: head.method,
                    uri: route::forward_text(
                        crate::uri::shown_uri(route.target)->Some_0,
                        head.path,
                        head.query,
                    ),
                    headers: headers::forwarded(head.headers),
                    body: if body.len() == 0 {
                        None
                    } else {
                        Some(body)
                    },
                },
            )
            &&& over == StageView::Answered
            &&& answered == ActionView::Answer(
                ReplyView { status, headers: headers::returned(headers), body: reply_body },
            )
        }),
{
}

/// The client gets the reply of the service: its status, all its fields, repeated names
/// included, and its body.
pub proof fn law_reply_goes_back_whole(
    proxy: ProxyView,
    status: u16,
    fields: Seq<headers::HeaderView>,
    body: Seq<u8>,
)
    ensures
        ({
            let reply = EventView::Reply { status, headers: headers::taken_apart(fields) };
            let (reading, _) = proxy.next(StageView::AwaitingReply, reply);
            proxy.next(reading, EventView::ReplyBody(body)) == (
                StageView::Answered,
                ActionView::Answer(ReplyView { status, headers: fields, body }),
            )
        }),
{
    headers::law_fields_come_back(fields);
}

/// What can happen: at first a request; while its body is collected, the body or that it
/// is refused; while a reply is awaited, the reply or that none comes; while its body is
/// collected, that body or that it fails; and nothing once the client is answered.
pub proof fn law_what_can_happen(stage: StageView, event: EventView)
    ensures
        stage is Arrived ==> (stage.expects(event) <==> event is Request),
        stage is CollectingBody ==> (stage.expects(event) <==> event is Body
            || event is BodyRefused),
        stage is AwaitingReply ==> (stage.expects(event) <==> event is Reply
            || event is SendFailed),
        stage is CollectingReply ==> (stage.expects(event) <==> event is ReplyBody
            || event is ReplyBodyFailed),
        stage is Answered ==> !stage.expects(event),
{
}

/// Each step brings an exchange closer to its end, and the client is answered in
/// the step that ends it and in no other.
pub proof fn law_step_leads_to_one_answer(proxy: ProxyView, stage: StageView, event: EventView)
    requires
        stage.expects(event),
    ensures
        proxy.next(stage, event).0.steps_left() < stage.steps_left(),
        proxy.next(stage, event).1 is Answer <==> proxy.next(stage, event).0 is Answered,
{
}

impl ProxyView {
    /// The events can happen in this order from `stage` on.
    pub open spec fn can_happen(self, stage: StageView, events: Seq<EventView>) -> bool
        decreases events.len(),
    {
        events.len() > 0 ==> stage.expects(events[0]) && self.can_happen(
            self.next(stage, events[0]).0,
            events.skip(1),
        )
    }

    /// The stage that the events lead to.
    pub open spec fn after(self, stage: StageView, events: Seq<EventView>) -> StageView
        decreases events.len(),
    {
        if events.len() == 0 {
            stage
        } else {
            self.after(self.next(stage, events[0]).0, events.skip(1))
        }
    }
}

/// Events happen one after another, each in the stage that the one before it led to.
pub proof fn law_events_one_by_one(
    proxy: ProxyView,
    stage: StageView,
    event: EventView,
    events: Seq<EventView>,
)
    ensures
        proxy.can_happen(stage, Seq::empty()),
        proxy.after(stage, Seq::empty()) == stage,
        proxy.can_happen(stage, seq![event] + events) <==> stage.expects(event)
            && proxy.can_happen(proxy.next(stage, event).0, events),
        proxy.after(stage, seq![event] + events) == proxy.after(proxy.next(stage, event).0, events),
{
    assert((seq![event] + events).skip(1) =~= events);
}

/// No exchange takes more than four steps, and nothing happens in it once the client
/// is answered.
pub proof fn law_exchange_ends(proxy: ProxyView, stage: StageView, events: Seq<EventView>)
    requires
        proxy.can_happen(stage, events),
    ensures
        events.len() + proxy.after(stage, events).steps_left() <= stage.steps_left(),
        events.len() <= 4,
        stage is Answered ==> events.len() == 0,
    decreases events.len(),
{
    if events.len() > 0 {
        law_step_leads_to_one_answer(proxy, stage, events[0]);
        law_exchange_ends(proxy, proxy.next(stage, events[0]).0, events.skip(1));
    }
}

/// The proxy's routes and limits.
pub struct Proxy {
    pub routes: Vec<Route>,
    pub max_body_bytes: u64,
    pub gateway_expectation: Span,
    pub gateway_timeout: Span,
}

impl View for Proxy {
    type V = ProxyView;

    open spec fn view(&self) -> ProxyView {
        ProxyView {
            routes: route::route_views(self.routes@),
            max_body_bytes: self.max_body_bytes,
        }
    }
}

/// A request stands for its method, path, query and fields.
pub proof fn law_request_stands_for_itself(head: RequestHead)
    ensures
        head@.method == head.method@,
        head@.path == head.path@,
        head.query is None ==> head@.query is None,
        head.query is Some ==> head@.query == Some(head.query->Some_0@),
        head@.headers == headers::header_views(head.headers@),
{
}

/// A request to send stands for its method, URI, fields and body.
pub proof fn law_outgoing_stands_for_itself(outgoing: Outgoing)
    ensures
        outgoing@.method == outgoing.method@,
        outgoing@.uri == outgoing.uri@,
        outgoing@.headers == headers::header_views(outgoing.headers@),
        outgoing.body is None ==> outgoing@.body is None,
        outgoing.body is Some ==> outgoing@.body == Some(outgoing.body->Some_0@),
{
}

/// An answer stands for its status, fields and body.
pub proof fn law_reply_stands_for_itself(reply: Reply)
    ensures
        reply@.status == reply.status,
        reply@.headers == headers::header_views(reply.headers@),
        reply@.body == reply.body@,
{
}

/// A stage stands for itself, with what it carries.
pub proof fn law_stage_stands_for_itself(stage: Stage)
    ensures
        match stage {
            Stage::Arrived => stage@ is Arrived,
            Stage::CollectingBody { outgoing } => stage@ is CollectingBody && stage@->outgoing
                == outgoing@,
            Stage::AwaitingReply => stage@ is AwaitingReply,
            Stage::CollectingReply { status, headers } => stage@ is CollectingReply
                && stage@->status == status && stage@->headers == headers::header_views(headers@),
            Stage::Answered => stage@ is Answered,
        },
{
}

/// An event stands for itself, with what it brings.
pub proof fn law_event_stands_for_itself(event: Event)
    ensures
        match event {
            Event::Request(head) => event@ is Request && event@->Request_0 == head@,
            Event::Body(body) => event@ is Body && event@->Body_0 == body@,
            Event::BodyRefused => event@ is BodyRefused,
            Event::Reply { status, headers } => event@ is Reply && event@->status == status
                && event@->headers == headers::received_views(headers@),
            Event::SendFailed => event@ is SendFailed,
            Event::ReplyBody(body) => event@ is ReplyBody && event@->ReplyBody_0 == body@,
            Event::ReplyBodyFailed => event@ is ReplyBodyFailed,
        },
{
}

/// An action stands for itself, with what it takes.
pub proof fn law_action_stands_for_itself(action: Action)
    ensures
        match action {
            Action::CollectBody { limit } => action@ is CollectBody && action@->limit == limit,
            Action::Send(outgoing) => action@ is Send && action@->Send_0 == outgoing@,
            Action::CollectReply => action@ is CollectReply,
            Action::Answer(reply) => action@ is Answer && action@->Answer_0 == reply@,
        },
{
}

/// The proxy stands for its routes, in order, and its limit.
pub proof fn law_proxy_stands_for_itself(proxy: Proxy)
    ensures
        proxy@.max_body_bytes == proxy.max_body_bytes,
        proxy@.routes.len() == proxy.routes@.len(),
        forall|i: int|
            0 <= i < proxy.routes@.len() ==> #[trigger] proxy@.routes[i] == proxy.routes@[i]@,
{
}

impl Stage {
    /// Whether `event` can happen in this stage.
    pub fn accepts(&self, event: &Event) -> (b: bool)
        ensures
            b == self@.expects(event@),
    {
        match (self, event) {
            (Stage::Arrived, Event::Request(_)) => true,
            (Stage::CollectingBody { .. }, Event::Body(_)) => true,
            (Stage::CollectingBody { .. }, Event::BodyRefused) => true,
            (Stage::AwaitingReply, Event::Reply { .. }) => true,
            (Stage::AwaitingReply, Event::SendFailed) => true,
            (Stage::CollectingReply { .. }, Event::ReplyBody(_)) => true,
            (Stage::CollectingReply { .. }, Event::ReplyBodyFailed) => true,
            _ => false,
        }
    }
}

fn refuse(status: u16, message: &str) -> (reply: Reply)
    ensures
        reply@ == refusal(status, message@),
        reply.status == status,
        reply.headers@.len() == 0,
        reply.body@ == vstd::utf8::encode_utf8(message@),
{
    let reply = Reply { status, headers: Vec::new(), body: message.as_bytes_vec() };
    proof {
        assert(headers::header_views(reply.headers@) =~= Seq::empty());
    }
    reply
}

impl Proxy {
    /// The largest request body to accept.
    pub fn body_limit(&self) -> (limit: usize)
        ensures
            limit == body_limit(self@.max_body_bytes),
            self.max_body_bytes <= usize::MAX ==> limit as int == self.max_body_bytes as int,
            self.max_body_bytes > usize::MAX ==> limit == usize::MAX,
    {
        if self.max_body_bytes <= usize::MAX as u64 {
            self.max_body_bytes as usize
        } else {
            usize::MAX
        }
    }

    /// Decides what to do about a request: refuse it, or collect its body. Patterns that
    /// are paths are matched literally, and the base of a service's address is followed
    /// by the path and the query.
    pub fn receive(&self, head: RequestHead) -> (step: (Stage, Action))
        ensures
            (step.0@, step.1@) == self@.next(StageView::Arrived, EventView::Request(head@)),
            route::path_patterns(self@.routes) && !head@.path.contains('#') ==> route::chosen(
                self@.routes,
                head@.path,
            ) == route::matching_literally(self@.routes, head@.path).index_of_first(true),
            ({
                let route = self@.routes[route::chosen(self@.routes, head@.path)->Some_0];
                route::chosen(self@.routes, head@.path) is Some && crate::uri::address(
                    route.target,
                ) && route::rooted(head@.path) ==> step.0@ is CollectingBody
                    && step.0@->outgoing.uri == route::appended(
                    route::base_of(route.target),
                    head@.path,
                    head@.query,
                )
            }),
            step.1 is CollectBody || step.1 is Answer,
            step.1 is CollectBody ==> step.0 is CollectingBody && (self.max_body_bytes
                <= usize::MAX ==> step.1->limit as int == self.max_body_bytes as int) && (
            self.max_body_bytes > usize::MAX ==> step.1->limit == usize::MAX),
            step.1 is Answer ==> step.0 is Answered && step.1->Answer_0.status == 404
                && step.1->Answer_0.headers@.len() == 0 && step.1->Answer_0.body@
                == vstd::utf8::encode_utf8("pluh could not find that one for ya"@),
            (forall|j: int|
                0 <= j < self.routes@.len() ==> crate::uri::path_alone(
                    (#[trigger] self.routes@[j]).pattern@,
                )) && !head.path@.contains('#') ==> (step.1 is CollectBody <==> exists|j: int|
                0 <= j < self.routes@.len() && if (#[trigger] self.routes@[j]).wildcard {
                    self.routes@[j].pattern@.is_prefix_of(head.path@)
                } else {
                    self.routes@[j].pattern@ == head.path@
                }),
    {
        match find_route(&self.routes, head.path.as_str()) {
            None => (
                Stage::Answered,
                Action::Answer(refuse(NOT_FOUND, "pluh could not find that one for ya")),
            ),
            Some(i) => {
                let query = match &head.query {
                    Some(query) => Some(query.as_str()),
                    None => None,
                };
                proof {
                    assert(self@.routes[i as int] == self.routes@[i as int]@);
                }
                let uri = self.routes[i].forward(head.path.as_str(), query);
                let outgoing = Outgoing {
                    method: head.method,
                    uri,
                    headers: forward_headers(head.headers),
                    body: None,
                };
                (
                    Stage::CollectingBody { outgoing },
                    Action::CollectBody { limit: self.body_limit() },
                )
            },
        }
    }

    /// Takes an exchange one step further.
    pub fn step(&self, stage: Stage, event: Event) -> (step: (Stage, Action))
        requires
            stage@.expects(event@),
        ensures
            (step.0@, step.1@) == self@.next(stage@, event@),
            match (stage, event) {
                (Stage::Arrived, Event::Request(_)) => {
                    &&& step.1 is CollectBody || step.1 is Answer
                    &&& step.1 is CollectBody && self.max_body_bytes <= usize::MAX
                        ==> step.1->limit as int == self.max_body_bytes as int
                    &&& step.1 is Answer ==> step.1->Answer_0.status == 404
                },
                (Stage::CollectingBody { outgoing }, Event::Body(body)) => if body@.len()
                    <= self.max_body_bytes {
                    &&& step.0 is AwaitingReply
                    &&& step.1 is Send
                    &&& step.1->Send_0.method == outgoing.method
                    &&& step.1->Send_0.uri == outgoing.uri
                    &&& step.1->Send_0.headers == outgoing.headers
                    &&& body@.len() == 0 ==> step.1->Send_0.body is None
                    &&& body@.len() > 0 ==> step.1->Send_0.body == Some(body)
                } else {
                    step.0 is Answered && step.1 is Answer && step.1->Answer_0.status == 413
                },
                (Stage::CollectingBody { .. }, Event::BodyRefused) => step.0 is Answered
                    && step.1 is Answer && step.1->Answer_0.status == 413,
                (Stage::AwaitingReply, Event::Reply { status, .. }) => step.0 is CollectingReply
                    && step.0->status == status && step.1 is CollectReply,
                (Stage::AwaitingReply, Event::SendFailed) => step.0 is Answered && step.1 is Answer
                    && step.1->Answer_0.status == 502,
                (Stage::CollectingReply { status, headers }, Event::ReplyBody(body)) => {
                    &&& step.0 is Answered
                    &&& step.1 is Answer
                    &&& step.1->Answer_0.status == status
                    &&& step.1->Answer_0.headers == headers
                    &&& step.1->Answer_0.body == body
                },
                (Stage::CollectingReply { .. }, Event::ReplyBodyFailed) => step.0 is Answered
                    && step.1 is Answer && step.1->Answer_0.status == 502,
                _ => true,
            },
    {
        match (stage, event) {
            (Stage::Arrived, Event::Request(head)) => self.receive(head),
            (Stage::CollectingBody { outgoing }, Event::Body(body)) => {
                if body.len() as u64 > self.max_body_bytes {
                    return (
                        Stage::Answered,
                        Action::Answer(refuse(PAYLOAD_TOO_LARGE, "bro its a megabyte")),
                    );
                }
                let outgoing = Outgoing {
                    method: outgoing.method,
                    uri: outgoing.uri,
                    headers: outgoing.headers,
                    body: if body.len() == 0 {
                        None
                    } else {
                        Some(body)
                    },
                };
                (Stage::AwaitingReply, Action::Send(outgoing))
            },
            (Stage::CollectingBody { .. }, _) => (
                Stage::Answered,
                Action::Answer(refuse(PAYLOAD_TOO_LARGE, "bro its a megabyte")),
            ),
            (Stage::AwaitingReply, Event::Reply { status, headers }) => (
                Stage::CollectingReply { status, headers: return_headers(headers) },
                Action::CollectReply,
            ),
            (Stage::AwaitingReply, _) => (
                Stage::Answered,
                Action::Answer(
                    refuse(
                        BAD_GATEWAY,
                        "i tried to understand this server's response, but i could not for the life of me",
                    ),
                ),
            ),
            (Stage::CollectingReply { status, headers }, Event::ReplyBody(body)) => (
                Stage::Answered,
                Action::Answer(Reply { status, headers, body }),
            ),
            (_, _) => (
                Stage::Answered,
                Action::Answer(refuse(BAD_GATEWAY, "Failed to read response from server")),
            ),
        }
    }
}

} // verus!
