//! The API gateway's request path: the chain of interceptors, the service a
//! path names, and the answer or the upstream address that follows.

use crate::headers::{first_value, header_fields, header_get};
use crate::lba::{nth_ticket, pick_spec, LoadBalancerAlgorithm, RoundRobinCounter};
use crate::proxy::{is_visible, text_of, visible_text, Fields};
use crate::register::RegisterError;
use crate::service::Endpoint;
use crate::text::{
    append, chars_of, lemma_split_joined, lemma_split_none, lemma_split_pieces, opt_text, split,
    split_chars, string_of, views,
};
use hyper::header::{HeaderMap, HeaderValue};
use vstd::prelude::*;
use vstd::string::StringExecFns;

verus! {

/// What an interceptor decides for a request.
#[derive(Debug, Clone, Copy, PartialEq, Eq, Structural)]
pub enum IntercepterType {
    /// End the chain; the gateway's own handler answers.
    SelfHandle,
    /// Leave the chain and route the request.
    Redirect,
    /// Answer 401.
    NotAuthorized,
    /// Answer 403.
    Forbidden,
    /// Answer with the response that the interceptor wrote.
    Interrupt,
    /// Go on with the next interceptor.
    Next,
}

/// An answer that the gateway gives by itself.
#[derive(Debug, Clone, PartialEq, Eq)]
pub struct Reply {
    pub status: u16,
    pub body: String,
}

/// An answer as a mathematical value.
pub struct ReplyView {
    pub status: int,
    pub body: Seq<char>,
}

impl View for Reply {
    type V = ReplyView;

    open spec fn view(&self) -> ReplyView {
        ReplyView { status: self.status as int, body: self.body@ }
    }
}

/// What follows the verdict of an interceptor.
#[derive(Debug, Clone, PartialEq, Eq)]
pub enum ChainStep {
    /// Run the interceptor at this index.
    Run(usize),
    /// Answer with the gateway's own handler.
    SelfHandle,
    /// Answer with the response that the interceptor wrote.
    Written,
    /// Give this answer.
    Answer(Reply),
    /// The chain is done: route the request.
    Route,
}

/// What follows the verdict of an interceptor, as a mathematical value.
pub enum ChainStepView {
    Run(int),
    SelfHandle,
    Written,
    Answer(ReplyView),
    Route,
}

impl View for ChainStep {
    type V = ChainStepView;

    open spec fn view(&self) -> ChainStepView {
        match self {
            ChainStep::Run(i) => ChainStepView::Run(*i as int),
            ChainStep::SelfHandle => ChainStepView::SelfHandle,
            ChainStep::Written => ChainStepView::Written,
            ChainStep::Answer(reply) => ChainStepView::Answer(reply@),
            ChainStep::Route => ChainStepView::Route,
        }
    }
}

/// Where routing sends a request.
#[derive(Debug, Clone, PartialEq, Eq)]
pub enum Route {
    /// The landing page.
    Landing,
    /// This answer.
    Answer(Reply),
    /// The registry: look the service up, for the pinned address if there
    /// is one.
    Lookup { service: String, strict: Option<String> },
}

/// Where routing sends a request, as a mathematical value.
pub enum RouteView {
    Landing,
    Answer(ReplyView),
    Lookup { service: Seq<char>, strict: Option<Seq<char>> },
}

impl View for Route {
    type V = RouteView;

    open spec fn view(&self) -> RouteView {
        match self {
            Route::Landing => RouteView::Landing,
            Route::Answer(reply) => RouteView::Answer(reply@),
            Route::Lookup { service, strict } => RouteView::Lookup {
                service: service@,
                strict: match strict {
                    Some(s) => Some(s@),
                    None => None,
                },
            },
        }
    }
}

/// The step that starts the chain of `count` interceptors.
pub open spec fn first_step(count: nat) -> ChainStepView {
    if count == 0 {
        ChainStepView::Route
    } else {
        ChainStepView::Run(0)
    }
}

/// The step after the interceptor at `index`, of `count`, gave `verdict`.
pub open spec fn step_after(index: nat, count: nat, verdict: IntercepterType) -> ChainStepView {
    match verdict {
        IntercepterType::SelfHandle => ChainStepView::SelfHandle,
        IntercepterType::Redirect => ChainStepView::Route,
        IntercepterType::NotAuthorized => ChainStepView::Answer(
            ReplyView { status: 401, body: Seq::empty() },
        ),
        IntercepterType::Forbidden => ChainStepView::Answer(
            ReplyView { status: 403, body: Seq::empty() },
        ),
        IntercepterType::Interrupt => ChainStepView::Written,
        IntercepterType::Next => if index + 1 < count {
            ChainStepView::Run(index as int + 1)
        } else {
            ChainStepView::Route
        },
    }
}

/// The logical service that a path names: its first two segments, each
/// after a slash. A path with fewer than two segments names none, which is
/// the empty text.
pub open spec fn service_of(path: Seq<char>) -> Seq<char> {
    let parts = split(path, '/');
    if parts.len() < 3 {
        Seq::empty()
    } else {
        seq!['/'] + parts[1] + seq!['/'] + parts[2]
    }
}

/// The address that a `strict` field pins: the text of its first value, and
/// the empty text where the value is not text.
pub open spec fn pinned_of(value: Seq<u8>) -> Seq<char> {
    if is_visible(value) {
        text_of(value)
    } else {
        Seq::empty()
    }
}

/// Where a request with the given path and fields is routed.
pub open spec fn route_of(path: Seq<char>, fields: Fields) -> RouteView {
    if path.len() == 0 || path == seq!['/'] {
        RouteView::Landing
    } else if service_of(path).len() == 0 {
        RouteView::Answer(ReplyView { status: 503, body: "service unavailable or not found"@ })
    } else {
        match first_value(fields, "strict"@) {
            Some(value) => if pinned_of(value).len() == 0 {
                RouteView::Answer(ReplyView { status: 400, body: "strict address is empty"@ })
            } else {
                RouteView::Lookup { service: service_of(path), strict: Some(pinned_of(value)) }
            },
            None => RouteView::Lookup { service: service_of(path), strict: None },
        }
    }
}

/// The answer for a service that is not known, or has no address to go to.
pub open spec fn not_found(service: Seq<char>) -> ReplyView {
    ReplyView { status: 503, body: service + " not found"@ }
}

/// The upstream URL for an address.
pub open spec fn upstream_of(address: Seq<char>) -> Seq<char> {
    "http://"@ + address
}

/// The landing page of the gateway.
pub fn default_response() -> (page: &'static str)
    ensures
        page@ == landing_page(),
{
    "\n<html>\n<head>\n<style type=text/css>\n</style>\n</head>\n<body>\n<p> this page is crossgate api gateway.</p>\n<br><br> \n</body>\n</html>\n"
}

/// The text of the landing page.
pub open spec fn landing_page() -> Seq<char> {
    "\n<html>\n<head>\n<style type=text/css>\n</style>\n</head>\n<body>\n<p> this page is crossgate api gateway.</p>\n<br><br> \n</body>\n</html>\n"@
}

/// An answer without a body.
fn bare(status: u16) -> (r: Reply)
    ensures
        r@ == (ReplyView { status: status as int, body: Seq::empty() }),
{
    Reply { status, body: String::new() }
}

/// The step that starts the chain of `count` interceptors.
pub fn begin_chain(count: usize) -> (r: ChainStep)
    ensures
        r@ == first_step(count as nat),
{
    if count == 0 {
        ChainStep::Route
    } else {
        ChainStep::Run(0)
    }
}

/// The step after the interceptor at `index`, of `count`, gave `verdict`.
pub fn next_in_chain(index: usize, count: usize, verdict: IntercepterType) -> (r: ChainStep)
    requires
        index < count,
    ensures
        r@ == step_after(index as nat, count as nat, verdict),
{
    match verdict {
        IntercepterType::SelfHandle => ChainStep::SelfHandle,
        IntercepterType::Redirect => ChainStep::Route,
        IntercepterType::NotAuthorized => ChainStep::Answer(bare(401)),
        IntercepterType::Forbidden => ChainStep::Answer(bare(403)),
        IntercepterType::Interrupt => ChainStep::Written,
        IntercepterType::Next => if index + 1 < count {
            ChainStep::Run(index + 1)
        } else {
            ChainStep::Route
        },
    }
}

/// The logical service that a path names, or the empty text.
pub fn extracting_service(path: &str) -> (r: String)
    ensures
        r@ == service_of(path@),
{
    let parts = split_chars(chars_of(path).as_slice(), '/');
    if parts.len() < 3 {
        return String::new();
    }
    assert(views(parts@)[1] == parts@[1]@);
    assert(views(parts@)[2] == parts@[2]@);
    let mut name: Vec<char> = Vec::new();
    name.push('/');
    append(&mut name, parts[1].as_slice());
    name.push('/');
    append(&mut name, parts[2].as_slice());
    string_of(name.as_slice())
}

/// Routes a request by its path and its fields.
pub fn route(path: &str, headers: &HeaderMap<HeaderValue>) -> (r: Route)
    ensures
        r@ == route_of(path@, header_fields(*headers)),
{
    let p = chars_of(path);
    if p.len() == 0 || (p.len() == 1 && p[0] == '/') {
        assert(path@.len() == 0 || path@ =~= seq!['/']);
        return Route::Landing;
    }
    assert(path@ != seq!['/']) by {
        if path@.len() == 1 {
            assert(path@[0] != seq!['/'][0]);
        }
    }
    let service = extracting_service(path);
    if service.as_str().is_empty() {
        return Route::Answer(
            Reply { status: 503, body: String::from_str("service unavailable or not found") },
        );
    }
    match header_get(headers, "strict") {
        Some(value) => {
            match visible_text(value.as_slice()) {
                Some(pinned) => {
                    if pinned.len() == 0 {
                        Route::Answer(
                            Reply { status: 400, body: String::from_str("strict address is empty") },
                        )
                    } else {
                        Route::Lookup { service, strict: Some(string_of(pinned.as_slice())) }
                    }
                },
                None => Route::Answer(
                    Reply { status: 400, body: String::from_str("strict address is empty") },
                ),
            }
        },
        None => Route::Lookup { service, strict: None },
    }
}

/// The answer for a service that is not known, or has no address to go to.
pub fn service_not_found(service: &str) -> (r: Reply)
    ensures
        r@ == not_found(service@),
{
    Reply { status: 503, body: String::from_str(service).concat(" not found") }
}

/// The upstream URL for the request, from what the registry found for the
/// service: `http://` and the address that the algorithm selects. Where the
/// registry found nothing, the endpoint is empty or the algorithm selects
/// no address, the answer is that the service was not found.
pub fn forward_target(
    service: &str,
    found: Result<(LoadBalancerAlgorithm, Endpoint), RegisterError>,
    counter: &mut RoundRobinCounter,
) -> (r: Result<String, Reply>)
    ensures
        match found {
            Ok((lba, endpoint)) => exists|roll: nat|
                match #[trigger] pick_spec(lba@, endpoint@, old(counter).value(), roll) {
                    Some(address) => r matches Ok(url) && url@ == upstream_of(address),
                    None => r matches Err(reply) && reply@ == not_found(service@),
                },
            Err(_) => r matches Err(reply) && reply@ == not_found(service@),
        },
        final(counter).value() == match found {
            Ok((lba, endpoint)) => if lba@ is RoundRobin && endpoint@.len() > 0 {
                nth_ticket(old(counter).value(), 1)
            } else {
                old(counter).value()
            },
            Err(_) => old(counter).value(),
        },
{
    let (lba, endpoint) = match found {
        Ok(pair) => pair,
        Err(_) => {
            return Err(service_not_found(service));
        },
    };
    let selected = lba.select_address(endpoint.get_service_addresses(), counter);
    let ghost roll = choose|roll: nat| #[trigger]
        pick_spec(lba@, endpoint@, old(counter).value(), roll) == opt_text(selected);
    match selected {
        Some(address) => {
            let url = String::from_str("http://").concat(address.as_str());
            assert(pick_spec(lba@, endpoint@, old(counter).value(), roll) == Some(address@));
            Ok(url)
        },
        None => {
            let reply = service_not_found(service);
            assert(pick_spec(lba@, endpoint@, old(counter).value(), roll) is None);
            Err(reply)
        },
    }
}

/// The answer when the upstream call failed.
pub fn gateway_error(detail: &str) -> (r: Reply)
    ensures
        r@ == (ReplyView { status: 500, body: "gateway error: "@ + detail@ }),
{
    Reply { status: 500, body: String::from_str("gateway error: ").concat(detail) }
}

/// Whether every verdict before the index `k` is `Next`.
pub open spec fn all_next_before(verdicts: Seq<IntercepterType>, k: int) -> bool {
    forall|j: int| 0 <= j < k ==> #[trigger] verdicts[j] == IntercepterType::Next
}

/// Where the chain ends when it is run from the interceptor at `index` on,
/// and the interceptors give the verdicts of `verdicts`, one each.
pub open spec fn chain_end(verdicts: Seq<IntercepterType>, index: nat) -> ChainStepView
    decreases verdicts.len() - index,
{
    if index >= verdicts.len() {
        ChainStepView::Route
    } else {
        match step_after(index, verdicts.len(), verdicts[index as int]) {
            ChainStepView::Run(_) => chain_end(verdicts, index + 1),
            end => end,
        }
    }
}

/// The chain runs the interceptors in order and ends with the first verdict
/// that is not `Next`: what follows that verdict is the end of the chain,
/// and no later interceptor counts. Where every verdict is `Next`, the
/// request is routed.
pub proof fn lemma_chain_ends_at_first_verdict(verdicts: Seq<IntercepterType>, k: int)
    requires
        0 <= k <= verdicts.len(),
        all_next_before(verdicts, k),
        k < verdicts.len() ==> verdicts[k] != IntercepterType::Next,
    ensures
        chain_end(verdicts, 0) == if k < verdicts.len() {
            step_after(k as nat, verdicts.len(), verdicts[k])
        } else {
            ChainStepView::Route
        },
{
    lemma_chain_from(verdicts, k, 0);
}

/// The end of the chain from any interceptor before the first verdict that
/// is not `Next`.
proof fn lemma_chain_from(verdicts: Seq<IntercepterType>, k: int, from: nat)
    requires
        0 <= from <= k <= verdicts.len(),
        all_next_before(verdicts, k),
        k < verdicts.len() ==> verdicts[k] != IntercepterType::Next,
    ensures
        chain_end(verdicts, from) == if k < verdicts.len() {
            step_after(k as nat, verdicts.len(), verdicts[k])
        } else {
            ChainStepView::Route
        },
    decreases k - from,
{
    if from < k {
        assert(verdicts[from as int] == IntercepterType::Next);
        lemma_chain_from(verdicts, k, from + 1);
    }
}

/// The empty path and the root are the landing page, whatever the fields
/// of the request: they are never routed to a service.
pub proof fn lemma_root_is_landing(fields: Fields)
    ensures
        route_of(Seq::empty(), fields) is Landing,
        route_of(seq!['/'], fields) is Landing,
{
}

/// A path of one segment names no service, and is answered with 503
/// whatever the fields of the request.
pub proof fn lemma_one_segment_is_unavailable(segment: Seq<char>, fields: Fields)
    requires
        segment.len() > 0,
        forall|k: int| 0 <= k < segment.len() ==> segment[k] != '/',
    ensures
        service_of(seq!['/'] + segment) == Seq::<char>::empty(),
        route_of(seq!['/'] + segment, fields) == RouteView::Answer(
            ReplyView { status: 503, body: "service unavailable or not found"@ },
        ),
{
    let path = seq!['/'] + segment;
    lemma_split_joined(Seq::empty(), segment, '/');
    lemma_split_none(segment, '/');
    lemma_split_none(Seq::empty(), '/');
    assert(Seq::<char>::empty() + seq!['/'] + segment =~= path);
    assert(split(path, '/').len() == 2);
    assert(path.len() > 1);
    assert(path != seq!['/']);
}

} // verus!
