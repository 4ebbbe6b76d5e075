//! What the proxy does with a request: it answers the request itself, or sends it on to a
//! service.

use crate::json;
use crate::relay_proxy::request;
use crate::relay_proxy::request::{ParsedHttpRequest, RequestView};
use crate::relay_proxy::response;
use crate::relay_proxy::response::RawResponse;
use crate::relay_proxy::routing;
use crate::relay_proxy::routing::{RelayRoute, RoutedRequest};
use crate::relay_proxy::target;
use crate::relay_proxy::target::RelayProxyConfig;
use crate::text;
use vstd::prelude::*;

verus! {

/// The port of the local host that the proxy listens at.
pub const LOCAL_RELAY_PROXY_PORT: u16 = 57321;

/// The method of a request to a service.
#[derive(Debug, Clone, Copy, PartialEq, Eq)]
pub enum UpstreamMethod {
    Get,
    Post,
}

/// A request to a service.
#[derive(Debug, Clone, PartialEq, Eq)]
pub struct UpstreamRequest {
    pub method: UpstreamMethod,
    pub url: String,
    pub api_key: String,
    pub headers: Vec<(String, String)>,
    pub body: Option<Vec<u8>>,
}

/// What the proxy does with a request.
#[derive(Debug, Clone, PartialEq, Eq)]
pub enum ProxyAction {
    /// Answer the client.
    Respond(RawResponse),
    /// Send a request to a service, and pass its response on to the client.
    Forward(UpstreamRequest),
}

/// The address and the key of the service that a route leads to. Without an image service, every
/// route leads to the text service.
pub open spec fn service_of(config: RelayProxyConfig, route: RelayRoute) -> (Seq<char>, Seq<char>) {
    match (route, config.image_base_url, config.image_api_key) {
        (RelayRoute::Image, Some(base_url), Some(api_key)) => (base_url@, api_key@),
        _ => (config.text_base_url@, config.text_api_key@),
    }
}

/// Whether the response tells the client which methods are allowed.
pub open spec fn is_preflight(response: RawResponse) -> bool {
    &&& response.status == 204
    &&& response.reason@ == "No Content"@
    &&& response.headers@.len() == 0
    &&& response.body@.len() == 0
}

/// Whether the response tells the client that the method is not allowed.
pub open spec fn is_method_not_allowed(response: RawResponse) -> bool {
    &&& response.status == 405
    &&& response.reason@ == "Method Not Allowed"@
    &&& request::header_texts(response.headers@) == seq![("content-type"@, "application/json"@)]
    &&& response.body@ == vstd::utf8::encode_utf8(
        "{\"error\":{\"message\":\"Method not allowed\"}}"@,
    )
}

/// Whether `sent` is what goes to the service when the request is sent on along the route, with
/// the given body. A `GET` request is sent on without its body.
pub open spec fn is_sent_on(
    config: RelayProxyConfig,
    request: RequestView,
    route: RelayRoute,
    body: Seq<u8>,
    sent: UpstreamRequest,
) -> bool {
    let service = service_of(config, route);
    &&& sent.url@ == target::target_of(service.0, request.head.path)
    &&& sent.api_key@ == service.1
    &&& request::header_texts(sent.headers@) == request::forwarded(request.head.headers)
    &&& if request.head.method == "GET"@ {
        sent.method == UpstreamMethod::Get && sent.body is None
    } else {
        &&& sent.method == UpstreamMethod::Post
        &&& sent.body matches Some(sent_body)
        &&& sent_body@ == body
    }
}

/// Whether `action` is what the proxy does with a request whose body was routed.
pub open spec fn is_answer(
    config: RelayProxyConfig,
    request: RequestView,
    route: RelayRoute,
    body: Seq<u8>,
    action: ProxyAction,
) -> bool {
    let method = request.head.method;
    match action {
        ProxyAction::Respond(response) => if method == "OPTIONS"@ {
            is_preflight(response)
        } else {
            method != "POST"@ && method != "GET"@ && is_method_not_allowed(response)
        },
        ProxyAction::Forward(sent) => (method == "POST"@ || method == "GET"@) && is_sent_on(
            config,
            request,
            route,
            body,
            sent,
        ),
    }
}

/// What the proxy does with a request whose body was routed.
pub fn answer_routed(
    config: &RelayProxyConfig,
    request: &ParsedHttpRequest,
    routed: RoutedRequest,
) -> (action: ProxyAction)
    ensures
        is_answer(*config, request@, routed.route, routed.body@, action),
{
    let method = request.method.as_str();
    proof {
        reveal_strlit("OPTIONS");
        reveal_strlit("POST");
        reveal_strlit("GET");
        assert("OPTIONS"@.len() != "POST"@.len() && "OPTIONS"@.len() != "GET"@.len());
    }
    if text::same_text(method, "OPTIONS") {
        return ProxyAction::Respond(response::preflight_response());
    }
    let is_get = text::same_text(method, "GET");
    if !text::same_text(method, "POST") && !is_get {
        return ProxyAction::Respond(response::method_not_allowed_response());
    }
    let (base_url, api_key) = match (routed.route, &config.image_base_url, &config.image_api_key) {
        (RelayRoute::Image, Some(base_url), Some(api_key)) => (base_url, api_key),
        _ => (&config.text_base_url, &config.text_api_key),
    };
    ProxyAction::Forward(
        UpstreamRequest {
            method: if is_get {
                UpstreamMethod::Get
            } else {
                UpstreamMethod::Post
            },
            url: target::target_url(base_url.as_str(), request.path.as_str()),
            api_key: api_key.clone(),
            headers: request.forward_headers(),
            body: if is_get {
                None
            } else {
                Some(routed.body)
            },
        },
    )
}

/// Decides which service the body of a request goes to. It goes to the image service only if
/// there is one.
pub fn route(config: &RelayProxyConfig, request: &ParsedHttpRequest) -> (routed: RoutedRequest)
    ensures
        ({
            let value = json::parsed_json(request@.body);
            let allowed = config.image_base_url is Some;
            &&& routed.route == routing::route_of(value, allowed)
            &&& routed.body@ == routing::routed_body(request@.body, value, allowed)
            &&& routed.route == RelayRoute::Text ==> routing::sends_no_image_tool(routed.body@)
        }),
{
    routing::route_request(request.body.as_slice(), config.image_base_url.is_some())
}

/// What is recorded of a request for diagnosis. No key and no header field is part of it.
#[derive(Debug, Clone, PartialEq, Eq)]
pub struct RequestRecord {
    pub method: String,
    pub path: String,
    pub route: &'static str,
    pub body_bytes: usize,
}

/// What is recorded of a request that goes along a route.
pub fn record(request: &ParsedHttpRequest, route: RelayRoute) -> (record: RequestRecord)
    ensures
        record.method@ == request@.head.method,
        record.path@ == request@.head.path,
        record.route@ == match route {
            RelayRoute::Text => "text"@,
            RelayRoute::Image => "image"@,
        },
        record.body_bytes == request@.body.len(),
{
    RequestRecord {
        method: request.method.clone(),
        path: request.path.clone(),
        route: route.as_str(),
        body_bytes: request.body.len(),
    }
}

/// What the proxy does with a request. What it sends to the text service advertises no image
/// generation.
pub fn answer(config: &RelayProxyConfig, request: &ParsedHttpRequest) -> (action: ProxyAction)
    ensures
        ({
            let value = json::parsed_json(request@.body);
            let allowed = config.image_base_url is Some;
            let route = routing::route_of(value, allowed);
            let body = routing::routed_body(request@.body, value, allowed);
            &&& is_answer(*config, request@, route, body, action)
            &&& route == RelayRoute::Text ==> routing::sends_no_image_tool(body)
        }),
{
    let routed = route(config, request);
    answer_routed(config, request, routed)
}

/// A request reaches a service with the key of that service: with two services, the key of one is
/// never sent to the other.
pub proof fn law_key_goes_to_its_service(
    config: RelayProxyConfig,
    request: RequestView,
    route: RelayRoute,
    body: Seq<u8>,
    sent: UpstreamRequest,
)
    requires
        config.well_formed(),
        is_sent_on(config, request, route, body, sent),
    ensures
        match (route, config.image_base_url) {
            (RelayRoute::Image, Some(base_url)) => sent.url@ == target::target_of(
                base_url@,
                request.head.path,
            ) && sent.api_key@ == config.image_api_key->0@,
            _ => sent.url@ == target::target_of(config.text_base_url@, request.head.path)
                && sent.api_key@ == config.text_api_key@,
        },
{
}

/// `OPTIONS` is answered with the methods that are allowed. `GET` and `POST` are sent on to the
/// service of the route, with its key, and `POST` with the routed body. Everything else is
/// refused.
pub proof fn law_methods(
    config: RelayProxyConfig,
    request: RequestView,
    route: RelayRoute,
    body: Seq<u8>,
    action: ProxyAction,
)
    requires
        config.well_formed(),
        is_answer(config, request, route, body, action),
    ensures
        request.head.method == "OPTIONS"@ ==> (action matches ProxyAction::Respond(response)
            && response.status == 204 && response.body@.len() == 0),
        request.head.method != "OPTIONS"@ && request.head.method != "GET"@ && request.head.method
            != "POST"@ ==> (action matches ProxyAction::Respond(response) && response.status
            == 405),
        request.head.method == "GET"@ ==> (action matches ProxyAction::Forward(sent)
            && sent.method is Get && sent.body is None && goes_to_service(
            config,
            request,
            route,
            sent,
        )),
        request.head.method == "POST"@ ==> (action matches ProxyAction::Forward(sent)
            && sent.method is Post && sent.body is Some && sent.body->0@ == body
            && goes_to_service(config, request, route, sent)),
{
    reveal_strlit("OPTIONS");
    reveal_strlit("GET");
    reveal_strlit("POST");
    assert("OPTIONS"@.len() != "GET"@.len());
    assert("OPTIONS"@.len() != "POST"@.len());
    assert("GET"@.len() != "POST"@.len());
    if let ProxyAction::Forward(sent) = action {
        law_key_goes_to_its_service(config, request, route, body, sent);
    }
}

/// Whether what is sent goes to the service of the route, with its key and with the header fields
/// that are sent on.
pub open spec fn goes_to_service(
    config: RelayProxyConfig,
    request: RequestView,
    route: RelayRoute,
    sent: UpstreamRequest,
) -> bool {
    &&& request::header_texts(sent.headers@) == request::forwarded(request.head.headers)
    &&& match (route, config.image_base_url, config.image_api_key) {
        (RelayRoute::Image, Some(base_url), Some(api_key)) => sent.url@ == target::target_of(
            base_url@,
            request.head.path,
        ) && sent.api_key@ == api_key@,
        _ => sent.url@ == target::target_of(config.text_base_url@, request.head.path)
            && sent.api_key@ == config.text_api_key@,
    }
}

} // verus!
