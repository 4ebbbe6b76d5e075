//! Responses as the proxy sends them to clients.

use crate::json;
use crate::json::{Json, JsonTree};
use crate::relay_proxy::request;
use crate::text;
use vstd::prelude::*;
use vstd::slice::slice_to_vec;

verus! {

/// A response.
#[derive(Debug, Clone, PartialEq, Eq)]
pub struct RawResponse {
    pub status: u16,
    pub reason: String,
    pub headers: Vec<(String, String)>,
    pub body: Vec<u8>,
}

/// Whether the text stays on one line.
pub open spec fn single_line(s: Seq<char>) -> bool {
    !s.contains('\n')
}

/// Whether the reason and the header fields of a response stay on one line each.
pub open spec fn single_lines(reason: Seq<char>, headers: Seq<(Seq<char>, Seq<char>)>) -> bool {
    single_line(reason) && forall|i: int|
        0 <= i < headers.len() ==> single_line((#[trigger] headers[i]).0) && single_line(
            headers[i].1,
        )
}

/// The line of a header field.
pub open spec fn header_line(header: (Seq<char>, Seq<char>)) -> Seq<char> {
    header.0 + ": "@ + header.1
}

/// The lines before the body of a response, up to and with the empty line.
pub open spec fn response_lines(
    status: nat,
    reason: Seq<char>,
    headers: Seq<(Seq<char>, Seq<char>)>,
    body_length: nat,
) -> Seq<Seq<char>> {
    (seq![
        "HTTP/1.1 "@ + text::decimal(status) + " "@ + reason,
        "Access-Control-Allow-Origin: *"@,
        "Access-Control-Allow-Methods: GET, POST, OPTIONS"@,
        "Access-Control-Allow-Headers: Content-Type, Authorization"@,
        "Content-Length: "@ + text::decimal(body_length),
        "Connection: close"@,
    ] + headers.map_values(|header| header_line(header))).push(seq![])
}

/// The lines, each followed by a carriage return and a line feed.
pub open spec fn with_line_ends(lines: Seq<Seq<char>>) -> Seq<char>
    decreases lines.len(),
{
    if lines.len() == 0 {
        seq![]
    } else {
        with_line_ends(lines.drop_last()) + lines.last() + "\r\n"@
    }
}

fn push_line(head: &mut String, line: &str, Ghost(lines): Ghost<Seq<Seq<char>>>)
    requires
        old(head)@ == with_line_ends(lines),
    ensures
        final(head)@ == with_line_ends(lines.push(line@)),
{
    head.append(line);
    head.append("\r\n");
    assert(lines.push(line@).drop_last() == lines);
}

impl RawResponse {
    /// What is sent before the body of the response.
    pub fn head(&self) -> (head: String)
        ensures
            head@ == with_line_ends(
                response_lines(
                    self.status as nat,
                    self.reason@,
                    request::header_texts(self.headers@),
                    self.body@.len(),
                ),
            ),
    {
        let ghost headers = request::header_texts(self.headers@);
        let ghost lines: Seq<Seq<char>> = seq![];
        let mut head: String = String::new();
        let mut status_line: String = "HTTP/1.1 ".to_owned();
        status_line.append(text::decimal_text(self.status as u64).as_str());
        status_line.append(" ");
        status_line.append(self.reason.as_str());
        push_line(&mut head, status_line.as_str(), Ghost(lines));
        let ghost lines = lines.push(status_line@);
        push_line(&mut head, "Access-Control-Allow-Origin: *", Ghost(lines));
        let ghost lines = lines.push("Access-Control-Allow-Origin: *"@);
        push_line(&mut head, "Access-Control-Allow-Methods: GET, POST, OPTIONS", Ghost(lines));
        let ghost lines = lines.push("Access-Control-Allow-Methods: GET, POST, OPTIONS"@);
        push_line(
            &mut head,
            "Access-Control-Allow-Headers: Content-Type, Authorization",
            Ghost(lines),
        );
        let ghost lines = lines.push("Access-Control-Allow-Headers: Content-Type, Authorization"@);
        let mut length_line: String = "Content-Length: ".to_owned();
        length_line.append(text::decimal_text(self.body.len() as u64).as_str());
        push_line(&mut head, length_line.as_str(), Ghost(lines));
        let ghost lines = lines.push(length_line@);
        push_line(&mut head, "Connection: close", Ghost(lines));
        let ghost fixed = lines.push("Connection: close"@);
        let mut i: usize = 0;
        assert(fixed + headers.take(0).map_values(|header| header_line(header)) =~= fixed);
        while i < self.headers.len()
            invariant
                i <= self.headers@.len(),
                headers == request::header_texts(self.headers@),
                head@ == with_line_ends(
                    fixed + headers.take(i as int).map_values(|header| header_line(header)),
                ),
            decreases self.headers@.len() - i,
        {
            let ghost lines = fixed + headers.take(i as int).map_values(
                |header| header_line(header),
            );
            let header = &self.headers[i];
            let mut line = header.0.clone();
            line.append(": ");
            line.append(header.1.as_str());
            push_line(&mut head, line.as_str(), Ghost(lines));
            assert(headers[i as int] == (header.0@, header.1@));
            assert(lines.push(line@) =~= fixed + headers.take(i + 1).map_values(
                |header| header_line(header),
            ));
            i = i + 1;
        }
        let ghost lines = fixed + headers.map_values(|header| header_line(header));
        assert(headers.take(i as int) == headers);
        proof {
            reveal_strlit("");
            assert(""@ =~= seq![]);
        }
        push_line(&mut head, "", Ghost(lines));
        assert(lines.push(seq![]) =~= response_lines(
            self.status as nat,
            self.reason@,
            headers,
            self.body@.len(),
        ));
        head
    }
}

proof fn lemma_first_line(lines: Seq<Seq<char>>)
    requires
        lines.len() > 0,
    ensures
        with_line_ends(lines) == lines[0] + "\r\n"@ + with_line_ends(lines.drop_first()),
    decreases lines.len(),
{
    if lines.len() > 1 {
        let rest = lines.drop_first();
        lemma_first_line(lines.drop_last());
        assert(lines.drop_last().drop_first() =~= rest.drop_last());
        assert(with_line_ends(lines) =~= lines[0] + "\r\n"@ + (with_line_ends(rest.drop_last())
            + rest.last() + "\r\n"@));
    } else {
        assert(lines.drop_last() =~= seq![]);
        assert(lines.drop_first() =~= seq![]);
        assert(with_line_ends(lines) =~= lines[0] + "\r\n"@ + with_line_ends(lines.drop_first()));
    }
}

proof fn lemma_until_line_end(line: Seq<char>, rest: Seq<char>)
    requires
        single_line(line),
    ensures
        text::until(line + rest, '\n') == line.len() + text::until(rest, '\n'),
    decreases line.len(),
{
    if line.len() > 0 {
        assert(line.contains(line[0]));
        let tail = line.drop_first();
        assert(single_line(tail)) by {
            if tail.contains('\n') {
                let i = tail.index_of('\n');
                assert(line[i + 1] == '\n');
            }
        }
        lemma_until_line_end(tail, rest);
        assert((line + rest).drop_first() =~= tail + rest);
    } else {
        assert(line + rest =~= rest);
    }
}

/// Lines that are written with line ends are read back as they were.
pub proof fn law_lines_are_read_back(lines: Seq<Seq<char>>)
    requires
        forall|i: int| 0 <= i < lines.len() ==> single_line(#[trigger] lines[i]),
    ensures
        text::lines_of(with_line_ends(lines)) == lines,
    decreases lines.len(),
{
    if lines.len() > 0 {
        reveal_strlit("\r\n");
        let rest = lines.drop_first();
        let tail = with_line_ends(rest);
        let whole = with_line_ends(lines);
        let n = lines[0].len() as int;
        lemma_first_line(lines);
        law_lines_are_read_back(rest);
        assert(whole =~= lines[0] + ("\r\n"@ + tail));
        lemma_until_line_end(lines[0], "\r\n"@ + tail);
        assert(("\r\n"@ + tail).drop_first()[0] == '\n');
        assert(text::until("\r\n"@ + tail, '\n') == 1) by {
            reveal_with_fuel(text::until, 2);
        }
        assert(whole.take(n + 1) =~= lines[0].push('\r'));
        assert(lines[0].push('\r').drop_last() =~= lines[0]);
        assert(whole.skip(n + 2) =~= tail);
        assert(seq![lines[0]] + rest =~= lines);
    } else {
        assert(text::lines_of(with_line_ends(lines)) =~= lines);
    }
}

proof fn lemma_decimal_single_line(n: nat)
    ensures
        single_line(text::decimal(n)),
    decreases n,
{
    if n >= 10 {
        lemma_decimal_single_line(n / 10);
    }
}

proof fn lemma_joined_single_line(a: Seq<char>, b: Seq<char>)
    requires
        single_line(a),
        single_line(b),
    ensures
        single_line(a + b),
{
}

/// A client that reads the head of a response line by line finds the status, each header field
/// on a line of its own, the length of the body, and the empty line that ends the head.
pub proof fn law_response_head_is_read_back(
    status: nat,
    reason: Seq<char>,
    headers: Seq<(Seq<char>, Seq<char>)>,
    body_length: nat,
)
    requires
        single_lines(reason, headers),
    ensures
        text::lines_of(with_line_ends(response_lines(status, reason, headers, body_length)))
            == response_lines(status, reason, headers, body_length),
{
    reveal_strlit("HTTP/1.1 ");
    reveal_strlit(" ");
    reveal_strlit(": ");
    reveal_strlit("Access-Control-Allow-Origin: *");
    reveal_strlit("Access-Control-Allow-Methods: GET, POST, OPTIONS");
    reveal_strlit("Access-Control-Allow-Headers: Content-Type, Authorization");
    reveal_strlit("Content-Length: ");
    reveal_strlit("Connection: close");
    let lines = response_lines(status, reason, headers, body_length);
    lemma_decimal_single_line(status);
    lemma_decimal_single_line(body_length);
    lemma_joined_single_line("HTTP/1.1 "@, text::decimal(status));
    lemma_joined_single_line("HTTP/1.1 "@ + text::decimal(status), " "@);
    lemma_joined_single_line("HTTP/1.1 "@ + text::decimal(status) + " "@, reason);
    lemma_joined_single_line("Content-Length: "@, text::decimal(body_length));
    assert forall|i: int| 0 <= i < lines.len() implies single_line(#[trigger] lines[i]) by {
        if 6 <= i < lines.len() - 1 {
            let header = headers[i - 6];
            lemma_joined_single_line(header.0, ": "@);
            lemma_joined_single_line(header.0 + ": "@, header.1);
            assert(lines[i] == header_line(header));
        }
    }
    law_lines_are_read_back(lines);
}

/// The response with a JSON body.
pub fn json_response(status: u16, reason: &str, body: Vec<u8>) -> (response: RawResponse)
    ensures
        response.status == status,
        response.reason@ == reason@,
        request::header_texts(response.headers@) == seq![("content-type"@, "application/json"@)],
        response.body@ == body@,
{
    let mut headers: Vec<(String, String)> = Vec::new();
    headers.push(("content-type".to_owned(), "application/json".to_owned()));
    assert(request::header_texts(headers@) =~= seq![("content-type"@, "application/json"@)]);
    RawResponse { status, reason: reason.to_owned(), headers, body }
}

/// The response to a request for the methods that are allowed.
pub fn preflight_response() -> (response: RawResponse)
    ensures
        response.status == 204,
        response.reason@ == "No Content"@,
        response.headers@.len() == 0,
        response.body@.len() == 0,
{
    RawResponse {
        status: 204,
        reason: "No Content".to_owned(),
        headers: Vec::new(),
        body: Vec::new(),
    }
}

/// The response to a request with a method that is not allowed.
pub fn method_not_allowed_response() -> (response: RawResponse)
    ensures
        response.status == 405,
        response.reason@ == "Method Not Allowed"@,
        request::header_texts(response.headers@) == seq![("content-type"@, "application/json"@)],
        response.body@ == vstd::utf8::encode_utf8(
            "{\"error\":{\"message\":\"Method not allowed\"}}"@,
        ),
{
    let body = slice_to_vec("{\"error\":{\"message\":\"Method not allowed\"}}".as_bytes());
    json_response(405, "Method Not Allowed", body)
}

/// What the client is told when a service could not be reached.
pub open spec fn failure_document(error: Seq<char>) -> JsonTree {
    JsonTree::Object(
        seq![
            (
                "error"@,
                JsonTree::Object(
                    seq![
                        (
                            "message"@,
                            JsonTree::Text("Codex++ relay proxy request failed: "@ + error),
                        ),
                    ],
                ),
            ),
        ],
    )
}

/// What the client is told when a service could not be reached.
pub fn failure_json(error: &str) -> (json: Json)
    ensures
        json@ == failure_document(error@),
        json@.readable(),
{
    let mut message: String = "Codex++ relay proxy request failed: ".to_owned();
    message.append(error);
    let mut inner: Vec<(String, Json)> = Vec::new();
    inner.push(("message".to_owned(), Json::Text(message)));
    let mut outer: Vec<(String, Json)> = Vec::new();
    proof {
        json::lemma_object_view(inner);
    }
    outer.push(("error".to_owned(), Json::Object(inner)));
    proof {
        json::lemma_object_view(outer);
        let entries = failure_document(error@)->Object_0;
        assert(json::entry_trees(inner@) =~= entries[0].1->Object_0);
        assert(json::entry_trees(outer@) =~= entries);
        assert(entries[0].1->Object_0[0].1.nests_within(125));
        assert(entries[0].1->Object_0[0].1.ordered());
        assert(entries[0].1.nests_within(126));
        assert(entries[0].1.ordered());
    }
    Json::Object(outer)
}

/// The response to a request that could not be sent on.
pub fn failure_response(error: &str) -> (response: RawResponse)
    ensures
        response.status == 502,
        response.reason@ == "Bad Gateway"@,
        request::header_texts(response.headers@) == seq![("content-type"@, "application/json"@)],
        json::rendered_json(failure_document(error@)) == Some(response.body@),
        json::reads_back(failure_document(error@), response.body@),
{
    match json::render_json(failure_json(error)) {
        Some(body) => json_response(502, "Bad Gateway", body),
        None => json_response(502, "Bad Gateway", Vec::new()),
    }
}

/// The standard reason for a status code, as `reqwest::StatusCode::canonical_reason` gives it.
pub uninterp spec fn canonical_reason(status: u16) -> Option<Seq<char>>;

/// `reqwest::StatusCode::canonical_reason` looks a status code up in a table of reasons, each of
/// which stays on one line.
#[verifier::external_body]
fn reason_of_status(status: u16) -> (found: Option<String>)
    ensures
        match found {
            Some(reason) => canonical_reason(status) == Some(reason@) && single_line(reason@),
            None => canonical_reason(status) is None,
        },
{
    let code = reqwest::StatusCode::from_u16(status).ok();
    code.and_then(|code| code.canonical_reason()).map(str::to_string)
}

/// Whether a byte may stand in the text of a header field: a visible ASCII character, a space or
/// a tab.
pub open spec fn is_header_byte(b: u8) -> bool {
    32 <= b < 127 || b == 9
}

/// The text that the bytes of a header field stand for, if they are visible ASCII throughout.
pub open spec fn header_text_of(bytes: Seq<u8>) -> Option<Seq<char>> {
    if forall|i: int| 0 <= i < bytes.len() ==> is_header_byte(#[trigger] bytes[i]) {
        Some(bytes.map_values(|b: u8| b as char))
    } else {
        None
    }
}

/// The text that the bytes of a header field stand for, if they are visible ASCII throughout.
pub fn header_text(bytes: &[u8]) -> (found: Option<String>)
    ensures
        match found {
            Some(s) => header_text_of(bytes@) == Some(s@) && single_line(s@),
            None => header_text_of(bytes@) is None,
        },
{
    let mut s: String = String::new();
    let mut i: usize = 0;
    assert(s@ =~= bytes@.take(0).map_values(|b: u8| b as char));
    while i < bytes.len()
        invariant
            i <= bytes@.len(),
            s@ == bytes@.take(i as int).map_values(|b: u8| b as char),
            single_line(s@),
            forall|j: int| 0 <= j < i ==> is_header_byte(#[trigger] bytes@[j]),
        decreases bytes@.len() - i,
    {
        let b: u8 = bytes[i];
        if !((32 <= b && b < 127) || b == 9) {
            assert(!is_header_byte(bytes@[i as int]));
            return None;
        }
        s.push(b as char);
        assert(s@ =~= bytes@.take(i + 1).map_values(|b: u8| b as char));
        i = i + 1;
    }
    assert(bytes@.take(i as int) == bytes@);
    Some(s)
}

/// Whether a header field of a service is passed on to the client.
pub open spec fn is_passed_on(name: Seq<char>) -> bool {
    ||| name == "content-type"@
    ||| name == "cache-control"@
    ||| name == "openai-request-id"@
    ||| name == "x-request-id"@
}

/// A header field of a service as it is passed on to the client, if it is.
pub open spec fn passed_on(header: (Seq<char>, Seq<u8>)) -> Option<(Seq<char>, Seq<char>)> {
    let name = text::ascii_lower(header.0);
    if is_passed_on(name) {
        match header_text_of(header.1) {
            Some(value) => Some((name, value)),
            None => None,
        }
    } else {
        None
    }
}

/// The header fields of a service that are passed on to the client.
pub open spec fn headers_passed_on(headers: Seq<(Seq<char>, Seq<u8>)>) -> Seq<
    (Seq<char>, Seq<char>),
>
    decreases headers.len(),
{
    if headers.len() == 0 {
        seq![]
    } else {
        let before = headers_passed_on(headers.drop_last());
        match passed_on(headers.last()) {
            Some(header) => before.push(header),
            None => before,
        }
    }
}

/// The header fields of a service: their names and the bytes of their values.
pub open spec fn raw_header_texts(headers: Seq<(String, Vec<u8>)>) -> Seq<(Seq<char>, Seq<u8>)> {
    headers.map_values(|h: (String, Vec<u8>)| (h.0@, h.1@))
}

fn passed_on_header(name: &str, value: &[u8]) -> (found: Option<(String, String)>)
    ensures
        match found {
            Some((found_name, found_value)) => passed_on((name@, value@)) == Some(
                (found_name@, found_value@),
            ) && single_line(found_name@) && single_line(found_value@),
            None => passed_on((name@, value@)) is None,
        },
{
    let lower = text::to_ascii_lowercase(name);
    proof {
        reveal_strlit("content-type");
        reveal_strlit("cache-control");
        reveal_strlit("openai-request-id");
        reveal_strlit("x-request-id");
    }
    if text::same_text(lower.as_str(), "content-type") || text::same_text(
        lower.as_str(),
        "cache-control",
    ) || text::same_text(lower.as_str(), "openai-request-id") || text::same_text(
        lower.as_str(),
        "x-request-id",
    ) {
        match header_text(value) {
            Some(value) => Some((lower, value)),
            None => None,
        }
    } else {
        None
    }
}

/// The reason that is sent for a status code, by its standard reason, if it has one.
pub open spec fn reason_or_ok(reason: Option<Seq<char>>) -> Seq<char> {
    match reason {
        Some(reason) => reason,
        None => "OK"@,
    }
}

/// The response of a service as it is passed on to the client, by the standard reason for its
/// status code, if there is one.
pub fn relayed_with_reason(
    status: u16,
    reason: Option<String>,
    headers: &Vec<(String, Vec<u8>)>,
    body: Vec<u8>,
) -> (response: RawResponse)
    ensures
        response.status == status,
        response.reason@ == reason_or_ok(
            match reason {
                Some(reason) => Some(reason@),
                None => None,
            },
        ),
        request::header_texts(response.headers@) == headers_passed_on(raw_header_texts(headers@)),
        response.body@ == body@,
        single_line(response.reason@) ==> single_lines(
            response.reason@,
            request::header_texts(response.headers@),
        ),
{
    let ghost raw = raw_header_texts(headers@);
    let mut kept: Vec<(String, String)> = Vec::new();
    let mut i: usize = 0;
    assert(request::header_texts(kept@) =~= headers_passed_on(raw.take(0)));
    while i < headers.len()
        invariant
            i <= headers@.len(),
            raw == raw_header_texts(headers@),
            request::header_texts(kept@) == headers_passed_on(raw.take(i as int)),
            forall|j: int|
                0 <= j < kept@.len() ==> single_line((#[trigger] kept@[j]).0@) && single_line(
                    kept@[j].1@,
                ),
        decreases headers@.len() - i,
    {
        let ghost before = request::header_texts(kept@);
        let header = &headers[i];
        assert(raw[i as int] == (header.0@, header.1@));
        assert(raw.take(i + 1).drop_last() == raw.take(i as int));
        if let Some((name, value)) = passed_on_header(header.0.as_str(), header.1.as_slice()) {
            kept.push((name, value));
            assert(request::header_texts(kept@) =~= before.push((name@, value@)));
        }
        i = i + 1;
    }
    assert(raw.take(i as int) == raw);
    let reason = match reason {
        Some(reason) => reason,
        None => "OK".to_owned(),
    };
    RawResponse { status, reason, headers: kept, body }
}

/// The response of a service as it is passed on to the client.
pub fn relayed_response(
    status: u16,
    headers: &Vec<(String, Vec<u8>)>,
    body: Vec<u8>,
) -> (response: RawResponse)
    ensures
        response.status == status,
        response.reason@ == reason_or_ok(canonical_reason(status)),
        request::header_texts(response.headers@) == headers_passed_on(raw_header_texts(headers@)),
        response.body@ == body@,
        single_lines(response.reason@, request::header_texts(response.headers@)),
{
    proof {
        reveal_strlit("OK");
    }
    relayed_with_reason(status, reason_of_status(status), headers, body)
}

/// A client finds the version, the status and the reason on the first line of a response, split by
/// single spaces.
pub proof fn law_status_is_read_back(
    status: nat,
    reason: Seq<char>,
    headers: Seq<(Seq<char>, Seq<char>)>,
    body_length: nat,
)
    requires
        single_lines(reason, headers),
    ensures
        ({
            let head = with_line_ends(response_lines(status, reason, headers, body_length));
            let line = text::lines_of(head)[0];
            &&& text::split_at_first(line, ' ') matches Some((version, rest))
            &&& version == "HTTP/1.1"@
            &&& text::split_at_first(rest, ' ') matches Some((code, found))
            &&& text::parsed_number(code, status) == Some(status)
            &&& found == reason
        }),
{
    reveal_strlit("HTTP/1.1 ");
    reveal_strlit("HTTP/1.1");
    reveal_strlit(" ");
    law_response_head_is_read_back(status, reason, headers, body_length);
    let code = text::decimal(status);
    let line = "HTTP/1.1 "@ + code + " "@ + reason;
    let rest = code.push(' ') + reason;
    assert(line =~= "HTTP/1.1"@.push(' ') + rest);
    text::law_number_is_read_back(status, status);
    text::law_numbers_are_digits(code, 0, status);
    assert(!code.contains(' ')) by {
        if code.contains(' ') {
            let i = code.index_of(' ');
            assert(code[i] == ' ');
        }
    }
    text::law_split_at_first_stop("HTTP/1.1"@, ' ', rest);
    text::law_split_at_first_stop(code, ' ', reason);
}

/// Every header field of a response stands on a line of its own, behind the ones that every
/// response has, and an empty line ends the head.
pub proof fn law_fields_stand_on_lines(
    status: nat,
    reason: Seq<char>,
    headers: Seq<(Seq<char>, Seq<char>)>,
    body_length: nat,
    i: int,
)
    requires
        single_lines(reason, headers),
        0 <= i < headers.len(),
    ensures
        ({
            let head = with_line_ends(response_lines(status, reason, headers, body_length));
            let lines = text::lines_of(head);
            &&& lines.len() == 7 + headers.len()
            &&& lines[6 + i] == headers[i].0.push(':').push(' ') + headers[i].1
            &&& lines.last().len() == 0
        }),
{
    reveal_strlit(": ");
    law_response_head_is_read_back(status, reason, headers, body_length);
    assert(header_line(headers[i]) =~= headers[i].0.push(':').push(' ') + headers[i].1);
    assert(response_lines(status, reason, headers, body_length)[6 + i] == header_line(headers[i]));
}

/// A line that begins with a name of its own, a colon and a space names nothing else.
proof fn lemma_line_names(name: Seq<char>, value: Seq<char>, other: Seq<char>)
    requires
        !name.contains(':'),
        text::trimmed(name) != other,
    ensures
        request::no_line_names(seq![name.push(':').push(' ') + value], other),
{
    let line = name.push(':').push(' ') + value;
    assert(line =~= name.push(':') + (seq![' '] + value));
    text::law_split_at_first_stop(name, ':', seq![' '] + value);
}

proof fn lemma_no_line_names_joined(
    a: Seq<Seq<char>>,
    b: Seq<Seq<char>>,
    name: Seq<char>,
)
    requires
        request::no_line_names(a, name),
        request::no_line_names(b, name),
    ensures
        request::no_line_names(a + b, name),
{
    let lines = a + b;
    assert forall|i: int| 0 <= i < lines.len() implies (request::header_of_line(
        #[trigger] lines[i],
    ) matches Some(header) ==> header.0 != name) by {
        if i < a.len() {
            assert(lines[i] == a[i]);
        } else {
            assert(lines[i] == b[i - a.len()]);
        }
    }
}

proof fn lemma_tight_name(name: Seq<char>)
    requires
        text::is_tight(name),
    ensures
        text::trimmed(name) == name,
{
    text::law_trimming_takes_white_space(seq![], name, seq![]);
    assert(seq![] + name + seq![] =~= name);
}

proof fn lemma_fixed_line(line: Seq<char>, name: Seq<char>, value: Seq<char>, other: Seq<char>)
    requires
        line == name.push(':').push(' ') + value,
        text::is_tight(name),
        !name.contains(':'),
        name.len() != other.len(),
    ensures
        request::no_line_names(seq![line], other),
{
    lemma_tight_name(name);
    lemma_line_names(name, value, other);
}

proof fn lemma_fixed_lines(other: Seq<char>)
    requires
        other.len() == 14,
    ensures
        request::no_line_names(seq!["Access-Control-Allow-Origin: *"@], other),
        request::no_line_names(
            seq!["Access-Control-Allow-Methods: GET, POST, OPTIONS"@],
            other,
        ),
        request::no_line_names(
            seq!["Access-Control-Allow-Headers: Content-Type, Authorization"@],
            other,
        ),
        request::no_line_names(seq!["Connection: close"@], other),
{
    reveal_strlit("Access-Control-Allow-Origin: *");
    let origin = "Access-Control-Allow-Origin: *"@;
    assert(origin =~= origin.take(27).push(':').push(' ') + origin.skip(29));
    assert(!origin.take(27).contains(':'));
    lemma_fixed_line(origin, origin.take(27), origin.skip(29), other);
    reveal_strlit("Access-Control-Allow-Methods: GET, POST, OPTIONS");
    let methods = "Access-Control-Allow-Methods: GET, POST, OPTIONS"@;
    assert(methods =~= methods.take(28).push(':').push(' ') + methods.skip(30));
    assert(!methods.take(28).contains(':'));
    lemma_fixed_line(methods, methods.take(28), methods.skip(30), other);
    reveal_strlit("Access-Control-Allow-Headers: Content-Type, Authorization");
    let allowed = "Access-Control-Allow-Headers: Content-Type, Authorization"@;
    assert(allowed =~= allowed.take(28).push(':').push(' ') + allowed.skip(30));
    assert(!allowed.take(28).contains(':'));
    lemma_fixed_line(allowed, allowed.take(28), allowed.skip(30), other);
    reveal_strlit("Connection: close");
    let connection = "Connection: close"@;
    assert(connection =~= connection.take(10).push(':').push(' ') + connection.skip(12));
    assert(!connection.take(10).contains(':'));
    lemma_fixed_line(connection, connection.take(10), connection.skip(12), other);
}

/// Whether none of the header fields is named as the length of the body is, in any case.
pub open spec fn names_no_length(headers: Seq<(Seq<char>, Seq<char>)>) -> bool {
    forall|i: int|
        0 <= i < headers.len() ==> !(#[trigger] headers[i]).0.contains(':') && text::ascii_lower(
            text::trimmed(headers[i].0),
        ) != "content-length"@
}

proof fn lemma_own_lines(headers: Seq<(Seq<char>, Seq<char>)>, other: Seq<char>)
    requires
        names_no_length(headers),
        text::ascii_lower(other) == "content-length"@,
    ensures
        request::no_line_names(headers.map_values(|header| header_line(header)), other),
{
    reveal_strlit(": ");
    let lines = headers.map_values(|header| header_line(header));
    assert forall|i: int| 0 <= i < lines.len() implies (request::header_of_line(
        #[trigger] lines[i],
    ) matches Some(header) ==> header.0 != other) by {
        let header = headers[i];
        assert(lines[i] =~= header.0.push(':').push(' ') + header.1);
        lemma_line_names(header.0, header.1, other);
        assert(seq![lines[i]][0] == lines[i]);
    }
}

/// A client that reads the head of a response finds the length of its body there.
pub proof fn law_length_is_read_back(
    status: nat,
    reason: Seq<char>,
    headers: Seq<(Seq<char>, Seq<char>)>,
    body_length: nat,
)
    requires
        single_lines(reason, headers),
        names_no_length(headers),
        body_length <= usize::MAX,
    ensures
        request::content_length_of(
            request::headers_of_lines(
                text::lines_of(
                    with_line_ends(response_lines(status, reason, headers, body_length)),
                ).drop_first(),
            ),
        ) == body_length,
{
    reveal_strlit("Content-Length");
    reveal_strlit("content-length");
    law_response_head_is_read_back(status, reason, headers, body_length);
    let own = headers.map_values(|header| header_line(header));
    let front = seq![
        "Access-Control-Allow-Origin: *"@,
        "Access-Control-Allow-Methods: GET, POST, OPTIONS"@,
        "Access-Control-Allow-Headers: Content-Type, Authorization"@,
    ];
    let blank: Seq<char> = seq![];
    let back = seq!["Connection: close"@] + own + seq![blank];
    let upper = "Content-Length"@;
    let lower = "content-length"@;
    assert(text::ascii_lower(upper) =~= lower);
    assert(text::ascii_lower(lower) =~= lower);
    lemma_outer_lines(headers, upper);
    lemma_outer_lines(headers, lower);
    request::law_announced_length(front, back, body_length);
    assert(response_lines(status, reason, headers, body_length).drop_first() =~= front.push(
        "Content-Length: "@ + text::decimal(body_length),
    ) + back);
}

proof fn lemma_outer_lines(headers: Seq<(Seq<char>, Seq<char>)>, other: Seq<char>)
    requires
        names_no_length(headers),
        other.len() == 14,
        text::ascii_lower(other) == "content-length"@,
    ensures
        request::no_line_names(
            seq![
                "Access-Control-Allow-Origin: *"@,
                "Access-Control-Allow-Methods: GET, POST, OPTIONS"@,
                "Access-Control-Allow-Headers: Content-Type, Authorization"@,
            ],
            other,
        ),
        request::no_line_names(
            seq!["Connection: close"@] + headers.map_values(|header| header_line(header))
                + seq![Seq::<char>::empty()],
            other,
        ),
{
    let a = seq!["Access-Control-Allow-Origin: *"@];
    let b = seq!["Access-Control-Allow-Methods: GET, POST, OPTIONS"@];
    let c = seq!["Access-Control-Allow-Headers: Content-Type, Authorization"@];
    let own = headers.map_values(|header| header_line(header));
    let blank = seq![Seq::<char>::empty()];
    lemma_fixed_lines(other);
    lemma_no_line_names_joined(a, b, other);
    lemma_no_line_names_joined(a + b, c, other);
    assert(a + b + c =~= seq![
        "Access-Control-Allow-Origin: *"@,
        "Access-Control-Allow-Methods: GET, POST, OPTIONS"@,
        "Access-Control-Allow-Headers: Content-Type, Authorization"@,
    ]);
    lemma_own_lines(headers, other);
    assert(request::no_line_names(blank, other)) by {
        text::law_split_at_first_stop(seq![], ':', seq![]);
        assert(request::header_of_line(blank[0]) is None);
    }
    lemma_no_line_names_joined(seq!["Connection: close"@], own, other);
    lemma_no_line_names_joined(seq!["Connection: close"@] + own, blank, other);
}

/// Which header fields of a service are passed on is decided field by field: those named
/// `content-type`, `cache-control`, `openai-request-id` or `x-request-id`, in whatever case, if
/// every byte of the value is a visible ASCII character, a space or a tab. The value has a
/// character for each of its bytes.
pub proof fn law_fields_are_passed_on_one_by_one(
    before: Seq<(Seq<char>, Seq<u8>)>,
    name: Seq<char>,
    value: Seq<u8>,
)
    ensures
        ({
            let lower = text::ascii_lower(name);
            let named = lower == "content-type"@ || lower == "cache-control"@ || lower
                == "openai-request-id"@ || lower == "x-request-id"@;
            let readable = forall|i: int|
                0 <= i < value.len() ==> 32 <= #[trigger] value[i] <= 126 || value[i] == 9;
            headers_passed_on(before.push((name, value))) == if named && readable {
                headers_passed_on(before).push((lower, value.map_values(|b: u8| b as char)))
            } else {
                headers_passed_on(before)
            }
        }),
        headers_passed_on(Seq::<(Seq<char>, Seq<u8>)>::empty()).len() == 0,
{
    assert(before.push((name, value)).drop_last() =~= before);
    let readable = forall|i: int|
        0 <= i < value.len() ==> 32 <= #[trigger] value[i] <= 126 || value[i] == 9;
    let all = forall|i: int| 0 <= i < value.len() ==> is_header_byte(#[trigger] value[i]);
    if readable {
        assert forall|i: int| 0 <= i < value.len() implies is_header_byte(#[trigger] value[i]) by {}
    }
    if all {
        assert forall|i: int| 0 <= i < value.len() implies 32 <= #[trigger] value[i] <= 126
            || value[i] == 9 by {
            assert(is_header_byte(value[i]));
        }
    }
}

/// The reason of a service is passed on, and `OK` stands for one that is not known.
pub proof fn law_reason_is_passed_on(reason: Seq<char>)
    ensures
        reason_or_ok(Some(reason)) == reason,
        reason_or_ok(None) == "OK"@,
{
}

/// The client finds the error of a failed request as the message of the error in the response.
pub proof fn law_failure_tells_error(error: Seq<char>)
    ensures
        failure_document(error).field("error"@) matches Some(inner) && inner.field("message"@)
            == Some(JsonTree::Text("Codex++ relay proxy request failed: "@ + error)),
{
    reveal_with_fuel(json::entry_value, 2);
}

/// Every response tells the client that any page may read it, which methods and header fields are
/// allowed, how long it is, and that the connection is closed behind it.
pub proof fn law_every_response_has_these_lines(
    status: nat,
    reason: Seq<char>,
    headers: Seq<(Seq<char>, Seq<char>)>,
    body_length: nat,
)
    requires
        single_lines(reason, headers),
    ensures
        ({
            let head = with_line_ends(response_lines(status, reason, headers, body_length));
            let lines = text::lines_of(head);
            &&& lines.len() == 7 + headers.len()
            &&& lines[1] == "Access-Control-Allow-Origin: *"@
            &&& lines[2] == "Access-Control-Allow-Methods: GET, POST, OPTIONS"@
            &&& lines[3] == "Access-Control-Allow-Headers: Content-Type, Authorization"@
            &&& lines[4] == "Content-Length: "@ + text::decimal(body_length)
            &&& lines[5] == "Connection: close"@
            &&& lines.last().len() == 0
        }),
{
    law_response_head_is_read_back(status, reason, headers, body_length);
}

/// The header fields of a service keep their names and the bytes of their values.
pub proof fn law_raw_fields_are_kept(headers: Seq<(String, Vec<u8>)>, i: int)
    requires
        0 <= i < headers.len(),
    ensures
        raw_header_texts(headers).len() == headers.len(),
        raw_header_texts(headers)[i] == (headers[i].0@, headers[i].1@),
{
}

/// Lines that are written end in a carriage return and a line feed each.
pub proof fn law_lines_are_written_one_by_one(lines: Seq<Seq<char>>, line: Seq<char>)
    ensures
        with_line_ends(lines.push(line)) == with_line_ends(lines) + line.push('\r').push('\n'),
        with_line_ends(Seq::<Seq<char>>::empty()).len() == 0,
{
    reveal_strlit("\r\n");
    assert(lines.push(line).drop_last() =~= lines);
    assert(with_line_ends(lines) + line + "\r\n"@ =~= with_line_ends(lines) + line.push(
        '\r',
    ).push('\n'));
}

} // verus!
