//! Requests as clients send them: the parts of a request, and how it is put together from the
//! bytes that arrive.

use crate::text;
use vstd::prelude::*;
use vstd::slice::{slice_subrange, slice_to_vec};

verus! {

/// Without the end of its head, a request may not be longer than this.
pub const MAX_HEAD_BYTES: usize = 1048576;

/// The names and values of header fields.
pub open spec fn header_texts(headers: Seq<(String, String)>) -> Seq<(Seq<char>, Seq<char>)> {
    headers.map_values(|h: (String, String)| (h.0@, h.1@))
}

/// Whether no name occurs twice.
pub open spec fn names_differ(headers: Seq<(Seq<char>, Seq<char>)>) -> bool {
    forall|i: int, j: int|
        0 <= i < j < headers.len() ==> (#[trigger] headers[i]).0 != (#[trigger] headers[j]).0
}

/// The place of the first header field with the given name, or the number of fields if there is
/// none.
pub open spec fn header_index(headers: Seq<(Seq<char>, Seq<char>)>, name: Seq<char>) -> nat
    decreases headers.len(),
{
    if headers.len() == 0 || headers[0].0 == name {
        0
    } else {
        1 + header_index(headers.drop_first(), name)
    }
}

/// The value of the header field with the given name.
pub open spec fn header_value(headers: Seq<(Seq<char>, Seq<char>)>, name: Seq<char>) -> Option<
    Seq<char>,
> {
    let i = header_index(headers, name);
    if i < headers.len() {
        Some(headers[i as int].1)
    } else {
        None
    }
}

/// The header fields with one more. A field that has the name already gets the new value.
pub open spec fn with_header(
    headers: Seq<(Seq<char>, Seq<char>)>,
    name: Seq<char>,
    value: Seq<char>,
) -> Seq<(Seq<char>, Seq<char>)> {
    let i = header_index(headers, name);
    if i < headers.len() {
        headers.update(i as int, (name, value))
    } else {
        headers.push((name, value))
    }
}

/// The header field that a line holds: the texts before and after its first colon, without the
/// white space around them.
pub open spec fn header_of_line(line: Seq<char>) -> Option<(Seq<char>, Seq<char>)> {
    match text::split_at_first(line, ':') {
        Some((name, value)) => Some((text::trimmed(name), text::trimmed(value))),
        None => None,
    }
}

/// The header fields of the lines. A line without a colon holds none.
pub open spec fn headers_of_lines(lines: Seq<Seq<char>>) -> Seq<(Seq<char>, Seq<char>)>
    decreases lines.len(),
{
    if lines.len() == 0 {
        seq![]
    } else {
        let before = headers_of_lines(lines.drop_last());
        match header_of_line(lines.last()) {
            Some((name, value)) => with_header(before, name, value),
            None => before,
        }
    }
}

/// Whether the empty line that ends the head of a request stands at position `at`: a line break
/// followed by another.
pub open spec fn head_ends_at(bytes: Seq<u8>, at: int) -> bool {
    0 <= at && at + 4 <= bytes.len() && bytes[at] == 13 && bytes[at + 1] == 10 && bytes[at + 2]
        == 13 && bytes[at + 3] == 10
}

/// Whether the head of a request ends at position `at` and nowhere before.
pub open spec fn head_first_ends_at(bytes: Seq<u8>, at: int) -> bool {
    head_ends_at(bytes, at) && forall|i: int| 0 <= i < at ==> !head_ends_at(bytes, i)
}

/// The length of the head of a request, if its end has arrived.
pub open spec fn head_length(bytes: Seq<u8>) -> Option<int> {
    if exists|at: int| head_first_ends_at(bytes, at) {
        Some(choose|at: int| head_first_ends_at(bytes, at))
    } else {
        None
    }
}

/// What the head of a request says.
#[verifier::ext_equal]
pub struct HeadView {
    pub method: Seq<char>,
    pub path: Seq<char>,
    pub headers: Seq<(Seq<char>, Seq<char>)>,
}

/// What a request says.
#[verifier::ext_equal]
pub struct RequestView {
    pub head: HeadView,
    pub body: Seq<u8>,
}

/// What a head says: the first two words of its first line, and the header fields of the lines
/// after it.
pub open spec fn head_of_text(head: Seq<char>) -> HeadView {
    let lines = text::lines_of(head);
    let words = text::words_of(
        if lines.len() > 0 {
            lines[0]
        } else {
            seq![]
        },
    );
    HeadView {
        method: if words.len() > 0 {
            words[0]
        } else {
            seq![]
        },
        path: if words.len() > 1 {
            words[1]
        } else {
            "/"@
        },
        headers: headers_of_lines(
            if lines.len() > 0 {
                lines.drop_first()
            } else {
                lines
            },
        ),
    }
}

/// The length of the body that the header fields announce, or zero if they announce none.
pub open spec fn content_length_of(headers: Seq<(Seq<char>, Seq<char>)>) -> nat {
    let announced = match header_value(headers, "content-length"@) {
        Some(value) => Some(value),
        None => header_value(headers, "Content-Length"@),
    };
    match announced {
        Some(value) => match text::parsed_number(text::trimmed(value), usize::MAX as nat) {
            Some(length) => length,
            None => 0,
        },
        None => 0,
    }
}

/// The head of a request of which these bytes have arrived.
pub open spec fn arrived_head(bytes: Seq<u8>) -> HeadView {
    head_of_text(text::lossy_text(bytes.take(head_length(bytes)->0)))
}

/// The bytes that have arrived after the head of a request.
pub open spec fn arrived_body(bytes: Seq<u8>) -> Seq<u8> {
    bytes.skip(head_length(bytes)->0 + 4)
}

/// Whether the head of a request has arrived, and as much of the body as it announces.
pub open spec fn all_arrived(bytes: Seq<u8>) -> bool {
    head_length(bytes) is Some && arrived_body(bytes).len() >= content_length_of(
        arrived_head(bytes).headers,
    )
}

/// The request of which these bytes have arrived. What follows the announced body is not part
/// of it.
pub open spec fn arrived_request(bytes: Seq<u8>) -> RequestView {
    let head = arrived_head(bytes);
    let body = arrived_body(bytes);
    let announced = content_length_of(head.headers) as int;
    RequestView {
        head,
        body: if body.len() > announced {
            body.take(announced)
        } else {
            body
        },
    }
}

/// A request.
#[derive(Debug, Clone)]
pub struct ParsedHttpRequest {
    pub method: String,
    pub path: String,
    pub headers: Vec<(String, String)>,
    pub body: Vec<u8>,
}

impl View for ParsedHttpRequest {
    type V = RequestView;

    open spec fn view(&self) -> RequestView {
        RequestView {
            head: HeadView {
                method: self.method@,
                path: self.path@,
                headers: header_texts(self.headers@),
            },
            body: self.body@,
        }
    }
}

/// Whether a header field concerns the connection to the proxy alone, and is not sent on.
pub open spec fn is_connection_header(name: Seq<char>) -> bool {
    let lower = text::ascii_lower(name);
    ||| lower == "authorization"@
    ||| lower == "host"@
    ||| lower == "connection"@
    ||| lower == "content-length"@
}

/// The header fields that are sent on.
pub open spec fn forwarded(headers: Seq<(Seq<char>, Seq<char>)>) -> Seq<(Seq<char>, Seq<char>)> {
    headers.filter(|h: (Seq<char>, Seq<char>)| !is_connection_header(h.0))
}

impl ParsedHttpRequest {
    /// The header fields that are sent on.
    pub fn forward_headers(&self) -> (kept: Vec<(String, String)>)
        ensures
            header_texts(kept@) == forwarded(self@.head.headers),
    {
        let ghost headers = header_texts(self.headers@);
        let ghost keep = |h: (Seq<char>, Seq<char>)| !is_connection_header(h.0);
        let mut kept: Vec<(String, String)> = Vec::new();
        let mut i: usize = 0;
        proof {
            reveal(Seq::filter);
            assert(header_texts(kept@) =~= headers.take(0).filter(keep));
        }
        while i < self.headers.len()
            invariant
                i <= self.headers@.len(),
                headers == header_texts(self.headers@),
                keep == (|h: (Seq<char>, Seq<char>)| !is_connection_header(h.0)),
                header_texts(kept@) == headers.take(i as int).filter(keep),
            decreases self.headers@.len() - i,
        {
            let ghost before = kept@;
            let header = &self.headers[i];
            let lower = text::to_ascii_lowercase(header.0.as_str());
            let lower = lower.as_str();
            if !(text::same_text(lower, "authorization") || text::same_text(lower, "host")
                || text::same_text(lower, "connection") || text::same_text(
                lower,
                "content-length",
            )) {
                kept.push((header.0.clone(), header.1.clone()));
            }
            proof {
                reveal(Seq::filter);
                assert(headers[i as int] == (header.0@, header.1@));
                assert(headers.take(i + 1).drop_last() == headers.take(i as int));
                assert(header_texts(kept@) =~= headers.take(i + 1).filter(keep));
            }
            i = i + 1;
        }
        assert(headers.take(i as int) == headers);
        kept
    }
}

/// The place of the first header field with the given name, or the number of fields if there is
/// none.
fn find_header(headers: &Vec<(String, String)>, name: &str) -> (at: usize)
    ensures
        at == header_index(header_texts(headers@), name@),
        at <= headers@.len(),
{
    let ghost texts = header_texts(headers@);
    let mut at: usize = 0;
    assert(texts.skip(0) == texts);
    while at < headers.len() && !text::same_text(headers[at].0.as_str(), name)
        invariant
            at <= headers@.len(),
            texts == header_texts(headers@),
            header_index(texts, name@) == at + header_index(texts.skip(at as int), name@),
        decreases headers@.len() - at,
    {
        assert(texts.skip(at as int).drop_first() == texts.skip(at + 1));
        at = at + 1;
    }
    at
}

/// The header fields of the lines.
pub fn parse_headers(lines: &[String]) -> (headers: Vec<(String, String)>)
    ensures
        header_texts(headers@) == headers_of_lines(text::texts(lines@)),
{
    let ghost all = text::texts(lines@);
    let mut headers: Vec<(String, String)> = Vec::new();
    let mut i: usize = 0;
    assert(header_texts(headers@) =~= headers_of_lines(all.take(0)));
    while i < lines.len()
        invariant
            i <= lines@.len(),
            all == text::texts(lines@),
            header_texts(headers@) == headers_of_lines(all.take(i as int)),
        decreases lines@.len() - i,
    {
        assert(all.take(i + 1).drop_last() == all.take(i as int));
        let ghost before = header_texts(headers@);
        if let Some((name, value)) = text::split_once(lines[i].as_str(), ':') {
            let name = text::trim(name.as_str());
            let value = text::trim(value.as_str());
            let at: usize = find_header(&headers, name.as_str());
            let ghost result = with_header(before, name@, value@);
            if at < headers.len() {
                headers.set(at, (name, value));
            } else {
                headers.push((name, value));
            }
            assert(header_texts(headers@) =~= result);
        }
        i = i + 1;
    }
    assert(all.take(i as int) == all);
    headers
}

/// The length of the head of a request, if its end has arrived.
pub fn find_header_end(buffer: &[u8]) -> (end: Option<usize>)
    ensures
        match end {
            Some(end) => head_length(buffer@) == Some(end as int) && head_first_ends_at(
                buffer@,
                end as int,
            ),
            None => head_length(buffer@) is None,
        },
{
    if buffer.len() < 4 {
        return None;
    }
    let last: usize = buffer.len() - 4;
    let mut at: usize = 0;
    while at <= last
        invariant
            last == buffer@.len() - 4,
            forall|i: int| 0 <= i < at ==> !head_ends_at(buffer@, i),
        decreases last + 1 - at,
    {
        if buffer[at] == 13 && buffer[at + 1] == 10 && buffer[at + 2] == 13 && buffer[at + 3]
            == 10 {
            proof {
                lemma_head_length(buffer@, at as int);
            }
            return Some(at);
        }
        at = at + 1;
    }
    None
}

proof fn lemma_head_length(bytes: Seq<u8>, at: int)
    requires
        head_first_ends_at(bytes, at),
    ensures
        head_length(bytes) == Some(at),
{
    let found = choose|at: int| head_first_ends_at(bytes, at);
    assert(head_first_ends_at(bytes, found));
    if found < at {
        assert(!head_ends_at(bytes, found));
    }
    if at < found {
        assert(!head_ends_at(bytes, at));
    }
}

/// The length of the body that the header fields announce, or zero if they announce none.
pub fn content_length(headers: &Vec<(String, String)>) -> (length: usize)
    ensures
        length == content_length_of(header_texts(headers@)),
{
    let mut at: usize = find_header(headers, "content-length");
    if at == headers.len() {
        at = find_header(headers, "Content-Length");
    }
    if at == headers.len() {
        return 0;
    }
    let value = text::trim(headers[at].1.as_str());
    match text::parse_number(value.as_str(), usize::MAX as u64) {
        Some(length) => length as usize,
        None => 0,
    }
}

/// The request that a head begins, without its body.
pub fn parse_head(head: &str) -> (request: ParsedHttpRequest)
    ensures
        request@.head == head_of_text(head@),
        request@.body == Seq::<u8>::empty(),
{
    let mut lines = text::lines(head);
    let ghost all = text::texts(lines@);
    let first = if lines.len() > 0 {
        lines.remove(0)
    } else {
        String::new()
    };
    assert(text::texts(lines@) =~= if all.len() > 0 {
        all.drop_first()
    } else {
        all
    });
    assert(first@ == if all.len() > 0 {
        all[0]
    } else {
        seq![]
    });
    let words = text::words(first.as_str());
    let ghost word_texts = text::words_of(first@);
    assert(word_texts.len() == words@.len());
    let method = if words.len() > 0 {
        assert(words@[0]@ == word_texts[0]);
        words[0].clone()
    } else {
        String::new()
    };
    let path = if words.len() > 1 {
        assert(words@[1]@ == word_texts[1]);
        words[1].clone()
    } else {
        "/".to_owned()
    };
    let headers = parse_headers(&lines);
    ParsedHttpRequest { method, path, headers, body: Vec::new() }
}

/// Why a request could not be read.
#[derive(Debug, Clone, Copy, PartialEq, Eq)]
pub enum ReadError {
    /// The client closed the connection before the head of its request was complete.
    Empty,
    /// The head of the request is too long.
    HeadTooLarge,
}

impl ReadError {
    /// The error in words.
    pub fn message(self) -> (message: &'static str)
        ensures
            message@ == match self {
                ReadError::Empty => "empty relay proxy request"@,
                ReadError::HeadTooLarge => "relay proxy request headers are too large"@,
            },
    {
        match self {
            ReadError::Empty => "empty relay proxy request",
            ReadError::HeadTooLarge => "relay proxy request headers are too large",
        }
    }
}

/// What to do after bytes have been read.
pub enum ReadStep {
    /// Read more bytes.
    ReadMore,
    /// The request is complete.
    Complete(ParsedHttpRequest),
    /// The request cannot be read.
    Failed(ReadError),
}

/// What to do after bytes have been read.
pub enum StepView {
    ReadMore,
    Complete(RequestView),
    Failed(ReadError),
}

impl View for ReadStep {
    type V = StepView;

    open spec fn view(&self) -> StepView {
        match self {
            ReadStep::ReadMore => StepView::ReadMore,
            ReadStep::Complete(request) => StepView::Complete(request@),
            ReadStep::Failed(error) => StepView::Failed(*error),
        }
    }
}

/// What to do when `chunk` arrives after `bytes`. An empty chunk says that the client has closed
/// the connection: a head that has arrived is then a request with the body that came with it.
pub open spec fn step_after(bytes: Seq<u8>, chunk: Seq<u8>) -> StepView {
    let all = bytes + chunk;
    if chunk.len() == 0 {
        if head_length(bytes) is Some {
            StepView::Complete(arrived_request(bytes))
        } else {
            StepView::Failed(ReadError::Empty)
        }
    } else if all_arrived(all) {
        StepView::Complete(arrived_request(all))
    } else if head_length(all) is None && all.len() > MAX_HEAD_BYTES {
        StepView::Failed(ReadError::HeadTooLarge)
    } else {
        StepView::ReadMore
    }
}

/// A request that is being read.
pub struct RequestReader {
    received: Vec<u8>,
    head: Option<PendingHead>,
}

/// The head of a request that is being read.
struct PendingHead {
    length: usize,
    request: ParsedHttpRequest,
    content_length: usize,
}

impl View for RequestReader {
    type V = Seq<u8>;

    /// The bytes that have arrived.
    closed spec fn view(&self) -> Seq<u8> {
        self.received@
    }
}

impl RequestReader {
    /// Whether the reader knows the head of the request if it has arrived.
    pub closed spec fn well_formed(self) -> bool {
        match self.head {
            Some(head) => {
                &&& head_length(self@) == Some(head.length as int)
                &&& head_first_ends_at(self@, head.length as int)
                &&& head.request@.head == arrived_head(self@)
                &&& head.request@.body.len() == 0
                &&& head.content_length == content_length_of(arrived_head(self@).headers)
            },
            None => head_length(self@) is None,
        }
    }

    /// A reader that nothing has arrived at.
    pub fn new() -> (reader: Self)
        ensures
            reader.well_formed(),
            reader@ == Seq::<u8>::empty(),
    {
        let reader = RequestReader { received: Vec::new(), head: None };
        assert(forall|at: int| !head_first_ends_at(reader@, at));
        reader
    }

    /// Takes the bytes that the client has sent next, or none if it has closed the connection.
    pub fn receive(&mut self, chunk: &[u8]) -> (step: ReadStep)
        requires
            old(self).well_formed(),
        ensures
            final(self).well_formed(),
            final(self)@ == old(self)@ + chunk@,
            step@ == step_after(old(self)@, chunk@),
    {
        let ghost bytes = self@;
        let ghost all = bytes + chunk@;
        if chunk.len() == 0 {
            assert(all =~= bytes);
            return match &self.head {
                Some(head) => ReadStep::Complete(finish(&self.received, head)),
                None => ReadStep::Failed(ReadError::Empty),
            };
        }
        self.received.extend_from_slice(chunk);
        assert(self@ =~= all);
        match &self.head {
            Some(head) => {
                proof {
                    lemma_head_stays(bytes, chunk@);
                }
            },
            None => {
                if let Some(length) = find_header_end(&self.received) {
                    let head = text::read_lossy(
                        slice_subrange(self.received.as_slice(), 0, length),
                    );
                    let request = parse_head(head.as_str());
                    assert(self@.subrange(0, length as int) =~= self@.take(length as int));
                    let content_length: usize = content_length(&request.headers);
                    self.head = Some(PendingHead { length, request, content_length });
                }
            },
        }
        assert(self.well_formed());
        match &self.head {
            Some(head) => {
                if self.received.len() - (head.length + 4) >= head.content_length {
                    ReadStep::Complete(finish(&self.received, head))
                } else {
                    ReadStep::ReadMore
                }
            },
            None => {
                if self.received.len() > MAX_HEAD_BYTES {
                    ReadStep::Failed(ReadError::HeadTooLarge)
                } else {
                    ReadStep::ReadMore
                }
            },
        }
    }
}

/// The request that the received bytes hold, of which the head has been read.
fn finish(received: &Vec<u8>, head: &PendingHead) -> (request: ParsedHttpRequest)
    requires
        head_length(received@) == Some(head.length as int),
        head_first_ends_at(received@, head.length as int),
        head.request@.head == arrived_head(received@),
        head.content_length == content_length_of(arrived_head(received@).headers),
    ensures
        request@ == arrived_request(received@),
{
    let total: usize = received.len();
    let from: usize = head.length + 4;
    let available: usize = total - from;
    let length: usize = if available > head.content_length {
        head.content_length
    } else {
        available
    };
    let body = slice_to_vec(slice_subrange(received.as_slice(), from, from + length));
    assert(body@ =~= arrived_request(received@).body);
    let mut headers: Vec<(String, String)> = Vec::new();
    let mut i: usize = 0;
    while i < head.request.headers.len()
        invariant
            i <= head.request.headers@.len(),
            headers@.len() == i,
            forall|j: int| 0 <= j < i ==> headers@[j] == head.request.headers@[j],
        decreases head.request.headers@.len() - i,
    {
        let header = &head.request.headers[i];
        headers.push((header.0.clone(), header.1.clone()));
        i = i + 1;
    }
    assert(headers@ =~= head.request.headers@);
    ParsedHttpRequest {
        method: head.request.method.clone(),
        path: head.request.path.clone(),
        headers,
        body,
    }
}

proof fn lemma_head_stays(bytes: Seq<u8>, more: Seq<u8>)
    requires
        head_length(bytes) is Some,
    ensures
        head_length(bytes + more) == head_length(bytes),
        head_first_ends_at(bytes + more, head_length(bytes)->0),
        arrived_head(bytes + more) == arrived_head(bytes),
        arrived_body(bytes + more) == arrived_body(bytes) + more,
{
    let all = bytes + more;
    let at = choose|at: int| head_first_ends_at(bytes, at);
    assert(head_first_ends_at(bytes, at));
    assert forall|i: int| 0 <= i < at implies !head_ends_at(all, i) by {
        assert(!head_ends_at(bytes, i));
        if head_ends_at(all, i) {
            assert(i + 4 <= at + 4 <= bytes.len());
        }
    }
    assert(head_first_ends_at(all, at));
    lemma_head_length(all, at);
    assert(all.take(at) =~= bytes.take(at));
    assert(all.skip(at + 4) =~= bytes.skip(at + 4) + more);
}

/// What a client sends after a complete request has no part in the request.
pub proof fn law_later_bytes_change_nothing(bytes: Seq<u8>, more: Seq<u8>)
    requires
        all_arrived(bytes),
    ensures
        all_arrived(bytes + more),
        arrived_request(bytes + more) == arrived_request(bytes),
{
    lemma_head_stays(bytes, more);
    let announced = content_length_of(arrived_head(bytes).headers) as int;
    let body = arrived_body(bytes);
    assert((body + more).take(announced) =~= body.take(announced));
    assert(arrived_request(bytes + more).body =~= arrived_request(bytes).body);
}

/// The bytes of the chunks, one after the other.
pub open spec fn joined(chunks: Seq<Seq<u8>>) -> Seq<u8>
    decreases chunks.len(),
{
    if chunks.len() == 0 {
        seq![]
    } else {
        chunks[0] + joined(chunks.drop_first())
    }
}

/// What is to be done after the chunks have arrived one by one after `bytes`. Once the request is
/// complete or cannot be read, no more is read.
pub open spec fn step_after_chunks(bytes: Seq<u8>, chunks: Seq<Seq<u8>>) -> StepView
    decreases chunks.len(),
{
    if chunks.len() == 0 {
        StepView::ReadMore
    } else {
        match step_after(bytes, chunks[0]) {
            StepView::ReadMore => step_after_chunks(bytes + chunks[0], chunks.drop_first()),
            step => step,
        }
    }
}

/// However the bytes of a request are split on their way, the same request comes out: it is the
/// one that all the bytes together hold.
pub proof fn law_request_does_not_depend_on_chunks(bytes: Seq<u8>, chunks: Seq<Seq<u8>>)
    requires
        forall|i: int| 0 <= i < chunks.len() ==> (#[trigger] chunks[i]).len() > 0,
    ensures
        step_after_chunks(bytes, chunks) matches StepView::Complete(request) ==> request
            == arrived_request(bytes + joined(chunks)),
    decreases chunks.len(),
{
    if chunks.len() > 0 {
        let rest = chunks.drop_first();
        assert(bytes + joined(chunks) =~= (bytes + chunks[0]) + joined(rest));
        match step_after(bytes, chunks[0]) {
            StepView::ReadMore => {
                law_request_does_not_depend_on_chunks(bytes + chunks[0], rest);
            },
            StepView::Complete(_) => {
                law_later_bytes_change_nothing(bytes + chunks[0], joined(rest));
            },
            StepView::Failed(_) => {},
        }
    }
}

proof fn lemma_head_in_front(bytes: Seq<u8>, more: Seq<u8>)
    requires
        head_length(bytes + more) is Some,
        head_length(bytes + more)->0 + 4 <= bytes.len(),
    ensures
        head_length(bytes) is Some,
{
    let all = bytes + more;
    let at = choose|at: int| head_first_ends_at(all, at);
    assert(head_first_ends_at(all, at));
    assert forall|i: int| 0 <= i < at implies !head_ends_at(bytes, i) by {
        assert(!head_ends_at(all, i));
    }
    assert(head_first_ends_at(bytes, at));
}

/// A request that arrives in pieces is read as soon as it is complete, if its head is not too
/// long.
pub proof fn law_complete_request_is_read(bytes: Seq<u8>, chunks: Seq<Seq<u8>>)
    requires
        chunks.len() > 0,
        forall|i: int| 0 <= i < chunks.len() ==> (#[trigger] chunks[i]).len() > 0,
        all_arrived(bytes + joined(chunks)),
        head_length(bytes + joined(chunks))->0 + 4 <= MAX_HEAD_BYTES,
    ensures
        step_after_chunks(bytes, chunks) == StepView::Complete(
            arrived_request(bytes + joined(chunks)),
        ),
    decreases chunks.len(),
{
    let all = bytes + joined(chunks);
    let now = bytes + chunks[0];
    let rest = chunks.drop_first();
    assert(all =~= now + joined(rest));
    if all_arrived(now) {
        law_later_bytes_change_nothing(now, joined(rest));
    } else {
        if now.len() > MAX_HEAD_BYTES {
            lemma_head_in_front(now, joined(rest));
        }
        assert(rest.len() == 0 ==> all =~= now);
        law_complete_request_is_read(now, rest);
    }
}

/// What comes of the chunks when the client closes the connection after them, if they do not
/// complete the request: the request with as much of its body as has arrived, if its head has
/// arrived, and otherwise an error.
pub proof fn law_closed_connection_ends_request(bytes: Seq<u8>, chunks: Seq<Seq<u8>>)
    requires
        forall|i: int| 0 <= i < chunks.len() ==> (#[trigger] chunks[i]).len() > 0,
        (bytes + joined(chunks)).len() <= MAX_HEAD_BYTES || (head_length(
            bytes + joined(chunks),
        ) is Some && head_length(bytes + joined(chunks))->0 + 4 <= MAX_HEAD_BYTES),
    ensures
        step_after_chunks(bytes, chunks.push(seq![])) == if head_length(
            bytes + joined(chunks),
        ) is Some {
            StepView::Complete(arrived_request(bytes + joined(chunks)))
        } else {
            StepView::Failed(ReadError::Empty)
        },
    decreases chunks.len(),
{
    let all = bytes + joined(chunks);
    let sent = chunks.push(seq![]);
    if chunks.len() == 0 {
        assert(all =~= bytes);
        assert(sent[0].len() == 0);
    } else {
        let now = bytes + chunks[0];
        let rest = chunks.drop_first();
        assert(all =~= now + joined(rest));
        assert(sent.drop_first() =~= rest.push(seq![]));
        assert(sent[0] == chunks[0]);
        if all_arrived(now) {
            law_later_bytes_change_nothing(now, joined(rest));
        } else {
            if now.len() > MAX_HEAD_BYTES {
                lemma_head_in_front(now, joined(rest));
            }
            law_closed_connection_ends_request(now, rest);
        }
    }
}

proof fn lemma_header_index(headers: Seq<(Seq<char>, Seq<char>)>, name: Seq<char>)
    ensures
        header_index(headers, name) <= headers.len(),
        header_index(headers, name) < headers.len() ==> headers[header_index(
            headers,
            name,
        ) as int].0 == name,
        forall|i: int|
            0 <= i < header_index(headers, name) ==> (#[trigger] headers[i]).0 != name,
    decreases headers.len(),
{
    if headers.len() > 0 && headers[0].0 != name {
        let rest = headers.drop_first();
        lemma_header_index(rest, name);
        assert forall|i: int| 0 <= i < header_index(headers, name) implies (
        #[trigger] headers[i]).0 != name by {
            if i > 0 {
                assert(rest[i - 1] == headers[i]);
            }
        }
    }
}

/// No name occurs twice among the header fields of a request.
pub proof fn law_header_names_differ(lines: Seq<Seq<char>>)
    ensures
        names_differ(headers_of_lines(lines)),
    decreases lines.len(),
{
    if lines.len() > 0 {
        law_header_names_differ(lines.drop_last());
        if let Some((name, value)) = header_of_line(lines.last()) {
            lemma_header_index(headers_of_lines(lines.drop_last()), name);
        }
    }
}

/// Where several lines have a header field of the same name, the last one counts.
pub proof fn law_last_header_line_counts(lines: Seq<Seq<char>>, line: Seq<char>, name: Seq<char>)
    ensures
        header_value(headers_of_lines(lines.push(line)), name) == match header_of_line(line) {
            Some((found, value)) => if found == name {
                Some(value)
            } else {
                header_value(headers_of_lines(lines), name)
            },
            None => header_value(headers_of_lines(lines), name),
        },
{
    let before = headers_of_lines(lines);
    let after = headers_of_lines(lines.push(line));
    assert(lines.push(line).drop_last() == lines);
    if let Some((found, value)) = header_of_line(line) {
        let i = header_index(before, name) as int;
        let j = header_index(before, found) as int;
        let k = header_index(after, name) as int;
        lemma_header_index(before, name);
        lemma_header_index(before, found);
        lemma_header_index(after, name);
        if found == name {
            assert(after[j].0 == name);
            assert(k <= j);
            if k < j {
                assert(after[k] == before[k]);
            }
        } else if i < before.len() {
            assert(after[i] == before[i]);
            assert(k <= i);
            if k < i {
                assert(k != j);
                assert(after[k] == before[k]);
            }
        } else if k < after.len() {
            assert(after[k].0 == name);
            assert(k != j);
            assert(after[k] == before[k]);
        }
    }
}

/// No header field that concerns the connection to the proxy alone is sent on, and every other
/// one is.
pub proof fn law_forwarded_headers(headers: Seq<(Seq<char>, Seq<char>)>, header: (
    Seq<char>,
    Seq<char>,
))
    ensures
        forwarded(headers).contains(header) <==> headers.contains(header) && !is_connection_header(
            header.0,
        ),
{
    let keep = |h: (Seq<char>, Seq<char>)| !is_connection_header(h.0);
    if forwarded(headers).contains(header) {
        let i = forwarded(headers).index_of(header);
        headers.lemma_filter_pred(keep, i);
        headers.lemma_filter_contains_rev(keep, header);
    }
    if headers.contains(header) && !is_connection_header(header.0) {
        headers.lemma_filter_contains(keep, headers.index_of(header));
    }
}

/// A line with a colon holds a header field: what stands before the first colon and after it,
/// without the white space around either. Any other line holds none.
pub proof fn law_header_line(
    before: Seq<char>,
    name: Seq<char>,
    after: Seq<char>,
    leading: Seq<char>,
    value: Seq<char>,
    trailing: Seq<char>,
)
    requires
        text::is_blank(before),
        text::is_blank(after),
        text::is_blank(leading),
        text::is_blank(trailing),
        text::is_tight(name),
        text::is_tight(value),
        !name.contains(':'),
    ensures
        header_of_line((before + name + after).push(':') + (leading + value + trailing)) == Some(
            (name, value),
        ),
        header_of_line(before + name + after) is None,
{
    let whole = before + name + after;
    assert(!whole.contains(':')) by {
        if whole.contains(':') {
            let i = whole.index_of(':');
            if i < before.len() {
                assert(text::is_white_space(before[i]));
            } else if i < before.len() + name.len() {
                assert(name[i - before.len()] == ':');
            } else {
                assert(text::is_white_space(after[i - before.len() - name.len()]));
            }
        }
    }
    text::law_split_at_first_stop(whole, ':', leading + value + trailing);
    text::law_trimming_takes_white_space(before, name, after);
    text::law_trimming_takes_white_space(leading, value, trailing);
}

/// Whether none of the lines holds a header field with the name.
pub open spec fn no_line_names(lines: Seq<Seq<char>>, name: Seq<char>) -> bool {
    forall|i: int|
        0 <= i < lines.len() ==> (header_of_line(#[trigger] lines[i]) matches Some(header)
            ==> header.0 != name)
}

proof fn lemma_no_header(lines: Seq<Seq<char>>, name: Seq<char>)
    requires
        no_line_names(lines, name),
    ensures
        header_value(headers_of_lines(lines), name) is None,
    decreases lines.len(),
{
    if lines.len() > 0 {
        let rest = lines.drop_last();
        assert(no_line_names(rest, name)) by {
            assert forall|i: int| 0 <= i < rest.len() implies (header_of_line(
                #[trigger] rest[i],
            ) matches Some(header) ==> header.0 != name) by {
                assert(rest[i] == lines[i]);
            }
        }
        lemma_no_header(rest, name);
        assert(rest.push(lines.last()) =~= lines);
        assert(lines[lines.len() - 1] == lines.last());
        law_last_header_line_counts(rest, lines.last(), name);
    }
}

/// A header field has the value of its last line, whatever stands on the lines before it and on
/// the lines behind it that have other names.
pub proof fn law_header_of_last_line(
    before: Seq<Seq<char>>,
    line: Seq<char>,
    after: Seq<Seq<char>>,
    name: Seq<char>,
    value: Seq<char>,
)
    requires
        header_of_line(line) == Some((name, value)),
        no_line_names(after, name),
    ensures
        header_value(headers_of_lines(before.push(line) + after), name) == Some(value),
    decreases after.len(),
{
    let lines = before.push(line) + after;
    if after.len() == 0 {
        assert(lines =~= before.push(line));
        law_last_header_line_counts(before, line, name);
    } else {
        let rest = after.drop_last();
        assert(no_line_names(rest, name)) by {
            assert forall|i: int| 0 <= i < rest.len() implies (header_of_line(
                #[trigger] rest[i],
            ) matches Some(header) ==> header.0 != name) by {
                assert(rest[i] == after[i]);
            }
        }
        law_header_of_last_line(before, line, rest, name, value);
        assert(lines =~= (before.push(line) + rest).push(after.last()));
        assert(after[after.len() - 1] == after.last());
        law_last_header_line_counts(before.push(line) + rest, after.last(), name);
    }
}

proof fn lemma_length_line(n: nat)
    ensures
        header_of_line("Content-Length: "@ + text::decimal(n)) == Some(
            ("Content-Length"@, text::decimal(n)),
        ),
        header_of_line("content-length: "@ + text::decimal(n)) == Some(
            ("content-length"@, text::decimal(n)),
        ),
        text::trimmed(text::decimal(n)) == text::decimal(n),
{
    reveal_strlit("Content-Length: ");
    reveal_strlit("Content-Length");
    reveal_strlit("content-length: ");
    reveal_strlit("content-length");
    let number = text::decimal(n);
    text::law_number_is_read_back(n, n);
    text::law_numbers_are_digits(number, 0, n);
    assert(text::is_tight(number)) by {
        assert(!text::is_white_space(number[0]));
        assert(!text::is_white_space(number[number.len() - 1]));
    }
    text::law_trimming_takes_white_space(seq![], number, seq![]);
    assert(seq![] + number + seq![] =~= number);
    let upper = "Content-Length"@;
    let lower = "content-length"@;
    assert(seq![] + upper + seq![] =~= upper);
    assert(seq![] + lower + seq![] =~= lower);
    assert(text::is_blank(seq![' ']));
    law_header_line(seq![], upper, seq![], seq![' '], number, seq![]);
    law_header_line(seq![], lower, seq![], seq![' '], number, seq![]);
    assert("Content-Length: "@ + number =~= upper.push(':') + (seq![' '] + number + seq![]));
    assert("content-length: "@ + number =~= lower.push(':') + (seq![' '] + number + seq![]));
}

/// The announced length of a body is the number that the one line with a length gives, up to the
/// largest length there is. Without such a line it is zero.
pub proof fn law_announced_length(before: Seq<Seq<char>>, after: Seq<Seq<char>>, n: nat)
    requires
        no_line_names(before, "Content-Length"@),
        no_line_names(before, "content-length"@),
        no_line_names(after, "Content-Length"@),
        no_line_names(after, "content-length"@),
    ensures
        n <= usize::MAX ==> content_length_of(
            headers_of_lines(before.push("Content-Length: "@ + text::decimal(n)) + after),
        ) == n,
        n <= usize::MAX ==> content_length_of(
            headers_of_lines(before.push("content-length: "@ + text::decimal(n)) + after),
        ) == n,
        n > usize::MAX ==> content_length_of(
            headers_of_lines(before.push("Content-Length: "@ + text::decimal(n)) + after),
        ) == 0,
        content_length_of(headers_of_lines(before + after)) == 0,
{
    reveal_strlit("Content-Length");
    reveal_strlit("content-length");
    assert("Content-Length"@[0] != "content-length"@[0]);
    let upper = "Content-Length: "@ + text::decimal(n);
    let lower = "content-length: "@ + text::decimal(n);
    lemma_length_line(n);
    text::law_number_is_read_back(n, usize::MAX as nat);
    law_header_of_last_line(before, upper, after, "Content-Length"@, text::decimal(n));
    law_header_of_last_line(before, lower, after, "content-length"@, text::decimal(n));
    assert(no_line_names(before.push(upper) + after, "content-length"@)) by {
        let lines = before.push(upper) + after;
        assert forall|i: int| 0 <= i < lines.len() implies (header_of_line(
            #[trigger] lines[i],
        ) matches Some(header) ==> header.0 != "content-length"@) by {
            if i < before.len() {
                assert(lines[i] == before[i]);
            } else if i > before.len() {
                assert(lines[i] == after[i - before.len() - 1]);
            }
        }
    }
    lemma_no_header(before.push(upper) + after, "content-length"@);
    let none = before + after;
    assert forall|name: Seq<char>| no_line_names(before, name) && no_line_names(
        after,
        name,
    ) implies no_line_names(none, name) by {
        assert forall|i: int| 0 <= i < none.len() implies (header_of_line(
            #[trigger] none[i],
        ) matches Some(header) ==> header.0 != name) by {
            if i < before.len() {
                assert(none[i] == before[i]);
            } else {
                assert(none[i] == after[i - before.len()]);
            }
        }
    }
    lemma_no_header(none, "content-length"@);
    lemma_no_header(none, "Content-Length"@);
}

/// The bytes of a request: its head, the empty line behind it, and the rest.
pub open spec fn request_bytes(head: Seq<u8>, rest: Seq<u8>) -> Seq<u8> {
    head + seq![13u8, 10u8, 13u8, 10u8] + rest
}

/// Whether no two line breaks stand behind each other before the end of the head.
pub open spec fn is_whole_head(head: Seq<u8>) -> bool {
    let bytes = head + seq![13u8, 10u8, 13u8, 10u8];
    forall|i: int|
        0 <= i < head.len() ==> !(#[trigger] bytes[i] == 13 && bytes[i + 1] == 10 && bytes[i + 2]
            == 13 && bytes[i + 3] == 10)
}

proof fn lemma_whole_head(head: Seq<u8>, rest: Seq<u8>)
    requires
        is_whole_head(head),
    ensures
        head_length(request_bytes(head, rest)) == Some(head.len() as int),
        request_bytes(head, rest).take(head.len() as int) == head,
        arrived_body(request_bytes(head, rest)) == rest,
{
    let bytes = request_bytes(head, rest);
    let front = head + seq![13u8, 10u8, 13u8, 10u8];
    let at = head.len() as int;
    assert forall|i: int| 0 <= i < at implies !head_ends_at(bytes, i) by {
        assert(bytes[i] == front[i] && bytes[i + 1] == front[i + 1] && bytes[i + 2] == front[i + 2]
            && bytes[i + 3] == front[i + 3]);
    }
    assert(head_first_ends_at(bytes, at));
    lemma_head_length(bytes, at);
    assert(bytes.take(at) =~= head);
    assert(bytes.skip(at + 4) =~= rest);
}

/// A request is its head up to the first empty line, and behind that as many bytes as the head
/// announces, all of them and no more, whatever their number.
pub proof fn law_announced_body_is_read(
    head: Seq<u8>,
    body: Seq<u8>,
    more: Seq<u8>,
    first: Seq<char>,
    before: Seq<Seq<char>>,
    after: Seq<Seq<char>>,
)
    requires
        is_whole_head(head),
        text::lines_of(text::lossy_text(head)) == seq![first] + (before.push(
            "Content-Length: "@ + text::decimal(body.len()),
        ) + after),
        no_line_names(before, "Content-Length"@),
        no_line_names(before, "content-length"@),
        no_line_names(after, "Content-Length"@),
        no_line_names(after, "content-length"@),
        body.len() <= usize::MAX,
    ensures
        all_arrived(request_bytes(head, body + more)),
        arrived_request(request_bytes(head, body + more)).body == body,
        arrived_request(request_bytes(head, body + more)).head == head_of_text(
            text::lossy_text(head),
        ),
        forall|n: int|
            0 <= n < body.len() ==> !all_arrived(#[trigger] request_bytes(head, body.take(n))),
{
    let fields = before.push("Content-Length: "@ + text::decimal(body.len())) + after;
    let lines = seq![first] + fields;
    assert(lines.drop_first() =~= fields);
    law_announced_length(before, after, body.len());
    lemma_whole_head(head, body + more);
    assert((body + more).take(body.len() as int) =~= body);
    assert(arrived_request(request_bytes(head, body + more)).body =~= body);
    assert forall|n: int| 0 <= n < body.len() implies !all_arrived(
        #[trigger] request_bytes(head, body.take(n)),
    ) by {
        lemma_whole_head(head, body.take(n));
    }
}

/// A request whose head announces no body has none.
pub proof fn law_request_without_length_has_no_body(
    head: Seq<u8>,
    more: Seq<u8>,
    first: Seq<char>,
    fields: Seq<Seq<char>>,
)
    requires
        is_whole_head(head),
        text::lines_of(text::lossy_text(head)) == seq![first] + fields,
        no_line_names(fields, "Content-Length"@),
        no_line_names(fields, "content-length"@),
    ensures
        all_arrived(request_bytes(head, more)),
        arrived_request(request_bytes(head, more)).body == Seq::<u8>::empty(),
{
    assert((seq![first] + fields).drop_first() =~= fields);
    assert(seq![] + fields =~= fields);
    law_announced_length(seq![], fields, 0);
    lemma_whole_head(head, more);
    assert(arrived_request(request_bytes(head, more)).body =~= Seq::<u8>::empty());
}

/// The method and the path of a request are the first two words of its first line, and the header
/// fields come from the lines behind it. Without a second word the path is `/`.
pub proof fn law_request_line(
    head: Seq<char>,
    blank: Seq<char>,
    method: Seq<char>,
    gap: Seq<char>,
    path: Seq<char>,
    rest: Seq<char>,
    fields: Seq<Seq<char>>,
)
    requires
        text::is_blank(blank),
        text::is_blank(gap),
        text::is_word(method),
        text::is_word(path),
        gap.len() > 0,
        rest.len() > 0 ==> text::is_white_space(rest[0]),
    ensures
        text::lines_of(head) == seq![blank + method + (gap + path + rest)] + fields ==> {
            &&& head_of_text(head).method == method
            &&& head_of_text(head).path == path
            &&& head_of_text(head).headers == headers_of_lines(fields)
        },
        text::lines_of(head) == seq![blank + method + gap] + fields ==> {
            &&& head_of_text(head).method == method
            &&& head_of_text(head).path == "/"@
            &&& head_of_text(head).headers == headers_of_lines(fields)
        },
{
    let line = blank + method + (gap + path + rest);
    assert((gap + path + rest)[0] == gap[0]);
    text::law_words(gap, path, rest);
    text::law_words(blank, method, gap + path + rest);
    assert((seq![line] + fields).drop_first() =~= fields);
    let short = blank + method + gap;
    text::law_words(blank, method, gap);
    assert((seq![short] + fields).drop_first() =~= fields);
}

/// A request is read on until its head has arrived, which may take no more than a mebibyte, and
/// then until the announced body has arrived.
pub proof fn law_reading_goes_on(bytes: Seq<u8>, chunk: Seq<u8>)
    requires
        chunk.len() > 0,
    ensures
        head_length(bytes + chunk) is None && (bytes + chunk).len() > 1024 * 1024 ==> step_after(
            bytes,
            chunk,
        ) == StepView::Failed(ReadError::HeadTooLarge),
        head_length(bytes + chunk) is None && (bytes + chunk).len() <= 1024 * 1024 ==> step_after(
            bytes,
            chunk,
        ) == StepView::ReadMore,
        head_length(bytes + chunk) is Some && !all_arrived(bytes + chunk) ==> step_after(
            bytes,
            chunk,
        ) == StepView::ReadMore,
{
}

/// Which header fields are sent on is decided field by field: all but `authorization`, `host`,
/// `connection` and `content-length`, in whatever case these are written.
pub proof fn law_fields_are_sent_on_one_by_one(
    before: Seq<(Seq<char>, Seq<char>)>,
    header: (Seq<char>, Seq<char>),
)
    ensures
        forwarded(before.push(header)) == (if text::ascii_lower(header.0) == "authorization"@
            || text::ascii_lower(header.0) == "host"@ || text::ascii_lower(header.0)
            == "connection"@ || text::ascii_lower(header.0) == "content-length"@ {
            forwarded(before)
        } else {
            forwarded(before).push(header)
        }),
        forwarded(Seq::<(Seq<char>, Seq<char>)>::empty()).len() == 0,
{
    reveal(Seq::filter);
    assert(before.push(header).drop_last() =~= before);
}

/// What a client has sent of an announced body is kept if the rest does not come.
pub proof fn law_partial_body_is_kept(
    head: Seq<u8>,
    body: Seq<u8>,
    announced: nat,
    first: Seq<char>,
    before: Seq<Seq<char>>,
    after: Seq<Seq<char>>,
)
    requires
        is_whole_head(head),
        text::lines_of(text::lossy_text(head)) == seq![first] + (before.push(
            "Content-Length: "@ + text::decimal(announced),
        ) + after),
        no_line_names(before, "Content-Length"@),
        no_line_names(before, "content-length"@),
        no_line_names(after, "Content-Length"@),
        no_line_names(after, "content-length"@),
        body.len() <= announced <= usize::MAX,
    ensures
        arrived_request(request_bytes(head, body)).body == body,
        step_after(request_bytes(head, body), seq![]) == StepView::Complete(
            arrived_request(request_bytes(head, body)),
        ),
{
    let fields = before.push("Content-Length: "@ + text::decimal(announced)) + after;
    assert((seq![first] + fields).drop_first() =~= fields);
    law_announced_length(before, after, announced);
    lemma_whole_head(head, body);
    assert(arrived_request(request_bytes(head, body)).body =~= body);
}

/// A request keeps its method, its path, its header fields and its body.
pub proof fn law_request_is_kept(request: ParsedHttpRequest, i: int)
    ensures
        request@.head.method == request.method@,
        request@.head.path == request.path@,
        request@.body == request.body@,
        request@.head.headers.len() == request.headers@.len(),
        0 <= i < request.headers@.len() ==> request@.head.headers[i] == (
            request.headers@[i].0@,
            request.headers@[i].1@,
        ),
        ReadStep::Complete(request)@ == StepView::Complete(request@),
{
}

} // verus!
