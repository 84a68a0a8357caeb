//! Responses: status, header set and body, and their form on the wire.

use crate::content::ContentType;
use crate::text::{
    append_bytes, append_decimal, bytes_eq, decimal, decimal_bytes, decimal_value,
    lemma_ascii_bytes, lemma_decimal_denotes,
};
use vstd::prelude::*;
use vstd::slice::slice_to_vec;
use vstd::string::StringSliceAdditionalSpecFns;
use vstd::utf8::encode_utf8;

verus! {

/// The status of a response.
#[derive(Clone, Copy, Debug, PartialEq, Eq, Structural)]
pub enum Status {
    /// The requested content was found.
    Success,
    /// The request line could not be parsed.
    BadRequest,
    /// The requested content is absent; the not-found document is served.
    NotFound,
}

/// Looks up the canonical reason phrase of a status code with
/// `http::StatusCode::from_u16` and `http::StatusCode::canonical_reason`.
///
/// Trusted: the phrases registered for 200, 400 and 404 are `OK`,
/// `Bad Request` and `Not Found`. Nothing is claimed of other codes.
#[verifier::external_body]
fn canonical_reason(code: u16) -> (phrase: Option<&'static str>)
    ensures
        code == 200 ==> phrase.is_some() && phrase.unwrap()@ == "OK"@,
        code == 400 ==> phrase.is_some() && phrase.unwrap()@ == "Bad Request"@,
        code == 404 ==> phrase.is_some() && phrase.unwrap()@ == "Not Found"@,
{
    match http::StatusCode::from_u16(code) {
        Ok(status) => status.canonical_reason(),
        Err(_) => None,
    }
}

impl Status {
    /// The numeric status code.
    pub open spec fn number(self) -> u16 {
        match self {
            Status::Success => 200,
            Status::BadRequest => 400,
            Status::NotFound => 404,
        }
    }

    /// The canonical reason phrase.
    pub open spec fn reason(self) -> Seq<char> {
        match self {
            Status::Success => "OK"@,
            Status::BadRequest => "Bad Request"@,
            Status::NotFound => "Not Found"@,
        }
    }

    /// Returns the numeric status code.
    pub fn code(self) -> (n: u16)
        ensures
            n == self.number(),
    {
        match self {
            Status::Success => 200,
            Status::BadRequest => 400,
            Status::NotFound => 404,
        }
    }

    /// Returns the canonical reason phrase.
    pub fn reason_phrase(self) -> (phrase: &'static str)
        ensures
            phrase@ == self.reason(),
    {
        let found = canonical_reason(self.code());
        found.unwrap()
    }
}

/// A header as a pair of name and value.
pub type HeaderView = (Seq<u8>, Seq<u8>);

/// The index of the first header called `name`, or the number of headers
/// where none is.
pub open spec fn index_of(headers: Seq<HeaderView>, name: Seq<u8>) -> int
    decreases headers.len(),
{
    if headers.len() == 0 {
        0
    } else if headers[0].0 == name {
        0
    } else {
        1 + index_of(headers.drop_first(), name)
    }
}

/// Tells whether a header called `name` is present.
pub open spec fn has_name(headers: Seq<HeaderView>, name: Seq<u8>) -> bool {
    exists|i: int| 0 <= i < headers.len() && (#[trigger] headers[i]).0 == name
}

/// Tells whether no two headers share a name.
pub open spec fn distinct_names(headers: Seq<HeaderView>) -> bool {
    forall|i: int, j: int|
        0 <= i < j < headers.len() ==> (#[trigger] headers[i]).0 != (#[trigger] headers[j]).0
}

/// The header set after `name` is set to `value`: a header of that name
/// keeps its place and takes the new value, a new name goes to the end.
pub open spec fn inserted(headers: Seq<HeaderView>, name: Seq<u8>, value: Seq<u8>) -> Seq<
    HeaderView,
> {
    let at = index_of(headers, name);
    if at < headers.len() {
        headers.update(at, (name, value))
    } else {
        headers.push((name, value))
    }
}

/// `index_of` is the least index that carries the name.
pub proof fn lemma_index_of(headers: Seq<HeaderView>, name: Seq<u8>)
    ensures
        0 <= index_of(headers, name) <= headers.len(),
        index_of(headers, name) < headers.len() ==> headers[index_of(headers, name)].0 == name,
        forall|k: int| 0 <= k < index_of(headers, name) ==> (#[trigger] headers[k]).0 != name,
        has_name(headers, name) <==> index_of(headers, name) < headers.len(),
    decreases headers.len(),
{
    if headers.len() > 0 && headers[0].0 != name {
        let rest = headers.drop_first();
        lemma_index_of(rest, name);
        assert forall|k: int| 0 <= k < index_of(headers, name) implies (#[trigger] headers[k]).0
            != name by {
            if k > 0 {
                assert(headers[k] == rest[k - 1]);
            }
        }
        if has_name(headers, name) {
            let i = choose|i: int| 0 <= i < headers.len() && (#[trigger] headers[i]).0 == name;
            assert(rest[i - 1].0 == name);
        }
    }
}

/// Setting a header keeps the names distinct, and makes the name present
/// with the value given.
pub proof fn lemma_inserted(headers: Seq<HeaderView>, name: Seq<u8>, value: Seq<u8>)
    ensures
        distinct_names(headers) ==> distinct_names(inserted(headers, name, value)),
        has_name(inserted(headers, name, value), name),
        inserted(headers, name, value)[index_of(inserted(headers, name, value), name)] == (
            name,
            value,
        ),
{
    lemma_index_of(headers, name);
    let after = inserted(headers, name, value);
    let at = index_of(headers, name);
    assert(after[at] == (name, value));
    lemma_index_of(after, name);
    if distinct_names(headers) {
        assert forall|i: int, j: int| 0 <= i < j < after.len() implies (#[trigger] after[i]).0 != (
        #[trigger] after[j]).0 by {
            if i != at && i < headers.len() {
                assert(after[i] == headers[i]);
            }
            if j != at && j < headers.len() {
                assert(after[j] == headers[j]);
            }
        }
    }
}

/// An ordered set of headers, each a name and a value. Headers stay in
/// the order in which their names were first set, and no name occurs
/// twice.
#[derive(Debug, PartialEq, Eq)]
pub struct Headers {
    entries: Vec<(Vec<u8>, Vec<u8>)>,
}

impl View for Headers {
    type V = Seq<HeaderView>;

    closed spec fn view(&self) -> Seq<HeaderView> {
        Seq::new(self.entries@.len(), |i: int| (self.entries@[i].0@, self.entries@[i].1@))
    }
}

impl Headers {
    /// No name occurs twice.
    #[verifier::type_invariant]
    closed spec fn inv(&self) -> bool {
        distinct_names(self@)
    }

    /// Returns an empty header set.
    pub fn new() -> (headers: Headers)
        ensures
            headers@ == Seq::<HeaderView>::empty(),
            distinct_names(headers@),
    {
        let entries: Vec<(Vec<u8>, Vec<u8>)> = Vec::new();
        Headers { entries }
    }

    /// Returns the number of headers.
    pub fn len(&self) -> (n: usize)
        ensures
            n == self@.len(),
    {
        self.entries.len()
    }

    /// Returns the name and the value of the header at `index`, where there
    /// is one.
    pub fn entry(&self, index: usize) -> (header: Option<(&[u8], &[u8])>)
        ensures
            header.is_some() == (index < self@.len()),
            header.is_some() ==> header.unwrap().0@ == self@[index as int].0 && header.unwrap().1@
                == self@[index as int].1,
    {
        if index < self.entries.len() {
            Some((self.entries[index].0.as_slice(), self.entries[index].1.as_slice()))
        } else {
            None
        }
    }

    /// Returns the index of the first header called `name`, or the number
    /// of headers where none is.
    pub fn position(&self, name: &[u8]) -> (at: usize)
        ensures
            at == index_of(self@, name@),
            at <= self@.len(),
            distinct_names(self@),
    {
        proof {
            use_type_invariant(self);
        }
        let mut i: usize = 0;
        while i < self.entries.len()
            invariant
                i <= self.entries@.len(),
                forall|k: int| 0 <= k < i ==> (#[trigger] self@[k]).0 != name@,
            ensures
                i == self.entries@.len() || self@[i as int].0 == name@,
            decreases self.entries@.len() - i,
        {
            if bytes_eq(self.entries[i].0.as_slice(), name) {
                break;
            }
            i += 1;
        }
        proof {
            lemma_index_of(self@, name@);
        }
        i
    }

    /// Returns the value of the header called `name`.
    pub fn get(&self, name: &[u8]) -> (value: Option<&[u8]>)
        ensures
            value.is_some() == has_name(self@, name@),
            value.is_some() ==> value.unwrap()@ == self@[index_of(self@, name@)].1,
    {
        let at = self.position(name);
        proof {
            lemma_index_of(self@, name@);
        }
        if at < self.entries.len() {
            Some(self.entries[at].1.as_slice())
        } else {
            None
        }
    }

    /// Sets the header called `name` to `value`.
    pub fn insert(&mut self, name: Vec<u8>, value: Vec<u8>)
        ensures
            final(self)@ == inserted(old(self)@, name@, value@),
            distinct_names(old(self)@),
            distinct_names(final(self)@),
    {
        let at = self.position(name.as_slice());
        proof {
            use_type_invariant(&*self);
            lemma_inserted(self@, name@, value@);
        }
        let ghost before = self@;
        let ghost after = inserted(before, name@, value@);
        let mut entries: Vec<(Vec<u8>, Vec<u8>)> = Vec::new();
        std::mem::swap(&mut entries, &mut self.entries);
        if at < entries.len() {
            entries.set(at, (name, value));
        } else {
            entries.push((name, value));
        }
        assert(Seq::new(entries@.len(), |i: int| (entries@[i].0@, entries@[i].1@)) =~= after);
        self.entries = entries;
    }
}

/// The name of the header that gives the length of the body.
pub open spec fn content_length_name() -> Seq<u8> {
    "Content-Length".spec_bytes()
}

/// The name of the header that gives the media type of the body.
pub open spec fn content_type_name() -> Seq<u8> {
    "Content-Type".spec_bytes()
}

/// The name of the header that advises clients on caching.
pub open spec fn cache_control_name() -> Seq<u8> {
    "Cache-Control".spec_bytes()
}

/// The caching advice given for images: keep for sixty seconds.
pub open spec fn cache_max_age() -> Seq<u8> {
    "max-age=60".spec_bytes()
}

/// The three header names differ from one another.
pub proof fn lemma_header_names_differ()
    ensures
        content_length_name() != content_type_name(),
        content_length_name() != cache_control_name(),
        content_type_name() != cache_control_name(),
{
    reveal_strlit("Content-Length");
    reveal_strlit("Content-Type");
    reveal_strlit("Cache-Control");
    lemma_ascii_bytes("Content-Length");
    lemma_ascii_bytes("Content-Type");
    lemma_ascii_bytes("Cache-Control");
}

/// The headers of a response whose body has `length` bytes and the media
/// type of `kind`: the length always, the media type where the kind is
/// known, and the caching advice for image kinds only.
pub open spec fn header_set(kind: Option<ContentType>, length: nat) -> Seq<HeaderView> {
    let sized = seq![(content_length_name(), decimal(length))];
    match kind {
        None => sized,
        Some(ty) => {
            let typed = sized.push((content_type_name(), ty.media_type_bytes()));
            if ty.image() {
                typed.push((cache_control_name(), cache_max_age()))
            } else {
                typed
            }
        },
    }
}

/// A response as mathematical data.
pub struct ResponseView {
    pub status: Status,
    pub headers: Seq<HeaderView>,
    pub body: Seq<u8>,
}

/// A response: status, headers and body.
#[derive(Debug, PartialEq, Eq)]
pub struct ResponsePayload {
    pub status: Status,
    pub headers: Headers,
    pub body: Vec<u8>,
}

impl View for ResponsePayload {
    type V = ResponseView;

    open spec fn view(&self) -> ResponseView {
        ResponseView { status: self.status, headers: self.headers@, body: self.body@ }
    }
}

/// The response that serves `body` with the given status and kind.
pub open spec fn response_for(status: Status, kind: Option<ContentType>, body: Seq<u8>)
    -> ResponseView {
    ResponseView { status, headers: header_set(kind, body.len()), body }
}

/// In every response the first header is `Content-Length`, no other header
/// has that name, and its value is the decimal notation of the body's
/// length in bytes.
pub proof fn lemma_content_length_is_body_length(
    status: Status,
    kind: Option<ContentType>,
    body: Seq<u8>,
)
    ensures
        distinct_names(response_for(status, kind, body).headers),
        index_of(response_for(status, kind, body).headers, content_length_name()) == 0,
        response_for(status, kind, body).headers[0] == (
            content_length_name(),
            decimal(response_for(status, kind, body).body.len()),
        ),
        decimal_value(response_for(status, kind, body).headers[0].1) == response_for(
            status,
            kind,
            body,
        ).body.len(),
{
    lemma_header_names_differ();
    lemma_decimal_denotes(body.len());
}

/// `Cache-Control` is present exactly for the image kinds, and its value
/// is then `max-age=60`.
pub proof fn lemma_cache_control_for_images_only(kind: Option<ContentType>, length: nat)
    ensures
        has_name(header_set(kind, length), cache_control_name()) <==> (kind.is_some()
            && kind.unwrap().image()),
        has_name(header_set(kind, length), cache_control_name()) ==> header_set(
            kind,
            length,
        )[index_of(header_set(kind, length), cache_control_name())].1 == cache_max_age(),
{
    lemma_header_names_differ();
    let headers = header_set(kind, length);
    lemma_index_of(headers, cache_control_name());
    if kind.is_some() && kind.unwrap().image() {
        assert(headers[2].0 == cache_control_name());
    }
}

/// `Content-Type` is present exactly where the kind is known, and its
/// value is then the kind's media type.
pub proof fn lemma_content_type_for_known_kinds(kind: Option<ContentType>, length: nat)
    ensures
        has_name(header_set(kind, length), content_type_name()) <==> kind.is_some(),
        kind.is_some() ==> header_set(kind, length)[index_of(
            header_set(kind, length),
            content_type_name(),
        )].1 == kind.unwrap().media_type_bytes(),
{
    lemma_header_names_differ();
    let headers = header_set(kind, length);
    lemma_index_of(headers, content_type_name());
    if kind.is_some() {
        assert(headers[1].0 == content_type_name());
    }
}

/// Builds the response that serves `body` with the given status and kind.
pub fn create_response(status: Status, kind: Option<ContentType>, body: Vec<u8>) -> (response:
    ResponsePayload)
    ensures
        response@ == response_for(status, kind, body@),
{
    let mut headers = Headers::new();
    proof {
        lemma_header_names_differ();
    }
    headers.insert(slice_to_vec("Content-Length".as_bytes()), decimal_bytes(body.len()));
    if let Some(ty) = kind {
        let ghost sized = headers@;
        headers.insert(
            slice_to_vec("Content-Type".as_bytes()),
            slice_to_vec(ty.as_str().as_bytes()),
        );
        assert(headers@ =~= sized.push((content_type_name(), ty.media_type_bytes()))) by {
            lemma_index_of(sized, content_type_name());
        }
        if ty.is_image() {
            let ghost typed = headers@;
            headers.insert(
                slice_to_vec("Cache-Control".as_bytes()),
                slice_to_vec("max-age=60".as_bytes()),
            );
            assert(headers@ =~= typed.push((cache_control_name(), cache_max_age()))) by {
                lemma_index_of(typed, cache_control_name());
            }
        }
    }
    ResponsePayload { status, headers, body }
}

/// The line terminator of the wire format: carriage return, line feed.
pub open spec fn crlf() -> Seq<u8> {
    seq![13u8, 10u8]
}

/// The status line: protocol version, status code and reason phrase,
/// separated by single spaces and terminated by CRLF.
pub open spec fn status_line(status: Status) -> Seq<u8> {
    "HTTP/1.1".spec_bytes() + seq![32u8] + decimal(status.number() as nat) + seq![32u8]
        + encode_utf8(status.reason()) + crlf()
}

/// One header on the wire: name, colon, space, value, CRLF.
pub open spec fn header_line(header: HeaderView) -> Seq<u8> {
    header.0 + seq![58u8, 32u8] + header.1 + crlf()
}

/// The headers on the wire, one line each, in order.
pub open spec fn header_block(headers: Seq<HeaderView>) -> Seq<u8>
    decreases headers.len(),
{
    if headers.len() == 0 {
        Seq::empty()
    } else {
        header_block(headers.drop_last()) + header_line(headers.last())
    }
}

/// A response on the wire: status line, headers, an empty line, and the
/// body as it is.
pub open spec fn wire_format(response: ResponseView) -> Seq<u8> {
    status_line(response.status) + header_block(response.headers) + crlf() + response.body
}

/// The body is the tail of the wire format: nothing follows it and
/// nothing in it is changed.
pub proof fn lemma_body_ends_wire_format(response: ResponseView)
    ensures
        wire_format(response).len() >= response.body.len(),
        wire_format(response).subrange(
            wire_format(response).len() - response.body.len(),
            wire_format(response).len() as int,
        ) == response.body,
{
}

/// Renders a response as the bytes to send.
pub fn format_response_as_bytes(response: ResponsePayload) -> (bytes: Vec<u8>)
    ensures
        bytes@ == wire_format(response@),
{
    let mut bytes: Vec<u8> = Vec::new();
    append_bytes(&mut bytes, "HTTP/1.1".as_bytes());
    bytes.push(32u8);
    append_decimal(&mut bytes, response.status.code() as usize);
    bytes.push(32u8);
    append_bytes(&mut bytes, response.status.reason_phrase().as_bytes());
    bytes.push(13u8);
    bytes.push(10u8);
    let count = response.headers.len();
    let mut i: usize = 0;
    while i < count
        invariant
            count == response.headers@.len(),
            i <= count,
            bytes@ == status_line(response.status) + header_block(response.headers@.take(i as int)),
        decreases count - i,
    {
        let (name, value) = response.headers.entry(i).unwrap();
        append_bytes(&mut bytes, name);
        bytes.push(58u8);
        bytes.push(32u8);
        append_bytes(&mut bytes, value);
        bytes.push(13u8);
        bytes.push(10u8);
        assert(response.headers@.take(i + 1).drop_last() =~= response.headers@.take(i as int));
        i += 1;
    }
    assert(response.headers@.take(count as int) =~= response.headers@);
    bytes.push(13u8);
    bytes.push(10u8);
    append_bytes(&mut bytes, response.body.as_slice());
    bytes
}

} // verus!
