//! The handling of one connection, as a state machine: read, parse,
//! resolve, serialize, write, close.
//!
//! The machine decides; its caller does the work. Each action names one
//! piece of outside work, and the event that reports how that work went
//! is handed back to `Connection::step`.

use crate::content::{
    default_document, extension, kind_of_path, lemma_fixed_documents_are_html,
    lemma_image_extensions, not_found_document, not_found_path, resolve, resolved, ContentType,
    SLASH,
};
use crate::request::{is_space, is_token, lemma_parse_request_line, parse_request_bytes, parsed};
use crate::response::{
    cache_control_name, create_response, format_response_as_bytes, has_name, header_set,
    lemma_cache_control_for_images_only, response_for, wire_format, Status,
};
use vstd::prelude::*;
use vstd::slice::slice_to_vec;
use vstd::string::StringSliceAdditionalSpecFns;

verus! {

/// The most bytes that are read of a request.
pub const READ_LIMIT: usize = 8192;

/// How outside work failed.
#[derive(Clone, Copy, Debug, PartialEq, Eq, Structural)]
pub enum IoFailure {
    /// The peer reset the connection.
    ConnectionReset,
    /// Any other failure.
    Other,
}

/// How the handling of a connection ended.
#[derive(Clone, Copy, Debug, PartialEq, Eq, Structural)]
pub enum Outcome {
    /// A response was written in full.
    Served,
    /// Nothing is owed and nothing is reported: the peer sent nothing, or
    /// it reset the connection.
    Ignored,
    /// Outside work failed, and the caller reports the failure.
    Failed,
    /// An event arrived that the stage did not await.
    Unexpected,
}

/// Which path decides the kind of a body that stands in for absent
/// content, and with the kind its `Content-Type` and `Cache-Control`.
///
/// The two policies differ where the requested path and the not-found
/// document differ in kind. For a request of an absent `/missing.png`,
/// `Requested` sends the not-found document as `image/png` with caching
/// advice, and `Served` sends it as `text/html` without.
#[derive(Clone, Copy, Debug, PartialEq, Eq, Structural)]
pub enum KindSource {
    /// The path that was requested.
    Requested,
    /// The not-found document that is served in its place.
    Served,
}

/// Where the handling of a connection stands, as mathematical data.
pub enum StageView {
    Reading,
    Probing { path: Seq<u8> },
    Loading { status: Status, kind: Option<ContentType> },
    Writing,
    Closed,
}

/// Where the handling of a connection stands.
#[derive(Debug, PartialEq, Eq)]
pub enum Stage {
    /// The request is awaited.
    Reading,
    /// It is awaited whether the file at `path` exists.
    Probing { path: Vec<u8> },
    /// The bytes of the file to serve are awaited.
    Loading { status: Status, kind: Option<ContentType> },
    /// The end of the write is awaited.
    Writing,
    /// Nothing is awaited any more.
    Closed,
}

impl View for Stage {
    type V = StageView;

    open spec fn view(&self) -> StageView {
        match self {
            Stage::Reading => StageView::Reading,
            Stage::Probing { path } => StageView::Probing { path: path@ },
            Stage::Loading { status, kind } => StageView::Loading { status: *status, kind: *kind },
            Stage::Writing => StageView::Writing,
            Stage::Closed => StageView::Closed,
        }
    }
}

/// What outside work reports, as mathematical data.
pub enum EventView {
    Received(Seq<u8>),
    Exists(bool),
    Loaded(Seq<u8>),
    Written,
    Failed(IoFailure),
}

/// What outside work reports.
#[derive(Debug, PartialEq, Eq)]
pub enum Event {
    /// One read gave these bytes; none, where the peer had closed.
    Received(Vec<u8>),
    /// Whether the probed file exists.
    Exists(bool),
    /// The whole content of the file.
    Loaded(Vec<u8>),
    /// The response was written in full.
    Written,
    /// The work failed.
    Failed(IoFailure),
}

impl View for Event {
    type V = EventView;

    open spec fn view(&self) -> EventView {
        match self {
            Event::Received(bytes) => EventView::Received(bytes@),
            Event::Exists(found) => EventView::Exists(*found),
            Event::Loaded(bytes) => EventView::Loaded(bytes@),
            Event::Written => EventView::Written,
            Event::Failed(failure) => EventView::Failed(*failure),
        }
    }
}

/// The outside work to do next, as mathematical data.
pub enum ActionView {
    Read(usize),
    Probe(Seq<u8>),
    Load(Seq<u8>),
    Write(Seq<u8>),
    Close(Outcome),
}

/// The outside work to do next.
#[derive(Debug, PartialEq, Eq)]
pub enum Action {
    /// Read once from the connection, at most this many bytes.
    Read(usize),
    /// Find out whether this file exists below the content root.
    Probe(Vec<u8>),
    /// Read the whole of this file below the content root.
    Load(Vec<u8>),
    /// Write these bytes to the connection.
    Write(Vec<u8>),
    /// Release the connection.
    Close(Outcome),
}

impl View for Action {
    type V = ActionView;

    open spec fn view(&self) -> ActionView {
        match self {
            Action::Read(limit) => ActionView::Read(*limit),
            Action::Probe(path) => ActionView::Probe(path@),
            Action::Load(path) => ActionView::Load(path@),
            Action::Write(bytes) => ActionView::Write(bytes@),
            Action::Close(outcome) => ActionView::Close(*outcome),
        }
    }
}

/// How handling ends after a failure: a reset connection is dropped in
/// silence, any other failure is reported.
pub open spec fn failure_outcome(failure: IoFailure) -> Outcome {
    match failure {
        IoFailure::ConnectionReset => Outcome::Ignored,
        IoFailure::Other => Outcome::Failed,
    }
}

/// The response to a request that could not be parsed: a client error
/// without a body.
pub open spec fn bad_request_response() -> crate::response::ResponseView {
    response_for(Status::BadRequest, None, Seq::empty())
}

/// What follows the read. No bytes: the connection is closed and nothing
/// is sent. A request that parses: its file is probed. Any other input: a
/// client-error response is written.
pub open spec fn after_received(input: Seq<u8>) -> (StageView, ActionView) {
    if input.len() == 0 {
        (StageView::Closed, ActionView::Close(Outcome::Ignored))
    } else {
        match parsed(input) {
            Ok(request) => (
                StageView::Probing { path: resolved(request.path) },
                ActionView::Probe(resolved(request.path)),
            ),
            Err(_) => (StageView::Writing, ActionView::Write(wire_format(bad_request_response()))),
        }
    }
}

/// The kind of the body that stands in for absent content at `path`.
pub open spec fn substitute_kind(policy: KindSource, path: Seq<u8>) -> Option<ContentType> {
    match policy {
        KindSource::Requested => kind_of_path(path),
        KindSource::Served => kind_of_path(not_found_document()),
    }
}

/// What follows the probe. A file that exists is loaded and served as
/// found. In place of an absent file the not-found document is loaded and
/// served as not found.
pub open spec fn after_probe(policy: KindSource, path: Seq<u8>, found: bool) -> (
    StageView,
    ActionView,
) {
    if found {
        (
            StageView::Loading { status: Status::Success, kind: kind_of_path(path) },
            ActionView::Load(path),
        )
    } else {
        (
            StageView::Loading { status: Status::NotFound, kind: substitute_kind(policy, path) },
            ActionView::Load(not_found_document()),
        )
    }
}

/// What follows the load: the response with the file's bytes as its body
/// is written.
pub open spec fn after_loaded(status: Status, kind: Option<ContentType>, body: Seq<u8>) -> (
    StageView,
    ActionView,
) {
    (StageView::Writing, ActionView::Write(wire_format(response_for(status, kind, body))))
}

/// The transition of the machine: the next stage and the work to do.
///
/// A failure closes the connection from any stage. An event that the
/// stage does not await closes it as unexpected, and so does any event
/// after it was closed.
pub open spec fn next_step(policy: KindSource, stage: StageView, event: EventView) -> (
    StageView,
    ActionView,
) {
    match (stage, event) {
        (StageView::Closed, _) => (StageView::Closed, ActionView::Close(Outcome::Unexpected)),
        (_, EventView::Failed(failure)) => (
            StageView::Closed,
            ActionView::Close(failure_outcome(failure)),
        ),
        (StageView::Reading, EventView::Received(input)) => after_received(input),
        (StageView::Probing { path }, EventView::Exists(found)) => after_probe(policy, path, found),
        (StageView::Loading { status, kind }, EventView::Loaded(body)) => after_loaded(
            status,
            kind,
            body,
        ),
        (StageView::Writing, EventView::Written) => (
            StageView::Closed,
            ActionView::Close(Outcome::Served),
        ),
        _ => (StageView::Closed, ActionView::Close(Outcome::Unexpected)),
    }
}

/// The handling of one connection.
#[derive(Debug, PartialEq, Eq)]
pub struct Connection {
    pub policy: KindSource,
    pub stage: Stage,
}

impl Connection {
    /// Starts the handling of an accepted connection: the first work is to
    /// read the request.
    pub fn open(policy: KindSource) -> (start: (Connection, Action))
        ensures
            start.0.policy == policy,
            start.0.stage@ == StageView::Reading,
            start.1@ == ActionView::Read(READ_LIMIT),
    {
        (Connection { policy, stage: Stage::Reading }, Action::Read(READ_LIMIT))
    }

    /// Tells whether the connection is closed.
    pub fn is_closed(&self) -> (closed: bool)
        ensures
            closed == (self.stage@ == StageView::Closed),
    {
        match self.stage {
            Stage::Closed => true,
            _ => false,
        }
    }

    /// Takes the report of the last work and decides on the next.
    pub fn step(self, event: Event) -> (next: (Connection, Action))
        ensures
            next.0.policy == self.policy,
            (next.0.stage@, next.1@) == next_step(self.policy, self.stage@, event@),
    {
        let policy = self.policy;
        let (stage, action) = match (self.stage, event) {
            (Stage::Closed, _) => (Stage::Closed, Action::Close(Outcome::Unexpected)),
            (_, Event::Failed(failure)) => {
                let outcome = match failure {
                    IoFailure::ConnectionReset => Outcome::Ignored,
                    IoFailure::Other => Outcome::Failed,
                };
                (Stage::Closed, Action::Close(outcome))
            },
            (Stage::Reading, Event::Received(input)) => on_received(input.as_slice()),
            (Stage::Probing { path }, Event::Exists(found)) => on_probe(policy, path, found),
            (Stage::Loading { status, kind }, Event::Loaded(body)) => {
                let response = create_response(status, kind, body);
                (Stage::Writing, Action::Write(format_response_as_bytes(response)))
            },
            (Stage::Writing, Event::Written) => (Stage::Closed, Action::Close(Outcome::Served)),
            _ => (Stage::Closed, Action::Close(Outcome::Unexpected)),
        };
        (Connection { policy, stage }, action)
    }
}

/// Decides what follows the read of `input`.
fn on_received(input: &[u8]) -> (next: (Stage, Action))
    ensures
        (next.0@, next.1@) == after_received(input@),
{
    if input.len() == 0 {
        return (Stage::Closed, Action::Close(Outcome::Ignored));
    }
    match parse_request_bytes(input) {
        Ok(request) => {
            let path = resolve(request.path.as_slice());
            let probe = slice_to_vec(path.as_slice());
            (Stage::Probing { path }, Action::Probe(probe))
        },
        Err(_) => {
            let response = create_response(Status::BadRequest, None, Vec::new());
            (Stage::Writing, Action::Write(format_response_as_bytes(response)))
        },
    }
}

/// Decides what follows the probe of `path`.
fn on_probe(policy: KindSource, path: Vec<u8>, found: bool) -> (next: (Stage, Action))
    ensures
        (next.0@, next.1@) == after_probe(policy, path@, found),
{
    if found {
        let kind = ContentType::of_path(path.as_slice());
        (Stage::Loading { status: Status::Success, kind }, Action::Load(path))
    } else {
        let substitute = not_found_path();
        let kind = match policy {
            KindSource::Requested => ContentType::of_path(path.as_slice()),
            KindSource::Served => ContentType::of_path(substitute.as_slice()),
        };
        (Stage::Loading { status: Status::NotFound, kind }, Action::Load(substitute))
    }
}

/// How far a stage is along the way from the read to the close.
pub open spec fn progress(stage: StageView) -> nat {
    match stage {
        StageView::Reading => 0,
        StageView::Probing { .. } => 1,
        StageView::Loading { .. } => 2,
        StageView::Writing => 3,
        StageView::Closed => 4,
    }
}

/// The machine never goes back: every step from a stage that is not
/// closed leads to a later stage, a closed connection stays closed, and
/// the action is to close exactly when the next stage is closed.
pub proof fn lemma_steps_move_forward(policy: KindSource, stage: StageView, event: EventView)
    ensures
        stage != StageView::Closed ==> progress(next_step(policy, stage, event).0) > progress(
            stage,
        ),
        stage == StageView::Closed ==> next_step(policy, stage, event).0 == StageView::Closed,
        next_step(policy, stage, event).0 == StageView::Closed <==> next_step(
            policy,
            stage,
            event,
        ).1 is Close,
{
}

/// A request whose first line holds a method, one space and a path is
/// answered by probing the file that the path resolves to: the default
/// document for the root path, else the path without its leading
/// separator.
pub proof fn lemma_request_is_probed(method: Seq<u8>, path: Seq<u8>, rest: Seq<u8>)
    requires
        is_token(method),
        is_token(path),
        rest.len() == 0 || is_space(rest[0]),
    ensures
        after_received(method + seq![32u8] + path + rest) == (
            StageView::Probing { path: resolved(path) },
            ActionView::Probe(resolved(path)),
        ),
        path == seq![SLASH] ==> resolved(path) == default_document(),
        path != seq![SLASH] && path[0] == SLASH ==> resolved(path) == path.skip(1),
{
    lemma_parse_request_line(method, path, rest);
}

/// Whatever the machine writes is a response that was built for some
/// status, kind and body, so it carries the length of that very body.
pub proof fn lemma_every_write_is_a_response(
    policy: KindSource,
    stage: StageView,
    event: EventView,
)
    requires
        next_step(policy, stage, event).1 is Write,
    ensures
        exists|status: Status, kind: Option<ContentType>, body: Seq<u8>|
            next_step(policy, stage, event).1 == ActionView::Write(
                #[trigger] wire_format(response_for(status, kind, body)),
            ),
{
}

/// Content that exists is served as found, with the file's own bytes as
/// the body. Absent content is served as not found, with the bytes of the
/// not-found document as the body. Either way the body is sent as it was
/// loaded.
pub proof fn lemma_served_body(policy: KindSource, path: Seq<u8>, found: bool, bytes: Seq<u8>)
    ensures
        ({
            let probed = next_step(
                policy,
                StageView::Probing { path },
                EventView::Exists(found),
            );
            let loaded = next_step(policy, probed.0, EventView::Loaded(bytes));
            let status = if found {
                Status::Success
            } else {
                Status::NotFound
            };
            let kind = if found {
                kind_of_path(path)
            } else {
                substitute_kind(policy, path)
            };
            &&& probed.1 == ActionView::Load(
                if found {
                    path
                } else {
                    not_found_document()
                },
            )
            &&& loaded.1 == ActionView::Write(wire_format(response_for(status, kind, bytes)))
            &&& response_for(status, kind, bytes).status == status
            &&& response_for(status, kind, bytes).body == bytes
        }),
{
}

/// A response carries `Cache-Control` exactly if the extension of the
/// path that decides its kind is `png`, `jpg` or `ico`.
pub proof fn lemma_cache_control_by_extension(path: Seq<u8>, length: nat)
    ensures
        has_name(header_set(kind_of_path(path), length), cache_control_name()) <==> (extension(
            path,
        ).is_some() && (extension(path).unwrap() == "png".spec_bytes() || extension(path).unwrap()
            == "jpg".spec_bytes() || extension(path).unwrap() == "ico".spec_bytes())),
{
    lemma_cache_control_for_images_only(kind_of_path(path), length);
    if extension(path).is_some() {
        lemma_image_extensions(extension(path).unwrap());
    }
}

/// Under the policy `Served`, the body that stands in for absent content
/// is typed as HTML and carries no `Cache-Control`, whatever was
/// requested.
pub proof fn lemma_served_policy_substitute(path: Seq<u8>, length: nat)
    ensures
        substitute_kind(KindSource::Served, path) == Some(ContentType::Html),
        !has_name(
            header_set(substitute_kind(KindSource::Served, path), length),
            cache_control_name(),
        ),
{
    lemma_fixed_documents_are_html();
    lemma_cache_control_for_images_only(Some(ContentType::Html), length);
}

} // verus!
