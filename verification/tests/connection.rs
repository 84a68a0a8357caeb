use static_server::connection::{
    Action, Connection, Event, IoFailure, KindSource, Outcome, Stage, READ_LIMIT,
};
use static_server::content::ContentType;
use static_server::response::Status;

/// Runs a connection against a content root that holds `index.html` and
/// `404.html`, and returns what was written and how it ended.
fn serve(
    policy: KindSource,
    request: &[u8],
    index: &[u8],
    not_found: &[u8],
) -> (Option<Vec<u8>>, Outcome) {
    let (mut connection, mut action) = Connection::open(policy);
    let mut written = None;
    let mut probed = false;
    for _ in 0..8 {
        let event = match action {
            Action::Read(limit) => {
                assert_eq!(limit, 8192);
                Event::Received(request.to_vec())
            }
            Action::Probe(path) => {
                probed = true;
                Event::Exists(path == b"index.html" || path == b"404.html")
            }
            Action::Load(path) => {
                assert!(probed);
                if path == b"index.html" {
                    Event::Loaded(index.to_vec())
                } else if path == b"404.html" {
                    Event::Loaded(not_found.to_vec())
                } else {
                    Event::Failed(IoFailure::Other)
                }
            }
            Action::Write(bytes) => {
                written = Some(bytes);
                Event::Written
            }
            Action::Close(outcome) => {
                assert!(connection.is_closed());
                return (written, outcome);
            }
        };
        let next = connection.step(event);
        connection = next.0;
        action = next.1;
    }
    panic!("the connection was not closed");
}

#[test]
fn read_limit() {
    assert_eq!(READ_LIMIT, 8192);
}

#[test]
fn connection_starts_by_reading() {
    let (connection, action) = Connection::open(KindSource::Requested);
    assert_eq!(connection.stage, Stage::Reading);
    assert_eq!(connection.policy, KindSource::Requested);
    assert_eq!(action, Action::Read(8192));
    assert!(!connection.is_closed());
}

#[test]
fn root_path_serves_the_default_document() {
    let index = vec![b'i'; 50];
    let not_found = vec![b'n'; 20];
    let (written, outcome) =
        serve(KindSource::Requested, b"GET / HTTP/1.1\r\nHost: x\r\n\r\n", &index, &not_found);
    assert_eq!(outcome, Outcome::Served);
    let mut expected =
        b"HTTP/1.1 200 OK\r\nContent-Length: 50\r\nContent-Type: text/html\r\n\r\n".to_vec();
    expected.extend_from_slice(&index);
    assert_eq!(written, Some(expected));
}

#[test]
fn missing_image_serves_the_not_found_document() {
    let index = vec![b'i'; 50];
    let not_found = vec![b'n'; 20];
    let (written, outcome) =
        serve(KindSource::Requested, b"GET /missing.png HTTP/1.1\r\n\r\n", &index, &not_found);
    assert_eq!(outcome, Outcome::Served);
    let mut expected = b"HTTP/1.1 404 Not Found\r\nContent-Length: 20\r\nContent-Type: image/png\r\nCache-Control: max-age=60\r\n\r\n".to_vec();
    expected.extend_from_slice(&not_found);
    assert_eq!(written, Some(expected));
}

#[test]
fn missing_image_under_the_served_policy() {
    let index = vec![b'i'; 50];
    let not_found = vec![b'n'; 20];
    let (written, outcome) =
        serve(KindSource::Served, b"GET /missing.png HTTP/1.1\r\n\r\n", &index, &not_found);
    assert_eq!(outcome, Outcome::Served);
    let mut expected =
        b"HTTP/1.1 404 Not Found\r\nContent-Length: 20\r\nContent-Type: text/html\r\n\r\n".to_vec();
    expected.extend_from_slice(&not_found);
    assert_eq!(written, Some(expected));
}

#[test]
fn missing_file_of_unknown_kind() {
    let (written, outcome) =
        serve(KindSource::Requested, b"GET /no/such/file HTTP/1.1\r\n\r\n", b"index", b"gone");
    assert_eq!(outcome, Outcome::Served);
    assert_eq!(written, Some(b"HTTP/1.1 404 Not Found\r\nContent-Length: 4\r\n\r\ngone".to_vec()));
}

#[test]
fn named_default_document_is_served() {
    for policy in [KindSource::Requested, KindSource::Served] {
        let (written, outcome) = serve(policy, b"GET /index.html", b"<html>", b"gone");
        assert_eq!(outcome, Outcome::Served);
        assert_eq!(
            written,
            Some(b"HTTP/1.1 200 OK\r\nContent-Length: 6\r\nContent-Type: text/html\r\n\r\n<html>".to_vec())
        );
    }
}

#[test]
fn peer_that_sends_nothing_is_ignored() {
    let (written, outcome) = serve(KindSource::Requested, b"", b"index", b"gone");
    assert_eq!(written, None);
    assert_eq!(outcome, Outcome::Ignored);
}

#[test]
fn malformed_request_gets_a_client_error() {
    for request in [&b"GET"[..], b"GET\r\n/ HTTP/1.1", b"   ", b"\r\n", b"\xff\xfe"] {
        let (written, outcome) = serve(KindSource::Requested, request, b"index", b"gone");
        assert_eq!(written, Some(b"HTTP/1.1 400 Bad Request\r\nContent-Length: 0\r\n\r\n".to_vec()));
        assert_eq!(outcome, Outcome::Served);
    }
}

#[test]
fn request_is_probed_at_its_resolved_path() {
    let (connection, _) = Connection::open(KindSource::Requested);
    let (connection, action) = connection.step(Event::Received(b"GET /css/site.css HTTP/1.1".to_vec()));
    assert_eq!(action, Action::Probe(b"css/site.css".to_vec()));
    assert_eq!(connection.stage, Stage::Probing { path: b"css/site.css".to_vec() });

    let (connection, action) = connection.step(Event::Exists(true));
    assert_eq!(action, Action::Load(b"css/site.css".to_vec()));
    assert_eq!(
        connection.stage,
        Stage::Loading { status: Status::Success, kind: Some(ContentType::Css) }
    );

    let (connection, action) = connection.step(Event::Loaded(b"p{}".to_vec()));
    assert_eq!(
        action,
        Action::Write(b"HTTP/1.1 200 OK\r\nContent-Length: 3\r\nContent-Type: text/css\r\n\r\np{}".to_vec())
    );
    assert_eq!(connection.stage, Stage::Writing);

    let (connection, action) = connection.step(Event::Written);
    assert_eq!(action, Action::Close(Outcome::Served));
    assert_eq!(connection.stage, Stage::Closed);
}

#[test]
fn absent_file_is_replaced_before_the_load() {
    for (policy, kind) in [
        (KindSource::Requested, Some(ContentType::Jpg)),
        (KindSource::Served, Some(ContentType::Html)),
    ] {
        let connection = Connection { policy, stage: Stage::Probing { path: b"a/b.jpg".to_vec() } };
        let (connection, action) = connection.step(Event::Exists(false));
        assert_eq!(action, Action::Load(b"404.html".to_vec()));
        assert_eq!(connection.stage, Stage::Loading { status: Status::NotFound, kind });
        assert_eq!(connection.policy, policy);
    }
}

#[test]
fn reset_connection_is_dropped_in_silence() {
    let stages = || {
        vec![
            Stage::Reading,
            Stage::Probing { path: b"x".to_vec() },
            Stage::Loading { status: Status::Success, kind: None },
            Stage::Writing,
        ]
    };
    for stage in stages() {
        let connection = Connection { policy: KindSource::Requested, stage };
        let (connection, action) = connection.step(Event::Failed(IoFailure::ConnectionReset));
        assert_eq!(action, Action::Close(Outcome::Ignored));
        assert!(connection.is_closed());
    }
    for stage in stages() {
        let connection = Connection { policy: KindSource::Requested, stage };
        let (connection, action) = connection.step(Event::Failed(IoFailure::Other));
        assert_eq!(action, Action::Close(Outcome::Failed));
        assert!(connection.is_closed());
    }
}

#[test]
fn event_that_is_not_awaited_closes_the_connection() {
    let cases = vec![
        (Stage::Reading, Event::Exists(true)),
        (Stage::Reading, Event::Written),
        (Stage::Probing { path: b"x".to_vec() }, Event::Loaded(Vec::new())),
        (Stage::Loading { status: Status::Success, kind: None }, Event::Exists(true)),
        (Stage::Writing, Event::Received(b"GET / HTTP/1.1".to_vec())),
        (Stage::Closed, Event::Written),
        (Stage::Closed, Event::Failed(IoFailure::Other)),
        (Stage::Closed, Event::Failed(IoFailure::ConnectionReset)),
    ];
    for (stage, event) in cases {
        let connection = Connection { policy: KindSource::Served, stage };
        let (connection, action) = connection.step(event);
        assert_eq!(action, Action::Close(Outcome::Unexpected));
        assert_eq!(connection.stage, Stage::Closed);
    }
}
