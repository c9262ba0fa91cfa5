use arpy::client::{check_reply, http_error, Error as ClientError, ReplyError};
use arpy::http::{
    error, mime_type, rpc_route, visible_ascii, ArpyRequest, ArpyResponse, MimeTypeError,
    NOT_ACCEPTABLE, UNSUPPORTED_MEDIA_TYPE,
};
use arpy::MimeType;
use std::str::FromStr;
use arpy::rpc::{accepted_mime_type, MimeType as Legacy};

#[test]
fn mime_type_as_str() {
    assert_eq!(MimeType::Cbor.as_str(), "application/cbor");
    assert_eq!(MimeType::Json.as_str(), "application/json");
    assert_eq!(MimeType::XwwwFormUrlencoded.as_str(), "application/x-www-form-urlencoded");
}

#[test]
fn mime_type_from_str_accepts_parameters() {
    assert_eq!(MimeType::from_str("application/json; charset=utf-8"), Ok(MimeType::Json));
    assert_eq!(MimeType::from_str("application/cbor"), Ok(MimeType::Cbor));
    assert_eq!(
        MimeType::from_str("application/x-www-form-urlencoded"),
        Ok(MimeType::XwwwFormUrlencoded)
    );
    assert_eq!(MimeType::from_str("text/html"), Err(()));
    assert_eq!(MimeType::from_str("application/cbo"), Err(()));
}

#[test]
fn mime_type_round_trip() {
    for m in [MimeType::Cbor, MimeType::Json, MimeType::XwwwFormUrlencoded] {
        assert_eq!(m.as_str().parse::<MimeType>(), Ok(m));
    }
}

#[test]
fn legacy_mime_type() {
    assert_eq!(Legacy::Cbor.as_str(), "application/cbor");
    assert_eq!(Legacy::from_str("application/json"), Ok(Legacy::Json));
    assert_eq!(Legacy::from_str("application/x-www-form-urlencoded"), Err(()));
}

#[test]
fn negotiation_defaults_to_cbor() {
    assert_eq!(mime_type(None), Ok(MimeType::Cbor));
}

#[test]
fn negotiation_reads_header() {
    assert_eq!(mime_type(Some("application/json")), Ok(MimeType::Json));
    assert_eq!(
        mime_type(Some("application/x-www-form-urlencoded")),
        Ok(MimeType::XwwwFormUrlencoded)
    );
}

#[test]
fn negotiation_errors() {
    let unsupported = mime_type(Some("text/plain\t"));
    assert_eq!(unsupported, Err(MimeTypeError::UnsupportedMediaType("text/plain\t".to_string())));
    assert_eq!(unsupported.unwrap_err().status_code(), UNSUPPORTED_MEDIA_TYPE);
    let not_ascii = mime_type(Some("application/cbor\u{e9}"));
    assert_eq!(not_ascii, Err(MimeTypeError::NotAcceptable));
    assert_eq!(not_ascii.unwrap_err().status_code(), NOT_ACCEPTABLE);
    assert_eq!(mime_type(Some("application/json\n")), Err(MimeTypeError::NotAcceptable));
}

#[test]
fn visible_ascii_checks() {
    assert!(visible_ascii("abc ~\t"));
    assert!(!visible_ascii("a\u{7f}"));
    assert!(!visible_ascii("\u{fffd}"));
    assert!(visible_ascii(""));
}

#[test]
fn error_response() {
    let e = error(406, "failed to convert header to a str".to_string());
    assert_eq!(e.status, 406);
    assert_eq!(e.body, "failed to convert header to a str");
}

#[test]
fn route_path() {
    assert_eq!(rpc_route("/http", "add"), "/http/add");
    assert_eq!(rpc_route("http://127.0.0.1:9090/api", "try-multiply"), "http://127.0.0.1:9090/api/try-multiply");
}

#[test]
fn arpy_response_parts() {
    let response = ArpyResponse::new(MimeType::Json, 7);
    assert_eq!(response.into_parts(), (MimeType::Json, 7));
    let ArpyRequest(x) = ArpyRequest(3);
    assert_eq!(x, 3);
}

#[test]
fn reply_checks() {
    assert_eq!(check_reply(200, Some("application/cbor"), MimeType::Cbor), Ok(()));
    assert_eq!(check_reply(204, None, MimeType::Cbor), Ok(()));
    assert_eq!(check_reply(404, Some("application/cbor"), MimeType::Cbor), Err(ReplyError::Http(404)));
    assert_eq!(check_reply(199, None, MimeType::Cbor), Err(ReplyError::Http(199)));
    assert_eq!(check_reply(300, None, MimeType::Cbor), Err(ReplyError::Http(300)));
    assert_eq!(
        check_reply(200, Some("application/cbor; x=y"), MimeType::Cbor),
        Err(ReplyError::UnknownContentType("application/cbor; x=y".to_string()))
    );
}

#[test]
fn http_error_text() {
    match http_error(503) {
        ClientError::Receive(m) => assert_eq!(m, "HTTP error code 503"),
        other => panic!("unexpected {other:?}"),
    }
}

#[test]
fn client_error_constructors() {
    assert!(matches!(ClientError::send("down"), ClientError::Send(m) if m == "down"));
    assert!(matches!(ClientError::receive(5), ClientError::Receive(m) if m == "5"));
    assert!(matches!(
        ClientError::deserialize_result("Unknown message id"),
        ClientError::DeserializeResult(m) if m == "Unknown message id"
    ));
}

#[test]
fn legacy_accept_negotiation() {
    assert_eq!(accepted_mime_type(Some("application/json")), Some(Legacy::Json));
    assert_eq!(accepted_mime_type(Some("application/cbor; q=1")), Some(Legacy::Cbor));
    // Without the header the request is refused, unlike the current protocol.
    assert_eq!(accepted_mime_type(None), None);
    assert_eq!(accepted_mime_type(Some("text/plain")), None);
    assert_eq!(accepted_mime_type(Some("application/x-www-form-urlencoded")), None);
    assert_eq!(accepted_mime_type(Some("application/json\u{7f}")), None);
}

#[test]
fn status_texts_in_decimal() {
    for (status, text) in [(0u16, "0"), (9, "9"), (10, "10"), (404, "404"), (65535, "65535")] {
        match http_error(status) {
            ClientError::Receive(m) => assert_eq!(m, format!("HTTP error code {text}")),
            _ => panic!("expected a receive error"),
        }
    }
}
