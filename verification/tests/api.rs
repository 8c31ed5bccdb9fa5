use samply_core::api::to_debug_id;
use samply_core::api::asm_request::AsmError;
use samply_core::api::{Api, Endpoint, Error};
use samply_core::source::SourceError;

#[test]
fn endpoints_by_url() {
    assert!(matches!(Api::endpoint_for_url("/symbolicate/v5"), Ok(Endpoint::Symbolicate)));
    assert!(matches!(Api::endpoint_for_url("/source/v1"), Ok(Endpoint::Source)));
    assert!(matches!(Api::endpoint_for_url("/asm/v1"), Ok(Endpoint::Asm)));
    match Api::endpoint_for_url("/symbolicate/v6") {
        Err(Error::UnrecognizedUrl(u)) => assert_eq!(u, "/symbolicate/v6"),
        _ => panic!("expected an unrecognized URL"),
    }
}

#[test]
fn http_status_of_errors() {
    assert_eq!(Error::UnrecognizedUrl("/x".to_string()).http_status(), 404);
    assert_eq!(Error::ParseRequestErrorSerde("bad".to_string()).http_status(), 400);
    assert_eq!(Error::ParseRequestErrorContents("bad").http_status(), 400);
    assert_eq!(Error::Symbols("s".to_string()).http_status(), 500);
    assert_eq!(Error::Source(SourceError::InvalidPath).http_status(), 500);
    assert_eq!(Error::Asm(AsmError::AddressNotFound).http_status(), 500);
}

#[test]
fn breakpad_ids_to_debug_ids() {
    let id = to_debug_id("44E4EC8C2F41492B9369D6B9A059577C2").ok().unwrap();
    assert_eq!(id.breakpad().to_string(), "44E4EC8C2F41492B9369D6B9A059577C2");
    // All zeros is rejected.
    let e = to_debug_id("000000000000000000000000000000000").err().unwrap();
    assert_eq!(e.0, "000000000000000000000000000000000");
    assert_eq!(e.enum_as_string(), "InvalidBreakpadId");
    assert!(to_debug_id("not an id").is_err());
}

#[test]
fn error_messages() {
    assert_eq!(Error::UnrecognizedUrl("/x".to_string()).message(), "Unrecognized URL: /x");
    assert_eq!(Error::ParseRequestErrorSerde("eof".to_string()).message(), "Couldn't parse request: eof");
    assert_eq!(Error::ParseRequestErrorContents("no jobs").message(), "Malformed request JSON: no jobs");
    assert_eq!(Error::Symbols("no symbols".to_string()).message(), "no symbols");
    assert_eq!(
        Error::Source(SourceError::InvalidPath).message(),
        "The requested path is not present in the symbolication frames"
    );
    assert_eq!(Error::Asm(AsmError::ObjectParseError("bad".to_string())).message(), "object parse error: bad");
}
