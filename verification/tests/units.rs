//! Unit exercises of the engine's pieces: decimal parsing and printing,
//! framing resolution, the header table, and the application data types.

use pasta6::auth::{BaseUser, CoreUser, Session, Token};
use pasta6::config::{SecretKey, ServerConfig};
use pasta6::decimal::{usize_from_bytes, usize_to_decimal};
use pasta6::framing::{resolve_framing, BodyLength, FramingError};
use pasta6::header::{HeaderName, Headers, RawHeader};
use pasta6::models::{ErrorResponse, PasteCreateResponse, PasteForm};

fn h(name: &[u8], value: &[u8]) -> RawHeader {
    RawHeader { name: name.to_vec(), value: value.to_vec() }
}

#[test]
fn decimal_parsing_accepts_exactly_valid_numbers() {
    assert_eq!(usize_from_bytes(b"0"), Ok(0));
    assert_eq!(usize_from_bytes(b"13"), Ok(13));
    assert_eq!(usize_from_bytes(b"007"), Ok(7));
    assert_eq!(usize_from_bytes(b"18446744073709551615"), Ok(usize::MAX));
    assert!(usize_from_bytes(b"18446744073709551616").is_err());
    assert!(usize_from_bytes(b"").is_err());
    assert!(usize_from_bytes(b"12a").is_err());
    assert!(usize_from_bytes(b"-1").is_err());
    assert!(usize_from_bytes(b" 1").is_err());
}

#[test]
fn decimal_printing_round_trips() {
    for n in [0usize, 1, 9, 10, 431, 12345, usize::MAX] {
        let digits = usize_to_decimal(n);
        assert_eq!(usize_from_bytes(&digits), Ok(n));
    }
    assert_eq!(usize_to_decimal(0), b"0");
    assert_eq!(usize_to_decimal(200), b"200");
}

#[test]
fn framing_resolution_cases() {
    // No framing header: empty for requests, read-until-close for
    // responses.
    let none: Vec<RawHeader> = vec![h(b"date", b"D")];
    assert_eq!(resolve_framing(&none, true), Ok(BodyLength::Empty));
    assert_eq!(resolve_framing(&none, false), Ok(BodyLength::Unknown));
    // A single content-length.
    let one = vec![h(b"content-length", b"42")];
    assert_eq!(resolve_framing(&one, true), Ok(BodyLength::Known(42)));
    // Duplicates with the same value count as one.
    let dup = vec![h(b"content-length", b"5"), h(b"content-length", b"5")];
    assert_eq!(resolve_framing(&dup, false), Ok(BodyLength::Known(5)));
    // Differing values are invalid framing.
    let conflict = vec![h(b"content-length", b"5"), h(b"content-length", b"6")];
    assert_eq!(
        resolve_framing(&conflict, false),
        Err(FramingError::InvalidMessageFraming)
    );
    // Transfer-encoding alone is unsupported; next to content-length it
    // is invalid framing.
    let te = vec![h(b"transfer-encoding", b"chunked")];
    assert_eq!(
        resolve_framing(&te, false),
        Err(FramingError::UnsupportedTransferEncoding)
    );
    let both = vec![h(b"transfer-encoding", b"chunked"), h(b"content-length", b"5")];
    assert_eq!(
        resolve_framing(&both, true),
        Err(FramingError::InvalidMessageFraming)
    );
    // A content-length that is not a number.
    let bad = vec![h(b"content-length", b"abc")];
    assert_eq!(
        resolve_framing(&bad, true),
        Err(FramingError::InvalidContentLength)
    );
}

#[test]
fn header_table_keeps_allow_listed_names_in_order() {
    let raw = vec![
        h(b"x-first", b"dropped"),
        h(b"date", b"D1"),
        h(b"content-length", b"7"),
        h(b"x-second", b"dropped"),
        h(b"date", b"D2"),
    ];
    let table = Headers::from_raw(&raw);
    assert_eq!(table.len(), 3);
    // First match wins on lookups.
    assert_eq!(table.get(HeaderName::Date).unwrap(), b"D1");
    assert_eq!(table.get(HeaderName::ContentLength).unwrap(), b"7");
    assert!(table.get(HeaderName::TransferEncoding).is_none());
    let entries = table.iter();
    assert_eq!(entries.len(), 3);
    assert_eq!(entries[0].0, HeaderName::Date);
    assert_eq!(entries[0].1, b"D1");
    assert_eq!(entries[1].0, HeaderName::ContentLength);
    assert_eq!(entries[2].1, b"D2");
    // Names match exactly: lower-case only.
    let cased = vec![h(b"Content-Length", b"7")];
    assert_eq!(Headers::from_raw(&cased).len(), 0);
    assert_eq!(Headers::empty().len(), 0);
}

#[test]
fn application_data_types_hold_their_values() {
    let user = CoreUser::new(String::from("alice"));
    assert_eq!(user.username, "alice");
    let token = Token::new(String::from("alice"));
    assert_eq!(token.username(), "alice");
    let session = Session::new(String::from("s-1"));
    assert_eq!(session.session_id(), "s-1");
    let base = BaseUser::new(7, String::from("bob"));
    assert_eq!(base.id, 7);
    assert_eq!(base.username, "bob");
    let key = SecretKey::new(vec![9u8; 32]);
    assert_eq!(key.as_bytes(), &[9u8; 32][..]);
    let config = ServerConfig::new(key, 3600);
    assert_eq!(config.ttl(), 3600);
    assert_eq!(config.secret_key().as_bytes().len(), 32);
    let err = ErrorResponse::new(String::from("nope"));
    assert_eq!(err.message, "nope");
    let form = PasteForm::new(b"body".to_vec());
    assert_eq!(form.data(), b"body");
    let created = PasteCreateResponse::new(3);
    assert_eq!(created.id, 3);
}
