use bethkit_semantic::decoder::{
    CustomDecoder, DecoderRegistry, RegisteredDecoder, ZeroWidthIntegerDecoder, XEDIT_DTINTEGER_ID,
};
use bethkit_semantic::value::{FieldValue, OwnedFieldValue, SemanticError};

fn builtin() -> DecoderRegistry<ZeroWidthIntegerDecoder> {
    DecoderRegistry::builtin()
}

/// Decodes xEdit's zero-width integer without consuming following bytes.
#[test]
fn zero_width_integer_decoder_consumes_no_bytes() {
    // given
    let registry = builtin();
    let decoder = registry
        .require(XEDIT_DTINTEGER_ID, 1)
        .expect("built-in zero-width integer decoder must be registered");

    // when
    let decoded = decoder.decode(&[0xAA, 0xBB]).expect("zero-width integer decodes");

    // then
    assert!(matches!(decoded.value, FieldValue::UInt(0)));
    assert_eq!(decoded.consumed, 0);
}

/// Encodes only the single value representable by a zero-width integer.
#[test]
fn zero_width_integer_decoder_encodes_only_zero() {
    // given
    let registry = builtin();
    let decoder = registry
        .require(XEDIT_DTINTEGER_ID, 1)
        .expect("built-in zero-width integer decoder must be registered");

    // when
    let encoded = decoder.encode(&OwnedFieldValue::UInt(0)).expect("zero encodes");

    // then
    assert!(encoded.is_empty());
    assert!(decoder.encode(&OwnedFieldValue::UInt(1)).is_err());
}

#[test]
fn zero_width_integer_rejection_names_the_decoder() {
    let decoder = ZeroWidthIntegerDecoder;
    match decoder.encode(&OwnedFieldValue::Int(0)) {
        Err(SemanticError::Decoder { decoder, message }) => {
            assert_eq!(decoder, "xedit.dtinteger");
            assert_eq!(message, "zero-width xEdit integer only accepts unsigned value 0");
        }
        other => panic!("unexpected result {other:?}"),
    }
}

#[test]
fn zero_width_integer_reports_identity_and_version() {
    let decoder = ZeroWidthIntegerDecoder;
    assert_eq!(decoder.id(), "xedit.dtinteger");
    assert_eq!(decoder.version(), 1);
}

#[test]
fn require_reports_missing_decoder_by_identifier() {
    let registry = builtin();
    match registry.require("xedit.other", 1) {
        Err(SemanticError::MissingDecoder(id)) => assert_eq!(id, "xedit.other"),
        other => panic!("unexpected result {:?}", other.is_ok()),
    }
}

#[test]
fn require_reports_outdated_decoder_version() {
    let registry = builtin();
    match registry.require(XEDIT_DTINTEGER_ID, 2) {
        Err(SemanticError::MissingDecoder(text)) => {
            assert_eq!(text, "xedit.dtinteger version 2 or newer")
        }
        other => panic!("unexpected result {:?}", other.is_ok()),
    }
    assert!(registry.require(XEDIT_DTINTEGER_ID, 0).is_ok());
}

#[test]
fn empty_registry_has_no_decoders() {
    let registry: DecoderRegistry<ZeroWidthIntegerDecoder> = DecoderRegistry::new();
    assert!(registry.get(XEDIT_DTINTEGER_ID).is_none());
    let default: DecoderRegistry<ZeroWidthIntegerDecoder> = DecoderRegistry::default();
    assert!(default.get(XEDIT_DTINTEGER_ID).is_none());
    assert!(builtin().get(XEDIT_DTINTEGER_ID).is_some());
}

#[test]
fn registering_a_decoder_replaces_the_one_with_its_identifier() {
    let mut registry = builtin();
    registry.register(ZeroWidthIntegerDecoder);
    match registry.get(XEDIT_DTINTEGER_ID) {
        Some(RegisteredDecoder::Custom(_)) => {}
        _ => panic!("the registered decoder replaces the built-in one"),
    }
}
