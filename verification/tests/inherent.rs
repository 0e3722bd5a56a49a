//! The inherent protocol and the error payload's byte format, cross-checked
//! against the reference codec implementation.

use parity_scale_codec::{Compact, Decode, Encode};
use relay_storage_roots::inherent::{Call, InherentError, INHERENT_IDENTIFIER};
use relay_storage_roots::pallet::Pallet;
use relay_storage_roots::scale::compact_u32_encode;

#[test]
fn the_inherent_is_always_required_with_a_fatal_error() {
    let r = Pallet::is_inherent_required();
    let payload = r.expect("no error").expect("an error payload is always supplied");
    assert!(payload.is_fatal_error());
    let InherentError::Other(msg) = payload;
    assert_eq!(msg, "Inherent required to set relay storage roots");
}

#[test]
fn the_inherent_call_is_always_constructed_and_recognized() {
    let call = Pallet::create_inherent().expect("always constructed");
    assert_eq!(call, Call::SetRelayStorageRoot);
    assert!(Pallet::is_inherent(&call));
}

#[test]
fn identifier_is_relsroot() {
    assert_eq!(&INHERENT_IDENTIFIER, b"relsroot");
}

#[test]
fn compact_lengths_match_the_reference_codec() {
    for n in [
        0u32,
        1,
        42,
        63,
        64,
        255,
        16383,
        16384,
        65536,
        0x3FFF_FFFF,
        0x4000_0000,
        u32::MAX,
    ] {
        let mut ours: Vec<u8> = Vec::new();
        compact_u32_encode(n, &mut ours);
        let reference = Compact(n).encode();
        assert_eq!(ours, reference, "compact encoding of {n}");
    }
}

#[test]
fn error_encoding_matches_the_reference_codec() {
    for msg in ["", "x", "Inherent required to set relay storage roots", "naïve ẞtring"] {
        let ours = InherentError::Other(msg.to_owned()).encode().expect("short message");
        // The reference encoding of the single-variant enum: the variant
        // index, then the string.
        let mut reference = vec![0u8];
        reference.extend(msg.to_owned().encode());
        assert_eq!(ours, reference, "encoding of {msg:?}");
    }
}

#[test]
fn try_from_round_trips_the_encoding() {
    let original = InherentError::Other("relay storage root inherent missing".to_owned());
    let bytes = original.encode().expect("short message");
    let back = InherentError::try_from(&INHERENT_IDENTIFIER, &bytes).expect("decodes");
    assert_eq!(back, original);
}

#[test]
fn try_from_decodes_reference_encoded_bytes() {
    // Bytes produced by the reference codec for the tuple (variant, message).
    let bytes = (0u8, String::from("some message")).encode();
    let back = InherentError::try_from(&INHERENT_IDENTIFIER, &bytes).expect("decodes");
    assert_eq!(back, InherentError::Other("some message".to_owned()));
}

#[test]
fn our_encoding_decodes_under_the_reference_codec() {
    let bytes = InherentError::Other("hello".to_owned()).encode().expect("short message");
    let (tag, msg) = <(u8, String)>::decode(&mut &bytes[..]).expect("reference decode");
    assert_eq!(tag, 0);
    assert_eq!(msg, "hello");
}

#[test]
fn long_messages_use_the_wider_length_modes_and_round_trip() {
    // 100 bytes needs the two-byte length mode, 20000 the four-byte one.
    for len in [100usize, 20_000] {
        let msg = "a".repeat(len);
        let ours = InherentError::Other(msg.clone()).encode().expect("fits");
        let mut reference = vec![0u8];
        reference.extend(msg.encode());
        assert_eq!(ours, reference, "encoding of {len} bytes");
        let back = InherentError::try_from(&INHERENT_IDENTIFIER, &ours).expect("decodes");
        assert_eq!(back, InherentError::Other(msg));
    }
}

#[test]
fn try_from_rejects_a_foreign_identifier() {
    let bytes = InherentError::Other("m".to_owned()).encode().expect("short message");
    assert_eq!(InherentError::try_from(b"otherid!", &bytes), None);
}

#[test]
fn try_from_rejects_malformed_bytes() {
    // Empty input.
    assert_eq!(InherentError::try_from(&INHERENT_IDENTIFIER, &[]), None);
    // Unknown variant tag.
    assert_eq!(InherentError::try_from(&INHERENT_IDENTIFIER, &[1, 0]), None);
    // Declared length longer than the payload.
    assert_eq!(InherentError::try_from(&INHERENT_IDENTIFIER, &[0, 12, b'a']), None);
    // Invalid UTF-8 payload.
    assert_eq!(InherentError::try_from(&INHERENT_IDENTIFIER, &[0, 4, 0xFF]), None);
    // Non-minimal compact length (two-byte mode holding a one-byte value).
    let non_minimal = [0u8, 0b0000_0101, 0, b'a'];
    assert_eq!(InherentError::try_from(&INHERENT_IDENTIFIER, &non_minimal), None);
    // The reference codec rejects that length prefix the same way.
    assert!(Compact::<u32>::decode(&mut &non_minimal[1..]).is_err());
}

#[test]
fn try_from_tolerates_trailing_bytes() {
    let mut bytes = InherentError::Other("tail".to_owned()).encode().expect("short message");
    bytes.extend_from_slice(&[9, 9, 9]);
    let back = InherentError::try_from(&INHERENT_IDENTIFIER, &bytes).expect("decodes");
    assert_eq!(back, InherentError::Other("tail".to_owned()));
}
