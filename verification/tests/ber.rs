//! BER primitives: lengths, integers, OIDs, the reader and the writer.

use basic_snmp_agent::codec::ber::integer::{
    decode_signed_i32, decode_unsigned, encode_signed_i32, encode_unsigned_u32,
    encode_unsigned_u64,
};
use basic_snmp_agent::codec::ber::tag::{TAG_COUNTER32, TAG_COUNTER64, TAG_GAUGE32};
use basic_snmp_agent::codec::ber::writer::encode_length;
use basic_snmp_agent::codec::ber::{BerError, BerReader, BerWriter};
use basic_snmp_agent::Oid;

// --- Length encoding ---

#[test]
fn given_length_zero_when_encoded_then_short_form_single_byte() {
    let mut dest = Vec::new();
    encode_length(&mut dest, 0);
    assert_eq!(dest, [0x00]);
}

#[test]
fn given_length_1_when_encoded_then_short_form_single_byte() {
    let mut dest = Vec::new();
    encode_length(&mut dest, 1);
    assert_eq!(dest, [0x01]);
}

#[test]
fn given_length_127_when_encoded_then_short_form_single_byte() {
    let mut dest = Vec::new();
    encode_length(&mut dest, 127);
    assert_eq!(dest, [0x7F]);
}

#[test]
fn given_length_128_when_encoded_then_long_form_two_bytes() {
    let mut dest = Vec::new();
    encode_length(&mut dest, 128);
    assert_eq!(dest, [0x81, 0x80]);
}

#[test]
fn given_length_255_when_encoded_then_long_form_two_bytes() {
    let mut dest = Vec::new();
    encode_length(&mut dest, 255);
    assert_eq!(dest, [0x81, 0xFF]);
}

#[test]
fn given_length_256_when_encoded_then_long_form_three_bytes() {
    let mut dest = Vec::new();
    encode_length(&mut dest, 256);
    assert_eq!(dest, [0x82, 0x01, 0x00]);
}

#[test]
fn given_length_65535_when_encoded_then_long_form_three_bytes() {
    let mut dest = Vec::new();
    encode_length(&mut dest, 65535);
    assert_eq!(dest, [0x82, 0xFF, 0xFF]);
}

// --- Length decoding (round-trip) ---

fn round_trip_length(length: usize) -> usize {
    let mut dest = Vec::new();
    encode_length(&mut dest, length);
    let mut reader = BerReader::new(&dest);
    reader.read_length().expect("length should decode cleanly")
}

#[test]
fn given_length_0_when_round_tripped_then_recovers_value() {
    assert_eq!(round_trip_length(0), 0);
}

#[test]
fn given_length_1_when_round_tripped_then_recovers_value() {
    assert_eq!(round_trip_length(1), 1);
}

#[test]
fn given_length_127_when_round_tripped_then_recovers_value() {
    assert_eq!(round_trip_length(127), 127);
}

#[test]
fn given_length_128_when_round_tripped_then_recovers_value() {
    assert_eq!(round_trip_length(128), 128);
}

#[test]
fn given_length_255_when_round_tripped_then_recovers_value() {
    assert_eq!(round_trip_length(255), 255);
}

#[test]
fn given_length_256_when_round_tripped_then_recovers_value() {
    assert_eq!(round_trip_length(256), 256);
}

#[test]
fn given_length_65535_when_round_tripped_then_recovers_value() {
    assert_eq!(round_trip_length(65535), 65535);
}

#[test]
fn given_empty_input_when_read_length_then_returns_error() {
    let mut reader = BerReader::new(&[]);
    let ber_error = reader.read_length().unwrap_err();
    assert!(
        ber_error.to_string().contains("unexpected end of input"),
        "unexpected error: {ber_error:?}"
    );
}

#[test]
fn given_long_form_length_with_truncated_bytes_when_read_length_then_returns_error() {
    // 0x82 says "2 following bytes", but only 1 byte follows.
    let truncated = [0x82, 0x01];
    let mut reader = BerReader::new(&truncated);
    let ber_error = reader.read_length().unwrap_err();
    assert!(
        ber_error.to_string().contains("truncated"),
        "unexpected error: {ber_error:?}"
    );
}

#[test]
fn given_indefinite_length_encoding_when_read_length_then_returns_error() {
    // 0x80 with zero extra-byte count means indefinite length (forbidden in SNMP).
    let indefinite = [0x80];
    let mut reader = BerReader::new(&indefinite);
    let ber_error = reader.read_length().unwrap_err();
    assert!(
        ber_error.to_string().contains("indefinite"),
        "unexpected error: {ber_error:?}"
    );
}

#[test]
fn given_long_form_length_exceeding_input_when_read_tlv_then_returns_error() {
    // 0x02 is INTEGER tag; 0x84 means 4 subsequent bytes encode the length.
    // Length = 0x7FFFFFFF = 2147483647 — fits in usize on all platforms but
    // far exceeds the 0 bytes of input remaining after the tag and length field.
    let absurd_tlv = [0x02, 0x84, 0x7F, 0xFF, 0xFF, 0xFF];
    let mut reader = BerReader::new(&absurd_tlv);
    let ber_error = reader.read_tlv().unwrap_err();
    assert!(
        ber_error.to_string().contains("exceeds remaining input"),
        "unexpected error: {ber_error:?}"
    );
}

#[test]
fn given_long_form_length_larger_than_available_data_when_read_tlv_then_returns_error() {
    // 0x02 is INTEGER tag; 0x83 means 3 subsequent bytes encode the length = 0x0F4240 = 1000000 bytes.
    // Only 3 value bytes follow, so the length exceeds the remaining input.
    let large_tlv = [0x02, 0x83, 0x0F, 0x42, 0x40, 0xAA, 0xBB, 0xCC];
    let mut reader = BerReader::new(&large_tlv);
    let ber_error = reader.read_tlv().unwrap_err();
    assert!(
        ber_error.to_string().contains("exceeds remaining input"),
        "unexpected error: {ber_error:?}"
    );
}

// --- Signed integer encoding ---

#[test]
fn given_integer_zero_when_encoded_then_single_zero_byte() {
    assert_eq!(encode_signed_i32(0), [0x00]);
}

#[test]
fn given_integer_1_when_encoded_then_single_byte_0x01() {
    assert_eq!(encode_signed_i32(1), [0x01]);
}

#[test]
fn given_integer_minus1_when_encoded_then_single_byte_0xff() {
    assert_eq!(encode_signed_i32(-1), [0xFF]);
}

#[test]
fn given_integer_127_when_encoded_then_single_byte_0x7f() {
    assert_eq!(encode_signed_i32(127), [0x7F]);
}

#[test]
fn given_integer_128_when_encoded_then_two_bytes_with_sign_extension() {
    // 128 = 0x0080: high bit of 0x80 is set, so a leading 0x00 is needed.
    assert_eq!(encode_signed_i32(128), [0x00, 0x80]);
}

#[test]
fn given_integer_minus128_when_encoded_then_single_byte_0x80() {
    // -128 = 0x80 in two's complement — no extension needed.
    assert_eq!(encode_signed_i32(-128), [0x80]);
}

#[test]
fn given_integer_minus129_when_encoded_then_two_bytes_0xff7f() {
    // -129 = 0xFFFFFF7F; strip leading 0xFF → keep [0xFF, 0x7F].
    // High bit of 0xFF is set (negative), so no extra 0xFF needed.
    assert_eq!(encode_signed_i32(-129), [0xFF, 0x7F]);
}

#[test]
fn given_integer_max_i32_when_encoded_then_five_bytes() {
    // i32::MAX = 0x7FFFFFFF — sign byte 0x00 is not needed (high bit is 0).
    assert_eq!(encode_signed_i32(i32::MAX), [0x7F, 0xFF, 0xFF, 0xFF]);
}

#[test]
fn given_integer_min_i32_when_encoded_then_four_bytes() {
    // i32::MIN = 0x80000000 — the high bit is 1 (negative), single sign byte.
    assert_eq!(encode_signed_i32(i32::MIN), [0x80, 0x00, 0x00, 0x00]);
}

// --- Unsigned32 encoding ---

#[test]
fn given_unsigned32_zero_when_encoded_then_single_zero_byte() {
    assert_eq!(encode_unsigned_u32(0), [0x00]);
}

#[test]
fn given_unsigned32_127_when_encoded_then_single_byte_0x7f() {
    assert_eq!(encode_unsigned_u32(127), [0x7F]);
}

#[test]
fn given_unsigned32_128_when_encoded_then_two_bytes_with_sign_byte() {
    assert_eq!(encode_unsigned_u32(128), [0x00, 0x80]);
}

#[test]
fn given_unsigned32_255_when_encoded_then_two_bytes_with_sign_byte() {
    assert_eq!(encode_unsigned_u32(255), [0x00, 0xFF]);
}

#[test]
fn given_unsigned32_256_when_encoded_then_two_bytes_no_sign_byte() {
    assert_eq!(encode_unsigned_u32(256), [0x01, 0x00]);
}

#[test]
fn given_unsigned32_max_when_encoded_then_five_bytes_with_sign_byte() {
    // u32::MAX = 0xFFFFFFFF — high bit set, prepend 0x00.
    assert_eq!(
        encode_unsigned_u32(u32::MAX),
        [0x00, 0xFF, 0xFF, 0xFF, 0xFF]
    );
}

// --- Unsigned64 encoding ---

#[test]
fn given_unsigned64_zero_when_encoded_then_single_zero_byte() {
    assert_eq!(encode_unsigned_u64(0), [0x00]);
}

#[test]
fn given_unsigned64_u32_max_when_encoded_then_five_bytes_with_sign_byte() {
    assert_eq!(
        encode_unsigned_u64(u64::from(u32::MAX)),
        [0x00, 0xFF, 0xFF, 0xFF, 0xFF]
    );
}

#[test]
fn given_unsigned64_max_when_encoded_then_nine_bytes_with_sign_byte() {
    // u64::MAX = 0xFFFFFFFF_FFFFFFFF — high bit set, prepend 0x00.
    assert_eq!(
        encode_unsigned_u64(u64::MAX),
        [0x00, 0xFF, 0xFF, 0xFF, 0xFF, 0xFF, 0xFF, 0xFF, 0xFF]
    );
}

// --- BerWriter / BerReader round-trips for typed values ---

fn encode_with_writer(write_fn: impl Fn(&mut BerWriter)) -> Vec<u8> {
    let mut writer = BerWriter::new();
    write_fn(&mut writer);
    writer.into_vec()
}

#[test]
fn given_octet_string_empty_when_round_tripped_then_recovers_empty_slice() {
    let encoded = encode_with_writer(|w| w.write_octet_string(&[]));
    let recovered = BerReader::new(&encoded)
        .read_octet_string()
        .expect("octet string should decode");
    assert_eq!(recovered, b"");
}

#[test]
fn given_octet_string_short_when_round_tripped_then_recovers_bytes() {
    let payload = b"hello";
    let encoded = encode_with_writer(|w| w.write_octet_string(payload));
    let recovered = BerReader::new(&encoded)
        .read_octet_string()
        .expect("octet string should decode");
    assert_eq!(recovered, payload);
}

#[test]
fn given_octet_string_medium_when_round_tripped_then_recovers_bytes() {
    // 200-byte payload forces the long-form length encoding path.
    let payload: Vec<u8> = (0u8..=199).collect();
    let encoded = encode_with_writer(|w| w.write_octet_string(&payload));
    let recovered = BerReader::new(&encoded)
        .read_octet_string()
        .expect("octet string should decode");
    assert_eq!(recovered, payload.as_slice());
}

#[test]
fn given_null_when_round_tripped_then_returns_unit() {
    let mut writer = BerWriter::new();
    writer.write_null();
    let encoded = writer.into_vec();
    BerReader::new(&encoded)
        .read_null()
        .expect("null should decode");
}

// --- OID round-trips ---

#[test]
fn given_standard_snmp_oid_when_round_tripped_then_recovers_oid() {
    // 1.3.6.1.2.1.1.1.0
    // Combined first: 40*1+3 = 43 = 0x2B
    // Remaining arcs: 6, 1, 2, 1, 1, 1, 0 — all single-byte base-128
    // Wire: 06 08 2B 06 01 02 01 01 01 00
    const SNMP_SYSNAME_OID_WIRE: &[u8] =
        &[0x06, 0x08, 0x2B, 0x06, 0x01, 0x02, 0x01, 0x01, 0x01, 0x00];
    let original: Oid = "1.3.6.1.2.1.1.1.0".parse().unwrap();
    let encoded = encode_with_writer(|w| w.write_oid(&original));
    assert_eq!(encoded, SNMP_SYSNAME_OID_WIRE);
    let recovered = BerReader::new(&encoded)
        .read_oid()
        .expect("OID should decode");
    assert_eq!(recovered, original);
}

#[test]
fn given_oid_with_large_arc_when_round_tripped_then_recovers_oid() {
    // 1.3.6.1.4.1.99999
    // Combined first: 43 = 0x2B
    // Remaining: 6(0x06), 1(0x01), 4(0x04), 1(0x01), 99999
    // 99999 = 0x1869F
    // Base-128 groups (7 bits from LSB): 0x1F, 0x0D, 0x06 → with cont. bits: [0x86, 0x8D, 0x1F]
    // Wire: 06 08 2B 06 01 04 01 86 8D 1F
    const ENTERPRISE_LARGE_ARC_OID_WIRE: &[u8] =
        &[0x06, 0x08, 0x2B, 0x06, 0x01, 0x04, 0x01, 0x86, 0x8D, 0x1F];
    let original: Oid = "1.3.6.1.4.1.99999".parse().unwrap();
    let encoded = encode_with_writer(|w| w.write_oid(&original));
    assert_eq!(encoded, ENTERPRISE_LARGE_ARC_OID_WIRE);
    let recovered = BerReader::new(&encoded)
        .read_oid()
        .expect("OID should decode");
    assert_eq!(recovered, original);
}

#[test]
fn given_arc_zero_oid_when_round_tripped_then_recovers() {
    // 0.0 → combined first sub-id = 40*0+0 = 0x00
    // Wire: 06 01 00
    const EXPECTED_WIRE: &[u8] = &[0x06, 0x01, 0x00];
    let oid: Oid = "0.0".parse().unwrap();
    let encoded = encode_with_writer(|w| w.write_oid(&oid));
    assert_eq!(encoded, EXPECTED_WIRE);
    let recovered = BerReader::new(&encoded)
        .read_oid()
        .expect("OID should decode");
    assert_eq!(recovered, oid);
}

#[test]
fn given_arc_two_oid_with_large_second_arc_when_round_tripped_then_recovers() {
    // 2.999 → combined = 40*2+999 = 1079 = 0x437
    // Base-128: 0x437 groups from LSB: 0x37, 0x08 → with cont. bits: [0x88, 0x37]
    // Wire: 06 02 88 37
    const EXPECTED_WIRE: &[u8] = &[0x06, 0x02, 0x88, 0x37];
    let oid: Oid = "2.999".parse().unwrap();
    let encoded = encode_with_writer(|w| w.write_oid(&oid));
    assert_eq!(encoded, EXPECTED_WIRE);
    let recovered = BerReader::new(&encoded)
        .read_oid()
        .expect("OID should decode");
    assert_eq!(recovered, oid);
}

#[test]
fn given_oid_with_max_u32_arc_when_round_tripped_then_recovers() {
    // 1.3.4294967295 → combined first = 40*1+3 = 43 = 0x2B
    // 4294967295 = 0xFFFFFFFF
    // Base-128 of 0xFFFFFFFF (from LSB): 0x7F,0x7F,0x7F,0x7F,0x0F
    // with continuation bits: [0x8F, 0xFF, 0xFF, 0xFF, 0x7F]
    // Wire: 06 06 2B 8F FF FF FF 7F
    const EXPECTED_WIRE: &[u8] = &[0x06, 0x06, 0x2B, 0x8F, 0xFF, 0xFF, 0xFF, 0x7F];
    let oid: Oid = "1.3.4294967295".parse().unwrap();
    let encoded = encode_with_writer(|w| w.write_oid(&oid));
    assert_eq!(encoded, EXPECTED_WIRE);
    let recovered = BerReader::new(&encoded)
        .read_oid()
        .expect("OID should decode");
    assert_eq!(recovered, oid);
}

// --- Signed integer round-trips ---

fn integer_round_trip(value: i32) -> i32 {
    let encoded = encode_with_writer(|w| w.write_integer(value));
    BerReader::new(&encoded)
        .read_integer()
        .expect("integer should decode")
}

#[test]
fn given_boundary_integers_when_round_tripped_then_recover_original_values() {
    for value in [0, 1, -1, 127, 128, -128, -129, i32::MAX, i32::MIN] {
        assert_eq!(
            integer_round_trip(value),
            value,
            "round-trip failed for {value}"
        );
    }
}

#[test]
fn given_integer_42_when_encoded_then_matches_expected_wire() {
    // INTEGER 42: tag=0x02, len=0x01, value=0x2A
    const EXPECTED_WIRE: &[u8] = &[0x02, 0x01, 0x2A];
    let encoded = encode_with_writer(|w| w.write_integer(42));
    assert_eq!(encoded, EXPECTED_WIRE);
}

// --- Unsigned32 integer round-trips ---

fn unsigned32_round_trip(value: u32) -> u32 {
    let encoded = encode_with_writer(|w| w.write_unsigned32(value));
    BerReader::new(&encoded)
        .read_unsigned32()
        .expect("unsigned32 should decode")
}

#[test]
fn given_boundary_unsigned32s_when_round_tripped_then_recover_original_values() {
    for value in [0u32, 127, 128, 255, 256, u32::MAX] {
        assert_eq!(
            unsigned32_round_trip(value),
            value,
            "round-trip failed for {value}"
        );
    }
}

// --- Unsigned64 integer round-trips ---

fn unsigned64_round_trip(value: u64) -> u64 {
    let encoded = encode_with_writer(|w| w.write_unsigned64(value));
    BerReader::new(&encoded)
        .read_unsigned64()
        .expect("unsigned64 should decode")
}

#[test]
fn given_boundary_unsigned64s_when_round_tripped_then_recover_original_values() {
    for value in [0u64, u64::from(u32::MAX), u64::MAX] {
        assert_eq!(
            unsigned64_round_trip(value),
            value,
            "round-trip failed for {value}"
        );
    }
}

// --- SEQUENCE nesting ---

#[test]
fn given_sequence_with_integer_and_octet_string_when_round_tripped_then_recovers_both() {
    // Write a SEQUENCE containing an INTEGER and an OCTET STRING.
    let mut inner_writer = BerWriter::new();
    inner_writer.write_integer(42);
    inner_writer.write_octet_string(b"test");

    let mut outer_writer = BerWriter::new();
    outer_writer.write_sequence(inner_writer.as_bytes());

    let encoded_sequence = outer_writer.into_vec();
    let mut outer_reader = BerReader::new(&encoded_sequence);
    let mut inner_reader = outer_reader.read_sequence().expect("sequence should parse");

    let recovered_integer = inner_reader.read_integer().expect("integer should parse");
    let recovered_string = inner_reader
        .read_octet_string()
        .expect("octet string should parse");

    assert_eq!(recovered_integer, 42);
    assert_eq!(recovered_string, b"test");
    assert!(
        inner_reader.is_empty(),
        "all sequence contents should be consumed"
    );
}

// --- BerReader offset tracking ---

#[test]
fn given_reader_at_start_when_offset_queried_then_returns_zero() {
    let mut writer = BerWriter::new();
    writer.write_null();
    let encoded = writer.into_vec();
    let reader = BerReader::new(&encoded);
    assert_eq!(reader.offset(), 0);
}

#[test]
fn given_reader_after_reading_null_when_offset_queried_then_returns_two() {
    // NULL encodes as exactly 2 bytes: 0x05 0x00.
    let mut writer = BerWriter::new();
    writer.write_null();
    let encoded = writer.into_vec();
    let mut reader = BerReader::new(&encoded);
    reader.read_null().expect("null should parse");
    assert_eq!(reader.offset(), 2);
}

#[test]
fn given_base_offset_reader_when_offset_queried_then_includes_base() {
    let mut writer = BerWriter::new();
    writer.write_null();
    let encoded = writer.into_vec();
    let reader = BerReader::new_with_offset(&encoded, 100);
    assert_eq!(reader.offset(), 100);
}

#[test]
fn given_sub_reader_from_sequence_when_offset_queried_then_reflects_absolute_position() {
    // Build: SEQUENCE { NULL } and check that the sub-reader's offset
    // correctly reflects the position within the original buffer.
    let mut inner_writer = BerWriter::new();
    inner_writer.write_null();

    let mut outer_writer = BerWriter::new();
    outer_writer.write_sequence(inner_writer.as_bytes());

    let encoded = outer_writer.into_vec();
    // SEQUENCE header is 2 bytes (tag + length ≤ 127), so contents start at offset 2.
    let mut outer_reader = BerReader::new(&encoded);
    let mut inner_reader = outer_reader.read_sequence().expect("sequence should parse");

    assert_eq!(
        inner_reader.offset(),
        2,
        "sub-reader should start at offset 2 (after SEQUENCE T+L)"
    );
    inner_reader.read_null().expect("null should parse");
    assert_eq!(
        inner_reader.offset(),
        4,
        "sub-reader should be at offset 4 after reading 2-byte NULL"
    );
}

// --- Error cases ---

#[test]
fn given_empty_input_when_peek_tag_then_returns_error() {
    let reader = BerReader::new(&[]);
    let ber_error = reader.peek_tag().unwrap_err();
    assert!(
        ber_error.to_string().contains("unexpected end of input"),
        "unexpected error: {ber_error:?}"
    );
}

#[test]
fn given_empty_input_when_read_tag_then_returns_error() {
    let mut reader = BerReader::new(&[]);
    let ber_error = reader.read_tag().unwrap_err();
    assert!(
        ber_error.to_string().contains("unexpected end of input"),
        "unexpected error: {ber_error:?}"
    );
}

#[test]
fn given_wrong_tag_when_read_integer_then_returns_error_with_tag_info() {
    // 0x05 0x00 is NULL, not INTEGER.
    let null_bytes = [0x05, 0x00];
    let mut reader = BerReader::new(&null_bytes);
    let ber_error = reader.read_integer().unwrap_err();
    assert!(
        ber_error.to_string().contains("expected INTEGER"),
        "unexpected error: {ber_error:?}"
    );
}

#[test]
fn given_wrong_tag_when_read_octet_string_then_returns_error() {
    let null_bytes = [0x05, 0x00];
    let mut reader = BerReader::new(&null_bytes);
    let ber_error = reader.read_octet_string().unwrap_err();
    assert!(
        ber_error.to_string().contains("expected OCTET STRING"),
        "unexpected error: {ber_error:?}"
    );
}

#[test]
fn given_wrong_tag_when_read_null_then_returns_error() {
    // 0x02 0x01 0x00 is INTEGER(0), not NULL.
    let integer_bytes = [0x02, 0x01, 0x00];
    let mut reader = BerReader::new(&integer_bytes);
    let ber_error = reader.read_null().unwrap_err();
    assert!(
        ber_error.to_string().contains("expected NULL"),
        "unexpected error: {ber_error:?}"
    );
}

#[test]
fn given_truncated_value_when_read_tlv_then_returns_error() {
    // Tag says 5 bytes of value, but only 2 follow.
    let truncated = [0x04, 0x05, 0x41, 0x42];
    let mut reader = BerReader::new(&truncated);
    let ber_error = reader.read_tlv().unwrap_err();
    assert!(
        ber_error.to_string().contains("truncated"),
        "unexpected error: {ber_error:?}"
    );
}

#[test]
fn given_wrong_constructed_tag_when_read_sequence_then_returns_error() {
    // 0x30 expected but 0x31 (SET) appears.
    let set_bytes = [0x31, 0x00];
    let mut reader = BerReader::new(&set_bytes);
    let ber_error = reader.read_sequence().unwrap_err();
    assert!(
        ber_error.to_string().contains("expected tag"),
        "unexpected error: {ber_error:?}"
    );
}

#[test]
fn given_negative_integer_when_read_unsigned32_then_returns_error() {
    // INTEGER encoding of -1: 02 01 FF
    const NEGATIVE_ONE: &[u8] = &[0x02, 0x01, 0xFF];
    let mut reader = BerReader::new(NEGATIVE_ONE);
    let ber_error = reader.read_unsigned32().unwrap_err();
    assert!(
        ber_error.to_string().contains("negative"),
        "unexpected error: {ber_error:?}"
    );
}

#[test]
fn given_negative_integer_when_read_unsigned64_then_returns_error() {
    const NEGATIVE_ONE: &[u8] = &[0x02, 0x01, 0xFF];
    let mut reader = BerReader::new(NEGATIVE_ONE);
    let ber_error = reader.read_unsigned64().unwrap_err();
    assert!(
        ber_error.to_string().contains("negative"),
        "unexpected error: {ber_error:?}"
    );
}

#[test]
fn given_null_with_nonzero_length_when_read_null_then_returns_error() {
    // NULL tag with length 1 and a junk byte — this is malformed.
    const MALFORMED_NULL: &[u8] = &[0x05, 0x01, 0x00];
    let mut reader = BerReader::new(MALFORMED_NULL);
    let ber_error = reader.read_null().unwrap_err();
    assert!(
        ber_error.to_string().contains("length 0"),
        "unexpected error: {ber_error:?}"
    );
}

#[test]
fn given_reader_with_two_tlvs_when_first_consumed_then_remaining_returns_second() {
    // Two NULLs: 05 00 05 00
    const TWO_NULLS: &[u8] = &[0x05, 0x00, 0x05, 0x00];
    let mut reader = BerReader::new(TWO_NULLS);
    reader.read_null().expect("first null should parse");
    assert_eq!(reader.remaining(), &[0x05, 0x00]);
}

#[test]
fn given_writer_when_write_raw_called_then_bytes_appended_verbatim() {
    let mut writer = BerWriter::new();
    writer.write_raw(&[0x01, 0x02, 0x03]);
    assert_eq!(writer.as_bytes(), &[0x01, 0x02, 0x03]);
}

#[test]
fn given_tagged_unsigned32_when_round_tripped_then_recovers() {
    // Counter32 tag 0x41, value 1000 = 0x03E8
    // Wire: 41 02 03 E8
    const EXPECTED_WIRE: &[u8] = &[0x41, 0x02, 0x03, 0xE8];
    let mut writer = BerWriter::new();
    writer.write_tagged_unsigned32(TAG_COUNTER32, 1000);
    assert_eq!(writer.as_bytes(), EXPECTED_WIRE);
    let mut reader = BerReader::new(writer.as_bytes());
    let value = reader
        .read_tagged_unsigned32(TAG_COUNTER32)
        .expect("should decode");
    assert_eq!(value, 1000);
}

#[test]
fn given_tagged_unsigned64_when_round_tripped_then_recovers() {
    // Counter64 tag 0x46, value 0x0100000000 = 4294967296
    // Encoded unsigned bytes: [0x01, 0x00, 0x00, 0x00, 0x00] (no sign byte needed, high bit clear)
    // Wire: 46 05 01 00 00 00 00
    const EXPECTED_WIRE: &[u8] = &[0x46, 0x05, 0x01, 0x00, 0x00, 0x00, 0x00];
    let mut writer = BerWriter::new();
    writer.write_tagged_unsigned64(TAG_COUNTER64, 4_294_967_296);
    assert_eq!(writer.as_bytes(), EXPECTED_WIRE);
    let mut reader = BerReader::new(writer.as_bytes());
    let value = reader
        .read_tagged_unsigned64(TAG_COUNTER64)
        .expect("should decode");
    assert_eq!(value, 4_294_967_296);
}

// --- Malformed values ---

#[test]
fn given_zero_length_integer_when_read_integer_then_returns_error() {
    // INTEGER with length 0: 02 00
    const ZERO_LENGTH_INTEGER: &[u8] = &[0x02, 0x00];
    let mut reader = BerReader::new(ZERO_LENGTH_INTEGER);
    let ber_error = reader.read_integer().unwrap_err();
    assert!(
        ber_error.to_string().contains("zero length"),
        "unexpected error: {ber_error:?}"
    );
}

#[test]
fn given_five_byte_integer_when_read_integer_then_returns_error() {
    // INTEGER with 5 value bytes: 02 05 01 02 03 04 05
    const OVERSIZED_INTEGER: &[u8] = &[0x02, 0x05, 0x01, 0x02, 0x03, 0x04, 0x05];
    let mut reader = BerReader::new(OVERSIZED_INTEGER);
    let ber_error = reader.read_integer().unwrap_err();
    assert!(
        ber_error.to_string().contains("too large for i32"),
        "unexpected error: {ber_error:?}"
    );
}

#[test]
fn given_unsigned_too_large_for_u32_when_read_unsigned32_then_returns_error() {
    // Unsigned value 0x0100000000 (fits in u64 but not u32):
    // Sign byte 0x00 + 5 significant bytes → total 6 value bytes
    // 02 06 00 01 00 00 00 00
    const OVERSIZED_U32: &[u8] = &[0x02, 0x06, 0x00, 0x01, 0x00, 0x00, 0x00, 0x00];
    let mut reader = BerReader::new(OVERSIZED_U32);
    let ber_error = reader.read_unsigned32().unwrap_err();
    assert!(
        ber_error.to_string().contains("too large for u32"),
        "unexpected error: {ber_error:?}"
    );
}

#[test]
fn given_counter32_when_read_as_gauge32_then_returns_error() {
    // Counter32 tag 0x41, value 1: 41 01 01
    const COUNTER32_ONE: &[u8] = &[0x41, 0x01, 0x01];
    let mut reader = BerReader::new(COUNTER32_ONE);
    let ber_error = reader.read_tagged_unsigned32(TAG_GAUGE32).unwrap_err();
    assert!(
        ber_error.to_string().contains("expected"),
        "unexpected error: {ber_error:?}"
    );
}

#[test]
fn given_zero_length_oid_when_read_oid_then_returns_error() {
    // OID tag with zero length: 06 00
    const EMPTY_OID: &[u8] = &[0x06, 0x00];
    let mut reader = BerReader::new(EMPTY_OID);
    let ber_error = reader.read_oid().unwrap_err();
    assert!(
        ber_error.to_string().contains("zero length"),
        "unexpected error: {ber_error:?}"
    );
}

#[test]
fn given_oid_with_overflowing_sub_identifier_when_decoded_then_returns_error() {
    // An OID value where the first sub-id is valid (0x2B = 43 → arc 1.3)
    // then a second sub-id with 11 continuation bytes that overflows u64.
    // Each byte has continuation bit set (0x80+) except the last.
    // 11 groups of 7 bits = 77 bits > 64 bits → overflow guaranteed.
    const OVERFLOWING_OID: &[u8] = &[
        0x06, 0x0C, // OID tag, length 12
        0x2B, // first sub-id: 43 (arc 1.3)
        // 11-byte sub-identifier that overflows u64:
        0xFF, 0xFF, 0xFF, 0xFF, 0xFF, 0xFF, 0xFF, 0xFF, 0xFF, 0xFF, 0x7F,
    ];
    let mut reader = BerReader::new(OVERFLOWING_OID);
    let ber_error = reader.read_oid().unwrap_err();
    assert!(
        ber_error.to_string().contains("overflow"),
        "unexpected error: {ber_error:?}"
    );
}

#[test]
fn given_unsigned32_max_when_encoded_then_matches_expected_wire() {
    // u32::MAX = 0xFFFFFFFF, high bit set → prepend 0x00 sign byte
    // INTEGER tag 0x02, length 5, value 00 FF FF FF FF
    const EXPECTED_WIRE: &[u8] = &[0x02, 0x05, 0x00, 0xFF, 0xFF, 0xFF, 0xFF];
    let encoded = encode_with_writer(|w| w.write_unsigned32(u32::MAX));
    assert_eq!(encoded, EXPECTED_WIRE);
}

#[test]
fn given_unsigned64_max_when_encoded_then_matches_expected_wire() {
    // u64::MAX, high bit set → prepend 0x00
    // INTEGER tag 0x02, length 9, value 00 FF FF FF FF FF FF FF FF
    const EXPECTED_WIRE: &[u8] = &[
        0x02, 0x09, 0x00, 0xFF, 0xFF, 0xFF, 0xFF, 0xFF, 0xFF, 0xFF, 0xFF,
    ];
    let encoded = encode_with_writer(|w| w.write_unsigned64(u64::MAX));
    assert_eq!(encoded, EXPECTED_WIRE);
}

#[test]
fn given_ber_error_when_debug_formatted_then_contains_fields() {
    let error = BerError::new("test message".to_string());
    let debug_output = format!("{error:?}");
    assert!(
        debug_output.contains("BerError"),
        "Debug output should contain struct name: {debug_output}"
    );
    assert!(
        debug_output.contains("message"),
        "Debug output should contain field name: {debug_output}"
    );
    assert!(
        debug_output.contains("test message"),
        "Debug output should contain message value: {debug_output}"
    );
    assert!(
        debug_output.contains("is_wrong_version"),
        "Debug output should contain is_wrong_version field: {debug_output}"
    );
    assert!(
        debug_output.contains("false"),
        "Debug output should contain is_wrong_version value: {debug_output}"
    );
}

#[test]
fn given_writer_with_capacity_when_integer_written_then_matches_default_writer() {
    let mut writer_cap = BerWriter::with_capacity(64);
    writer_cap.write_integer(42);

    let mut writer_default = BerWriter::new();
    writer_default.write_integer(42);

    assert_eq!(writer_cap.as_bytes(), writer_default.as_bytes());
}

#[test]
fn given_writer_after_writing_octet_string_when_len_called_then_returns_correct_byte_count() {
    let mut writer = BerWriter::new();
    writer.write_octet_string(b"hello");
    // tag(0x04) + length(0x05) + 5 payload bytes = 7
    assert_eq!(writer.len(), 7);
}

#[test]
fn given_wrong_version_error_when_debug_formatted_then_shows_true() {
    let error = BerError::wrong_version("version mismatch".to_string());
    let debug_output = format!("{error:?}");
    assert!(
        debug_output.contains("true"),
        "Debug output should show is_wrong_version as true: {debug_output}"
    );
}

#[test]
fn given_single_zero_byte_when_decoded_as_unsigned_then_returns_zero() {
    let result = decode_unsigned(&[0x00], 4, 0).expect("single zero byte should decode");
    assert_eq!(result, 0);
}

#[test]
fn given_two_byte_unsigned_with_sign_padding_when_decoded_then_strips_leading_zero() {
    // [0x00, 0x80] has leading 0x00 sign byte; significant bytes = [0x80] → value 128
    let result = decode_unsigned(&[0x00, 0x80], 4, 0)
        .expect("two-byte unsigned with sign padding should decode");
    assert_eq!(result, 128);
}

#[test]
fn given_ber_encoded_integer_zero_when_decoded_as_unsigned32_then_returns_zero() {
    // INTEGER 0 is BER-encoded as tag=0x02, length=0x01, value=0x00.
    // The decode_unsigned path must keep the single [0x00] byte as significant
    // (len == 1, so len > 1 is false) rather than stripping it to empty.
    // Both paths produce value 0, confirming the condition is semantically correct.
    const BER_INTEGER_ZERO: &[u8] = &[0x02, 0x01, 0x00];
    let mut reader = BerReader::new(BER_INTEGER_ZERO);
    let decoded_value = reader
        .read_unsigned32()
        .expect("BER-encoded integer 0 must decode successfully");
    assert_eq!(decoded_value, 0);
}

#[test]
fn given_multiple_redundant_leading_zeroes_when_decoded_as_unsigned_then_strips_all() {
    // [0x00, 0x00, 0x00, 0x01] → 1 (three redundant sign bytes)
    let result = decode_unsigned(&[0x00, 0x00, 0x00, 0x01], 4, 0)
        .expect("three leading zeroes before 0x01 should decode");
    assert_eq!(result, 1);

    // [0x00, 0x00, 0x00, 0x00, 0x00, 0x80] → 128 (five leading zeroes, one significant byte)
    let result = decode_unsigned(&[0x00, 0x00, 0x00, 0x00, 0x00, 0x80], 4, 0)
        .expect("five leading zeroes before 0x80 should decode");
    assert_eq!(result, 128);

    // [0x00, 0x00, 0x00, 0x00, 0x00] → 0 (all zeroes; last byte preserved as value)
    let result = decode_unsigned(&[0x00, 0x00, 0x00, 0x00, 0x00], 4, 0)
        .expect("all-zero bytes should decode as 0");
    assert_eq!(result, 0);

    // [0x00, 0x00, 0x01, 0x02, 0x03, 0x04]: two leading zeroes then four significant
    // bytes; must succeed for max_width=4.
    let result = decode_unsigned(&[0x00, 0x00, 0x01, 0x02, 0x03, 0x04], 4, 0)
        .expect("two leading zeroes before four significant bytes should decode");
    assert_eq!(result, 0x0102_0304);

    // [0x00, 0x01, 0x02, 0x03, 0x04, 0x05]: one leading zero then five significant
    // bytes; must fail for max_width=4.
    decode_unsigned(&[0x00, 0x01, 0x02, 0x03, 0x04, 0x05], 4, 0)
        .expect_err("five significant bytes must exceed max_width=4");
}

#[test]
fn given_multiple_redundant_leading_bytes_when_decoded_as_signed_then_strips_all() {
    // [0x00, 0x00, 0x00, 0x01] encodes +1 with three redundant 0x00 sign bytes.
    let result = decode_signed_i32(&[0x00, 0x00, 0x00, 0x01], 0)
        .expect("three leading zeroes before 0x01 should decode as +1");
    assert_eq!(result, 1);

    // [0xFF, 0xFF, 0xFF, 0xFF] encodes -1 with three redundant 0xFF sign bytes.
    let result = decode_signed_i32(&[0xFF, 0xFF, 0xFF, 0xFF], 0)
        .expect("three leading 0xFF bytes should decode as -1");
    assert_eq!(result, -1);

    // [0xFF, 0x80] encodes -128: 0xFF is redundant (next byte 0x80 has high bit set).
    let result = decode_signed_i32(&[0xFF, 0x80], 0).expect("0xFF 0x80 should decode as -128");
    assert_eq!(result, -128);

    // [0x00, 0x7F] encodes +127: 0x00 is redundant (next byte 0x7F has high bit clear).
    let result = decode_signed_i32(&[0x00, 0x7F], 0).expect("0x00 0x7F should decode as +127");
    assert_eq!(result, 127);

    // [0xFF, 0xFF, 0x80, 0x00, 0x00, 0x00, 0x01]: two redundant 0xFF bytes, then five
    // significant bytes — must fail because 5 > max i32 width of 4.
    decode_signed_i32(&[0xFF, 0xFF, 0x80, 0x00, 0x00, 0x00, 0x01], 0)
        .expect_err("five significant bytes must exceed i32 capacity");
}

#[test]
fn given_oid_1_0_when_round_tripped_then_recovers_correctly() {
    // OID "1.0": combined first sub-id = 40*1 + 0 = 40 = 0x28
    // Wire: 06 01 28
    // This value must be decoded as arc (1, 0), not (0, 40).
    const EXPECTED_WIRE: &[u8] = &[0x06, 0x01, 0x28];
    let oid: Oid = "1.0".parse().unwrap();
    let encoded = encode_with_writer(|w| w.write_oid(&oid));
    assert_eq!(encoded, EXPECTED_WIRE);
    let recovered = BerReader::new(&encoded)
        .read_oid()
        .expect("OID 1.0 should decode");
    assert_eq!(recovered, oid);
}

#[test]
fn given_oid_2_0_when_round_tripped_then_recovers_correctly() {
    // OID "2.0": combined first sub-id = 40*2 + 0 = 80 = 0x50
    // Wire: 06 01 50
    // This value must be decoded as arc (2, 0), not (1, 40).
    const EXPECTED_WIRE: &[u8] = &[0x06, 0x01, 0x50];
    let oid: Oid = "2.0".parse().unwrap();
    let encoded = encode_with_writer(|w| w.write_oid(&oid));
    assert_eq!(encoded, EXPECTED_WIRE);
    let recovered = BerReader::new(&encoded)
        .read_oid()
        .expect("OID 2.0 should decode");
    assert_eq!(recovered, oid);
}

#[test]
fn given_oid_with_129_sub_identifiers_when_decoded_then_returns_error() {
    // First BER byte 0x00 encodes arcs (0, 0), then 127 more single-byte
    // sub-identifiers (0x01 each), giving 2 + 127 = 129 total arcs.
    let mut oid_value = vec![0x00u8]; // arcs 0.0
    oid_value.extend(std::iter::repeat_n(0x01u8, 127));
    // Total OID value length = 128 bytes
    // Wrap in OID TLV: tag 0x06, length 128 (long form: 0x81 0x80)
    let mut tlv = vec![0x06, 0x81, 0x80];
    tlv.extend(&oid_value);
    let mut reader = BerReader::new(&tlv);
    let ber_error = reader.read_oid().unwrap_err();
    let error_message = ber_error.to_string();
    assert!(
        error_message.contains("too many sub-identifiers"),
        "error must mention sub-identifier limit, got: {error_message:?}"
    );
    assert!(
        error_message.contains("129"),
        "error must report the actual count, got: {error_message:?}"
    );
}

#[test]
fn given_oid_with_128_sub_identifiers_when_decoded_then_succeeds() {
    // First BER byte 0x00 encodes arcs (0, 0), then 126 more single-byte
    // sub-identifiers (0x01 each), giving 2 + 126 = 128 total arcs.
    let mut oid_value = vec![0x00u8]; // arcs 0.0
    oid_value.extend(std::iter::repeat_n(0x01u8, 126));
    // Total OID value length = 127 bytes
    // Wrap in OID TLV: tag 0x06, length 127 (short form: 0x7F)
    let mut tlv = vec![0x06, 0x7F];
    tlv.extend(&oid_value);
    let mut reader = BerReader::new(&tlv);
    let oid = reader
        .read_oid()
        .expect("128 sub-identifiers should succeed");
    assert_eq!(oid.as_slice().len(), 128);
    assert_eq!(oid.as_slice()[0], 0);
    assert_eq!(oid.as_slice()[1], 0);
    assert_eq!(oid.as_slice()[127], 1);
}

#[test]
fn given_oid_sub_identifier_with_leading_0x80_when_decoded_then_returns_error() {
    // OID where the second sub-identifier starts with 0x80 followed by 0x00.
    // 0x80 has the continuation bit set but value bits all zero, which is
    // a non-minimal base-128 encoding per X.690 §8.19.2.
    // Wire: OID tag 0x06, length 3, value [0x2B, 0x80, 0x00].
    // 0x2B = 43 encodes arcs 1.3; 0x80 0x00 is a non-minimal encoding of 0.
    const NON_MINIMAL_OID: &[u8] = &[0x06, 0x03, 0x2B, 0x80, 0x00];
    let mut reader = BerReader::new(NON_MINIMAL_OID);
    let ber_error = reader.read_oid().unwrap_err();
    let error_message = ber_error.to_string();
    assert!(
        error_message.contains("non-minimal"),
        "error must mention non-minimal encoding, got: {error_message:?}"
    );
    assert!(
        error_message.contains("offset"),
        "error must include offset context, got: {error_message:?}"
    );
}

#[test]
fn given_oid_with_zero_sub_identifier_when_decoded_then_succeeds() {
    // 0x00 is the minimal single-byte encoding for sub-identifier value 0.
    // It must NOT be rejected by the non-minimal encoding check.
    // Wire: OID tag 0x06, length 2, value [0x2B, 0x00] = OID 1.3.0.
    const OID_WITH_ZERO: &[u8] = &[0x06, 0x02, 0x2B, 0x00];
    let mut reader = BerReader::new(OID_WITH_ZERO);
    let oid = reader
        .read_oid()
        .expect("zero sub-identifier must be accepted");
    assert_eq!(oid, "1.3.0".parse::<Oid>().unwrap());
}

#[test]
fn given_oid_sub_identifier_with_longer_leading_0x80_when_decoded_then_returns_error() {
    // Wire: OID tag 0x06, length 4, value [0x2B, 0x80, 0x80, 0x01].
    // 0x80 0x80 0x01 is a non-minimal encoding (starts with leading 0x80).
    const NON_MINIMAL_OID: &[u8] = &[0x06, 0x04, 0x2B, 0x80, 0x80, 0x01];
    let mut reader = BerReader::new(NON_MINIMAL_OID);
    let ber_error = reader.read_oid().unwrap_err();
    assert!(ber_error.to_string().contains("non-minimal"));
}
