use mock_oracle::datetime::DateTime;
use mock_oracle::number::Number;
use mock_oracle::server::auth::{Challenge, LoginError, PhaseOne};
use mock_oracle::server::message::{decode_date, encode_date, max_size, write_describe, write_error, write_protocol, write_status, write_value};
use mock_oracle::server::oranum::{decode, encode, encode_value};
use mock_oracle::server::tns::{accept_body, descriptor_value, refuse_body, HEADER_LEN, VERSION};
use mock_oracle::server::ttc::{ReadBuf, WriteBuf, LONG_LENGTH_INDICATOR};
use mock_oracle::dml::Column;
use mock_oracle::error::OraError;
use mock_oracle::value::{SqlType, Value};
use sha2::{Digest, Sha512};
use aes::cipher::block_padding::NoPadding;
use aes::cipher::{BlockDecryptMut, BlockEncryptMut, KeyIvInit};

fn seal(key: &[u8; 32], data: &[u8]) -> Vec<u8> {
    cbc::Encryptor::<aes::Aes256>::new(key.into(), &[0u8; 16].into()).encrypt_padded_vec_mut::<NoPadding>(data)
}

fn unseal(key: &[u8; 32], data: &[u8]) -> Vec<u8> {
    cbc::Decryptor::<aes::Aes256>::new(key.into(), &[0u8; 16].into()).decrypt_padded_vec_mut::<NoPadding>(data).unwrap()
}

/// Plays the client side exactly as node-oracledb does.
fn client_login(reply: &PhaseOne, password: &str) -> (String, String, [u8; 32]) {
    let vfr = hex::decode(&reply.vfr_data).unwrap();
    let mut salt = vfr.clone();
    salt.extend_from_slice(b"AUTH_PBKDF2_SPEEDY_KEY");
    let mut password_key = [0u8; 64];
    pbkdf2::pbkdf2_hmac::<Sha512>(password.as_bytes(), &salt, 4096, &mut password_key);
    let mut h = Sha512::new();
    h.update(password_key);
    h.update(&vfr);
    let password_hash: [u8; 32] = h.finalize()[..32].try_into().unwrap();
    let server_key = unseal(&password_hash, &hex::decode(&reply.sesskey).unwrap());
    let client_key = [9u8; 32];
    let sesskey = hex::encode_upper(seal(&password_hash, &client_key));
    let mut mixed = client_key.to_vec();
    mixed.extend_from_slice(&server_key);
    let mut combo = [0u8; 32];
    pbkdf2::pbkdf2_hmac::<Sha512>(
        hex::encode_upper(mixed).as_bytes(),
        &hex::decode(&reply.csk_salt).unwrap(),
        3,
        &mut combo,
    );
    let mut plain = vec![1u8; 16];
    plain.extend_from_slice(password.as_bytes());
    let n = 16 - plain.len() % 16;
    plain.extend(std::iter::repeat(n as u8).take(n));
    (sesskey, hex::encode_upper(seal(&combo, &plain)), combo)
}

#[test]
fn accepts_the_right_password() {
    let (challenge, reply) = Challenge::new("secret");
    let (sesskey, password, combo) = client_login(&reply, "secret");
    let response = challenge.verify(&sesskey, &password, "secret").ok().unwrap();
    let decoded = unseal(&combo, &hex::decode(response).unwrap());
    assert_eq!(&decoded[16..], b"SERVER_TO_CLIENT");
}

#[test]
fn rejects_a_wrong_password() {
    let (challenge, reply) = Challenge::new("secret");
    let (sesskey, password, _) = client_login(&reply, "wrong");
    assert!(matches!(
        challenge.verify(&sesskey, &password, "secret"),
        Err(LoginError::InvalidCredentials)
    ));
}

#[test]
fn malformed_login_values_are_told_apart() {
    let (challenge, reply) = Challenge::new("secret");
    let (sesskey, password, _) = client_login(&reply, "secret");
    assert!(matches!(challenge.verify("zz", &password, "secret"), Err(LoginError::Protocol(m)) if m == "AUTH_SESSKEY is not hex"));
    assert!(matches!(challenge.verify("00", &password, "secret"), Err(LoginError::Protocol(m)) if m == "AUTH_SESSKEY has the wrong length"));
    assert!(matches!(challenge.verify(&sesskey, "xyz", "secret"), Err(LoginError::InvalidCredentials)));
    assert!(matches!(challenge.verify(&sesskey, "00", "secret"), Err(LoginError::InvalidCredentials)));
    assert_eq!(reply.vgen_count, "4096");
    assert_eq!(reply.sder_count, "3");
}

#[test]
fn challenges_of_given_bytes_are_reproducible() {
    let (_, a) = Challenge::with("secret", &[1u8; 16], &[2u8; 16], &[3u8; 32]);
    let (_, b) = Challenge::with("secret", &[1u8; 16], &[2u8; 16], &[3u8; 32]);
    let (_, c) = Challenge::with("other", &[1u8; 16], &[2u8; 16], &[3u8; 32]);
    assert_eq!(a.sesskey, b.sesskey);
    assert_ne!(a.sesskey, c.sesskey);
    assert_eq!(a.vfr_data, "01".repeat(16));
    assert_eq!(a.csk_salt, "02".repeat(16));
}

#[test]
fn known_encodings() {
    assert_eq!(encode("0").unwrap(), vec![0x80]);
    assert_eq!(encode("1").unwrap(), vec![0xc1, 0x02]);
    assert_eq!(encode("100").unwrap(), vec![0xc2, 0x02]);
    assert_eq!(encode("-1").unwrap(), vec![0x3e, 0x64, 0x66]);
    assert_eq!(encode("0.5").unwrap(), vec![0xc0, 0x33]);
    assert_eq!(encode("1E+2").unwrap(), vec![0xc2, 0x02]);
}

#[test]
fn round_trips() {
    for s in ["1", "-1", "12.5", "-0.001", "123456789012345678901234567890", ".25", "1000"] {
        let expected = Value::parse_number(s).unwrap().to_string();
        assert_eq!(decode(&encode(s).unwrap()), expected, "{s}");
    }
}

#[test]
fn numbers_that_do_not_fit_are_not_encoded() {
    assert!(encode("1e200").is_none());
    assert!(encode("abc").is_none());
    assert!(encode(&"1".repeat(41)).is_none());
    assert!(encode_value(&Value::varchar("1")).is_none());
    assert_eq!(encode_value(&Value::number(100)).unwrap(), vec![0xc2, 0x02]);
    assert_eq!(decode(&[]), "0");
    assert_eq!(decode(&[0x80]), "0");
    assert_eq!(decode(&[0x00]), "-1e126");
}

#[test]
fn reads_service_name_from_descriptor() {
    let d = "(DESCRIPTION=(CONNECT_DATA=(SERVICE_NAME=freepdb1)(CID=(PROGRAM=node)))(ADDRESS=(PROTOCOL=tcp)(HOST=localhost)(PORT=1521)))";
    assert_eq!(descriptor_value(d, "service_name").as_deref(), Some("freepdb1"));
    assert_eq!(descriptor_value(d, "SID"), None);
}

#[test]
fn accept_packet_layout() {
    let b = accept_body(8192, 65535);
    assert_eq!(b.len() + HEADER_LEN, 45);
    assert_eq!(u16::from_be_bytes([b[0], b[1]]), VERSION);
    assert_eq!(u32::from_be_bytes(b[24..28].try_into().unwrap()), 8192);
}

#[test]
fn refusals_name_the_error() {
    let b = refuse_body(12520);
    assert!(String::from_utf8_lossy(&b).contains("12520"));
}

#[test]
fn var_ints_round_trip() {
    let mut w = WriteBuf::new();
    for v in [0u32, 1, 255, 256, 65535, 65536, u32::MAX] {
        w.ub4(v);
    }
    w.sb2(-300);
    let mut r = ReadBuf::new(&w.buf);
    for v in [0u32, 1, 255, 256, 65535, 65536, u32::MAX] {
        assert_eq!(r.ub4().unwrap(), v);
    }
    assert_eq!(r.u8().unwrap(), 0x82);
    assert_eq!(r.bytes(2).unwrap(), &300u16.to_be_bytes());
    assert_eq!(r.remaining(), 0);
}

#[test]
fn long_byte_strings_are_chunked() {
    let data = vec![7u8; 1000];
    let mut w = WriteBuf::new();
    w.bytes_with_length(&data);
    assert_eq!(w.buf[0], LONG_LENGTH_INDICATOR);
    assert_eq!(ReadBuf::new(&w.buf).bytes_with_length().unwrap(), Some(data));
}

#[test]
fn key_values_round_trip() {
    let mut w = WriteBuf::new();
    w.key_value("AUTH_SESSKEY", "ABCD", 1);
    assert_eq!(
        ReadBuf::new(&w.buf).key_value().unwrap(),
        ("AUTH_SESSKEY".into(), "ABCD".into(), 1)
    );
}

#[test]
fn dates_round_trip_on_the_wire() {
    let d = DateTime::new(2024, 3, 5, 14, 7, 9, 123456000).unwrap();
    let b = encode_date(&d, true);
    assert_eq!(b.len(), 11);
    assert!(decode_date(&b).unwrap() == d);
    assert_eq!(encode_date(&d, false), vec![120, 124, 3, 5, 15, 8, 10]);
    assert!(decode_date(&[1, 2, 3]).is_err());
    assert!(decode_date(&[120, 124, 3, 5, 0, 8, 10]).is_err());
    assert!(decode_date(&[120, 124, 2, 30, 1, 1, 1]).is_err());
}

#[test]
fn messages_have_the_wire_layout() {
    let mut w = WriteBuf::new();
    write_status(&mut w, 2);
    assert_eq!(w.buf, vec![9, 1, 2, 0]);
    let mut w = WriteBuf::new();
    write_error(&mut w, 0, 1, 3, Some(&OraError::new(1403, "no data found")));
    assert_eq!(&w.buf[..8], &[4, 0, 0, 0, 2, 5, 123, 0]);
    assert!(String::from_utf8_lossy(&w.buf).contains("ORA-01403: no data found\n"));
    let mut w = WriteBuf::new();
    write_value(&mut w, &Value::number(1), SqlType::Number { precision: 0, scale: 0 });
    write_value(&mut w, &Value::Null, SqlType::Date);
    write_value(&mut w, &Value::Null, SqlType::Varchar2(0));
    write_value(&mut w, &Value::varchar("ab"), SqlType::Varchar2(2));
    assert_eq!(w.buf, vec![2, 0xc1, 2, 0, 2, b'a', b'b']);
    let mut w = WriteBuf::new();
    write_protocol(&mut w);
    assert_eq!(&w.buf[..15], b"\x01\x06\x00mock-oracle\x00");
    assert_eq!(w.buf.len(), 15 + 5 + 2 + 11 + 54 + 8);
    let mut w = WriteBuf::new();
    write_describe(&mut w, &vec![Column { name: "ID".to_string(), sql_type: SqlType::Number { precision: 6, scale: 0 } }]);
    assert_eq!(&w.buf[..6], &[16, 0, 1, 22, 1, 1]);
    assert_eq!(max_size(SqlType::Timestamp(6)), 11);
}

#[test]
fn numbers_keep_their_sign_and_scale() {
    let n = Number::parse("-12.50").unwrap();
    assert_eq!(n.scientific(), "-1.25e1");
}

#[test]
fn the_wire_form_of_numbers_keeps_their_order() {
    let rising = ["-1e20", "-123.5", "-123", "-1", "-0.001", "0", "1e-10", "0.5", "1", "99", "100", "100.01", "1e20"];
    for pair in rising.windows(2) {
        assert!(encode(pair[0]).unwrap() < encode(pair[1]).unwrap(), "{pair:?}");
    }
}

#[test]
fn a_literal_decodes_to_what_it_reads_as() {
    for x in ["007.50", "1e3", ".5e-2", "-12.00"] {
        let read = Value::parse_number(x).unwrap().to_string();
        assert_eq!(decode(&encode(x).unwrap()), read, "{x}");
    }
}
