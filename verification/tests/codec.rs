//! Byte-level codec tests: integer encodings, packet headers, segmentation,
//! token streams, pre-login bodies and login messages.

use tds_client::bytesutil::{
    format_decimal, i32_as_u32, parse_decimal_u16, push_u16_be, push_u16_le, push_u32_le,
    read_u16_be, read_u16_le, read_u32_le, u32_as_i32,
};
use tds_client::login::{
    decode_prelogin, encode_prelogin, obfuscate, EncryptionSetting, Login7, OptionTokenPair,
};
use tds_client::packets::{
    frame_message, reassemble_payloads, PacketHeader, PacketKind, PacketStatus, HEADER_SIZE,
};
use tds_client::rpc::{RpcParamData, RpcProcId, RpcProcIdValue, RpcRequestData};
use tds_client::tokens::{
    decode_tokens, encode_tokens, ColumnData, ColumnType, ColumnValue, Token, DONE_STATUS_COUNT,
};

#[test]
fn u16_big_endian_roundtrip() {
    let mut out = Vec::new();
    push_u16_be(&mut out, 0xABCD);
    assert_eq!(out, vec![0xAB, 0xCD]);
    assert_eq!(read_u16_be(&out, 0), 0xABCD);
}

#[test]
fn u16_little_endian_roundtrip() {
    let mut out = Vec::new();
    push_u16_le(&mut out, 0xABCD);
    assert_eq!(out, vec![0xCD, 0xAB]);
    assert_eq!(read_u16_le(&out, 0), 0xABCD);
}

#[test]
fn u32_little_endian_roundtrip() {
    let mut out = Vec::new();
    push_u32_le(&mut out, 0x1234_5678);
    assert_eq!(out, vec![0x78, 0x56, 0x34, 0x12]);
    assert_eq!(read_u32_le(&out, 0), 0x1234_5678);
}

#[test]
fn signed_carrier_roundtrip() {
    assert_eq!(u32_as_i32(i32_as_u32(-7)), -7);
    assert_eq!(i32_as_u32(-1), 0xFFFF_FFFF);
    assert_eq!(u32_as_i32(0xFFFF_FFFF), -1);
    assert_eq!(i32_as_u32(42), 42);
}

#[test]
fn decimal_format_and_parse() {
    assert_eq!(format_decimal(0), b"0".to_vec());
    assert_eq!(format_decimal(2048), b"2048".to_vec());
    assert_eq!(parse_decimal_u16(&b"2048".to_vec()), Some(2048));
    assert_eq!(parse_decimal_u16(&b"0".to_vec()), Some(0));
    assert_eq!(parse_decimal_u16(&b"65535".to_vec()), Some(65535));
    assert_eq!(parse_decimal_u16(&b"65536".to_vec()), None);
    assert_eq!(parse_decimal_u16(&b"".to_vec()), None);
    assert_eq!(parse_decimal_u16(&b"20x8".to_vec()), None);
}

#[test]
fn header_encode_decode() {
    let h = PacketHeader {
        kind: PacketKind::SqlBatch,
        status: PacketStatus::EndOfMessage,
        length: 0x1234,
        session: 7,
        id: 3,
        window: 0,
    };
    let mut wire = Vec::new();
    h.encode_onto(&mut wire);
    assert_eq!(wire.len(), HEADER_SIZE);
    let back = PacketHeader::decode_at(&wire, 0).unwrap();
    assert_eq!(back, h);
}

#[test]
fn header_rejects_unknown_kind() {
    let wire = vec![0xEE, 0x01, 0x00, 0x08, 0x00, 0x00, 0x00, 0x00];
    assert!(PacketHeader::decode_at(&wire, 0).is_none());
}

#[test]
fn segmentation_single_packet() {
    let body: Vec<u8> = (0u8..100).collect();
    let packets = frame_message(PacketKind::SqlBatch, &body, 4096, 0);
    assert_eq!(packets.len(), 1);
    assert_eq!(packets[0].header.status, PacketStatus::EndOfMessage);
    assert_eq!(packets[0].header.length as usize, HEADER_SIZE + 100);
    assert_eq!(packets[0].header.id, 0);
    assert_eq!(reassemble_payloads(&packets), body);
}

#[test]
fn segmentation_round_trip_multi_packet() {
    // capacity is 24 - 8 = 16 bytes per packet; 50 bytes need ceil(50/16) = 4.
    let body: Vec<u8> = (0u8..50).collect();
    let packets = frame_message(PacketKind::RpcRequest, &body, 24, 0);
    assert_eq!(packets.len(), 4);
    for (i, p) in packets.iter().enumerate() {
        let last = i == packets.len() - 1;
        assert_eq!(
            p.header.status,
            if last { PacketStatus::EndOfMessage } else { PacketStatus::NormalMessage }
        );
        assert!(p.payload.len() <= 16);
        if !last {
            assert_eq!(p.payload.len(), 16);
        }
        assert_eq!(p.header.id as usize, i);
    }
    assert_eq!(reassemble_payloads(&packets), body);
}

#[test]
fn segmentation_empty_body_is_one_packet() {
    let body: Vec<u8> = Vec::new();
    let packets = frame_message(PacketKind::PreLogin, &body, 512, 5);
    assert_eq!(packets.len(), 1);
    assert_eq!(packets[0].header.status, PacketStatus::EndOfMessage);
    assert_eq!(packets[0].header.length as usize, HEADER_SIZE);
}

#[test]
fn packet_ids_wrap_without_gap() {
    // capacity 1 byte per packet, 4 bytes, starting at id 253: 253, 254, 0, 1.
    let body: Vec<u8> = vec![9, 9, 9, 9];
    let packets = frame_message(PacketKind::SqlBatch, &body, 9, 253);
    let ids: Vec<u8> = packets.iter().map(|p| p.header.id).collect();
    assert_eq!(ids, vec![253, 254, 0, 1]);
}

#[test]
fn token_stream_roundtrip_all_kinds() {
    let tokens = vec![
        Token::ColMetaData {
            columns: vec![
                ColumnData { col_name: b"id".to_vec(), wire_type: 1 },
                ColumnData { col_name: b"name".to_vec(), wire_type: 2 },
            ],
        },
        Token::Row {
            values: vec![
                ColumnValue::Val(ColumnType::I32(-5)),
                ColumnValue::Val(ColumnType::VarChar(b"abc".to_vec())),
                ColumnValue::Null,
            ],
        },
        Token::ReturnValue {
            name: b"handle".to_vec(),
            value: ColumnValue::Val(ColumnType::I32(77)),
        },
        Token::EnvChange {
            kind: 4,
            new_value: b"2048".to_vec(),
            old_value: b"4096".to_vec(),
        },
        Token::Error { code: 105, message: b"syntax error".to_vec() },
        Token::Done { status: DONE_STATUS_COUNT, row_count: 3 },
    ];
    let body = encode_tokens(&tokens);
    let back = decode_tokens(&body).unwrap();
    assert_eq!(back.len(), tokens.len());
    match &back[1] {
        Token::Row { values } => {
            assert!(matches!(values[0], ColumnValue::Val(ColumnType::I32(-5))));
            assert!(matches!(values[2], ColumnValue::Null));
        }
        other => panic!("expected row token, got {:?}", other),
    }
    match &back[4] {
        Token::Error { code, message } => {
            assert_eq!(*code, 105);
            assert_eq!(message, &b"syntax error".to_vec());
        }
        other => panic!("expected error token, got {:?}", other),
    }
}

#[test]
fn token_stream_rejects_unknown_discriminant() {
    let body = vec![0x42, 0x00];
    assert!(decode_tokens(&body).is_err());
}

#[test]
fn token_stream_rejects_truncated_body() {
    let tokens = vec![Token::Done { status: DONE_STATUS_COUNT, row_count: 3 }];
    let mut body = encode_tokens(&tokens);
    body.pop();
    assert!(decode_tokens(&body).is_err());
}

#[test]
fn prelogin_roundtrip() {
    let options = vec![
        OptionTokenPair::Version(0x09000000, 0),
        OptionTokenPair::Encryption(EncryptionSetting::NotSupported),
        OptionTokenPair::Instance(b"inst".to_vec()),
        OptionTokenPair::ThreadId(12),
        OptionTokenPair::Mars(0),
    ];
    let body = encode_prelogin(&options);
    assert_eq!(*body.last().unwrap(), 0xFF);
    let back = decode_prelogin(&body).unwrap();
    assert_eq!(back.len(), options.len());
    assert!(matches!(back[0], OptionTokenPair::Version(0x09000000, 0)));
    assert!(matches!(back[1], OptionTokenPair::Encryption(EncryptionSetting::NotSupported)));
    match &back[2] {
        OptionTokenPair::Instance(name) => assert_eq!(name, &b"inst".to_vec()),
        other => panic!("expected instance option, got {:?}", other),
    }
}

#[test]
fn prelogin_rejects_missing_terminator() {
    let options = vec![OptionTokenPair::Mars(1)];
    let mut body = encode_prelogin(&options);
    body.pop();
    assert!(decode_prelogin(&body).is_err());
}

#[test]
fn password_obfuscation() {
    // nibble swap then XOR with 0xA5: 0x12 -> 0x21 ^ 0xA5 = 0x84.
    let out = obfuscate(&vec![0x12]);
    assert_eq!(out, vec![0x84]);
    assert_eq!(obfuscate(&Vec::new()), Vec::<u8>::new());
}

#[test]
fn login_message_layout() {
    let mut login = Login7::new(0x03000A73);
    login.username = b"sa".to_vec();
    login.password = b"pw".to_vec();
    login.set_db(b"db".to_vec());
    login.packet_size = 0x1000;
    let wire = login.encode();
    // fixed header: version, packet size, six offset/length pairs.
    assert_eq!(&wire[0..4], &[0x73, 0x0A, 0x00, 0x03]);
    assert_eq!(&wire[4..8], &[0x00, 0x10, 0x00, 0x00]);
    // client name: offset 32, length 0; username: offset 32, length 2.
    assert_eq!(&wire[8..12], &[32, 0, 0, 0]);
    assert_eq!(&wire[12..16], &[32, 0, 2, 0]);
    assert_eq!(wire.len(), 32 + 6);
    // username plain, password obfuscated, database plain.
    assert_eq!(&wire[32..34], b"sa");
    assert_ne!(&wire[34..36], b"pw");
    assert_eq!(&wire[36..38], b"db");
}

#[test]
fn rpc_request_encoding() {
    let req = RpcRequestData {
        proc_id: RpcProcIdValue::Id(RpcProcId::SpPrepare),
        flags: 0,
        params: vec![RpcParamData {
            name: b"handle".to_vec(),
            status_flags: 1,
            value: ColumnType::I32(0),
        }],
    };
    let wire = req.encode();
    // proc id by number: tag 0, then 11 little endian.
    assert_eq!(&wire[0..3], &[0x00, 11, 0]);
    // flags, then parameter count 1.
    assert_eq!(&wire[3..7], &[0, 0, 1, 0]);
    // first parameter: name length 6, "handle", status 1, value tag+payload.
    assert_eq!(&wire[7..9], &[6, 0]);
    assert_eq!(&wire[9..15], b"handle");
    assert_eq!(wire[15], 1);
    assert_eq!(wire[16], 0x01);
}

#[test]
fn rpc_request_by_name() {
    let req = RpcRequestData {
        proc_id: RpcProcIdValue::Name(b"sp_execute".to_vec()),
        flags: 2,
        params: vec![],
    };
    let wire = req.encode();
    assert_eq!(wire[0], 0x01);
    assert_eq!(&wire[1..3], &[10, 0]);
    assert_eq!(&wire[3..13], b"sp_execute");
}
