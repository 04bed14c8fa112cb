//! Scenario tests that run the whole engine against a scripted in-memory
//! peer: the handshake, the three execution strategies and the row
//! materialization.

use tds_client::conn::{
    AuthenticationMethod, ClientState, Connection, ConnectionOptBuilder, ConnectionOptions,
    InternalConnection, MemoryStream, negotiated_packet_size,
};
use tds_client::errors::{ProtocolErrorKind, TdsError};
use tds_client::packets::{frame_message, PacketHeader, PacketKind, PacketStatus, HEADER_SIZE};
use tds_client::stmt::{
    handle_execute_packet, handle_from_tokens, handle_query_packet, RowIndex,
};
use tds_client::tokens::{
    encode_tokens, ColumnData, ColumnType, ColumnValue, Token, DONE_STATUS_COUNT,
    ENV_PACKET_SIZE,
};
use tds_client::login::{encode_prelogin, OptionTokenPair};

/// Frames a server reply into wire bytes as the peer would send it.
fn framed(kind: PacketKind, body: Vec<u8>) -> Vec<u8> {
    let packets = frame_message(kind, &body, 4096, 0);
    let mut out = Vec::new();
    for p in &packets {
        out.extend(p.to_wire());
    }
    out
}

/// The two handshake replies: a pre-login reply, then a login response
/// confirming the given packet size.
fn handshake_replies(packet_size: &[u8]) -> Vec<u8> {
    let mut replies = framed(
        PacketKind::PreLogin,
        encode_prelogin(&vec![OptionTokenPair::Version(0x09000000, 0)]),
    );
    let login_tokens = vec![
        Token::EnvChange {
            kind: ENV_PACKET_SIZE,
            new_value: packet_size.to_vec(),
            old_value: b"4096".to_vec(),
        },
        Token::Done { status: DONE_STATUS_COUNT, row_count: 0 },
    ];
    replies.extend(framed(PacketKind::TabularResult, encode_tokens(&login_tokens)));
    replies
}

/// Connects over a memory stream pre-loaded with the handshake replies and
/// whatever comes after them.
fn connected(extra_replies: Vec<u8>) -> Connection<MemoryStream> {
    let mut replies = handshake_replies(b"2048");
    replies.extend(extra_replies);
    let stream = MemoryStream::new(replies);
    let opts = ConnectionOptBuilder::new(stream)
        .auth(AuthenticationMethod::internal("sa", "secret"))
        .db("testdb")
        .build();
    Connection::connect(opts).unwrap()
}

#[test]
fn handshake_negotiates_packet_size() {
    let conn = connected(Vec::new());
    assert_eq!(conn.inner.packet_size(), 2048);
    assert_eq!(conn.inner.state, ClientState::Ready);
}

#[test]
fn handshake_fails_without_packet_size_env() {
    let mut replies = framed(
        PacketKind::PreLogin,
        encode_prelogin(&vec![OptionTokenPair::Version(0x09000000, 0)]),
    );
    let login_tokens = vec![Token::Done { status: DONE_STATUS_COUNT, row_count: 0 }];
    replies.extend(framed(PacketKind::TabularResult, encode_tokens(&login_tokens)));
    let opts = ConnectionOptBuilder::new(MemoryStream::new(replies))
        .auth(AuthenticationMethod::internal("sa", "secret"))
        .db("testdb")
        .build();
    let r = Connection::connect(opts);
    assert!(matches!(
        r,
        Err(TdsError::Protocol(ProtocolErrorKind::MissingPacketSize))
    ));
}

#[test]
fn handshake_fails_on_login_error_token() {
    let mut replies = framed(
        PacketKind::PreLogin,
        encode_prelogin(&vec![OptionTokenPair::Version(0x09000000, 0)]),
    );
    let login_tokens = vec![
        Token::Error { code: 18456, message: b"login failed".to_vec() },
        Token::Done { status: DONE_STATUS_COUNT, row_count: 0 },
    ];
    replies.extend(framed(PacketKind::TabularResult, encode_tokens(&login_tokens)));
    let opts = ConnectionOptBuilder::new(MemoryStream::new(replies))
        .auth(AuthenticationMethod::internal("sa", "wrong"))
        .db("testdb")
        .build();
    let r = Connection::connect(opts);
    match r {
        Err(TdsError::Server { code, message }) => {
            assert_eq!(code, 18456);
            assert_eq!(message, b"login failed".to_vec());
        }
        other => panic!("expected a server error, got {:?}", other.map(|_| ())),
    }
}

#[test]
fn end_to_end_query_returns_row() {
    let query_tokens = vec![
        Token::ColMetaData {
            columns: vec![ColumnData { col_name: b"col0".to_vec(), wire_type: 1 }],
        },
        Token::Row { values: vec![ColumnValue::Val(ColumnType::I32(1))] },
        Token::Done { status: DONE_STATUS_COUNT, row_count: 1 },
    ];
    let mut conn = connected(framed(PacketKind::TabularResult, encode_tokens(&query_tokens)));
    assert_eq!(conn.inner.packet_size(), 2048);
    let result = conn.query("SELECT 1").unwrap();
    assert_eq!(result.len(), 1);
    let row = result.get(0).unwrap();
    assert_eq!(row.get_i32(&RowIndex::ByPosition(0)).unwrap(), 1);
    assert_eq!(row.get_i32(&RowIndex::ByName(b"col0".to_vec())).unwrap(), 1);
}

#[test]
fn exec_returns_row_count() {
    let reply_tokens = vec![Token::Done { status: DONE_STATUS_COUNT, row_count: 7 }];
    let mut conn = connected(framed(PacketKind::TabularResult, encode_tokens(&reply_tokens)));
    assert_eq!(conn.exec("DELETE FROM t").unwrap(), 7);
}

#[test]
fn exec_error_takes_precedence_over_done() {
    let tokens = vec![
        Token::Done { status: DONE_STATUS_COUNT, row_count: 7 },
        Token::Error { code: 547, message: b"constraint".to_vec() },
    ];
    match handle_execute_packet(&tokens) {
        Err(TdsError::Server { code, .. }) => assert_eq!(code, 547),
        other => panic!("expected a server error, got {:?}", other),
    }
}

#[test]
fn exec_rejects_done_without_count() {
    let tokens = vec![Token::Done { status: 0, row_count: 7 }];
    assert!(matches!(
        handle_execute_packet(&tokens),
        Err(TdsError::Protocol(ProtocolErrorKind::DoneWithoutCount))
    ));
}

#[test]
fn exec_rejects_unexpected_token() {
    let tokens = vec![Token::Row { values: vec![] }];
    assert!(matches!(
        handle_execute_packet(&tokens),
        Err(TdsError::Protocol(ProtocolErrorKind::UnexpectedToken))
    ));
}

#[test]
fn query_error_takes_precedence_over_rows() {
    let tokens = vec![
        Token::Row { values: vec![ColumnValue::Val(ColumnType::I32(1))] },
        Token::Error { code: 208, message: b"invalid object".to_vec() },
        Token::Done { status: DONE_STATUS_COUNT, row_count: 1 },
    ];
    let columns: Vec<ColumnData> = Vec::new();
    match handle_query_packet(&tokens, &columns) {
        Err(TdsError::Server { code, message }) => {
            assert_eq!(code, 208);
            assert_eq!(message, b"invalid object".to_vec());
        }
        other => panic!("expected a server error, got {:?}", other.map(|_| ())),
    }
}

#[test]
fn query_skips_bookkeeping_tokens() {
    let tokens = vec![
        Token::ColMetaData { columns: vec![] },
        Token::Row { values: vec![ColumnValue::Val(ColumnType::I32(10))] },
        Token::Row { values: vec![ColumnValue::Val(ColumnType::I32(20))] },
        Token::Done { status: DONE_STATUS_COUNT, row_count: 2 },
    ];
    let columns: Vec<ColumnData> = Vec::new();
    let result = handle_query_packet(&tokens, &columns).unwrap();
    assert_eq!(result.len(), 2);
    assert_eq!(result.get(1).unwrap().get_i32(&RowIndex::ByPosition(0)).unwrap(), 20);
}

#[test]
fn unknown_column_lookup_is_contract_fault() {
    let tokens = vec![
        Token::ColMetaData {
            columns: vec![ColumnData { col_name: b"col0".to_vec(), wire_type: 1 }],
        },
        Token::Row { values: vec![ColumnValue::Val(ColumnType::I32(1))] },
        Token::Done { status: DONE_STATUS_COUNT, row_count: 1 },
    ];
    let mut conn = connected(framed(PacketKind::TabularResult, encode_tokens(&tokens)));
    let result = conn.query("SELECT 1").unwrap();
    let row = result.get(0).unwrap();
    assert!(matches!(
        row.get(&RowIndex::ByName(b"missing".to_vec())),
        Err(TdsError::Contract)
    ));
    assert!(matches!(row.get(&RowIndex::ByPosition(5)), Err(TdsError::Contract)));
    assert!(matches!(result.get(3), Err(TdsError::Contract)));
}

#[test]
fn value_type_mismatch_is_contract_fault() {
    let tokens = vec![
        Token::Row {
            values: vec![ColumnValue::Val(ColumnType::VarChar(b"text".to_vec()))],
        },
        Token::Done { status: DONE_STATUS_COUNT, row_count: 1 },
    ];
    let columns: Vec<ColumnData> = Vec::new();
    let result = handle_query_packet(&tokens, &columns).unwrap();
    let row = result.get(0).unwrap();
    assert!(matches!(
        row.get_i32(&RowIndex::ByPosition(0)),
        Err(TdsError::Contract)
    ));
}

#[test]
fn prepared_statement_reuses_handle() {
    let prepare_tokens = vec![
        Token::ReturnValue {
            name: b"handle".to_vec(),
            value: ColumnValue::Val(ColumnType::I32(42)),
        },
        Token::Done { status: DONE_STATUS_COUNT, row_count: 0 },
    ];
    let exec_tokens = vec![
        Token::Row { values: vec![ColumnValue::Val(ColumnType::I32(5))] },
        Token::Done { status: DONE_STATUS_COUNT, row_count: 1 },
    ];
    let mut replies = framed(PacketKind::TabularResult, encode_tokens(&prepare_tokens));
    replies.extend(framed(PacketKind::TabularResult, encode_tokens(&exec_tokens)));
    replies.extend(framed(PacketKind::TabularResult, encode_tokens(&exec_tokens)));
    let mut conn = connected(replies);
    let mut stmt = conn.prepare("SELECT x FROM t WHERE y = @P1").unwrap();
    assert!(stmt.stmt.handle.is_none());

    let params = vec![ColumnType::I32(3)];
    let written_before_first = conn.inner.opts.stream.written.len();
    let r1 = stmt.query(&mut conn.inner, &params).unwrap();
    assert_eq!(r1.len(), 1);
    assert_eq!(stmt.stmt.handle, Some(42));
    let written_after_first = conn.inner.opts.stream.written.len();

    let r2 = stmt.query(&mut conn.inner, &params).unwrap();
    assert_eq!(r2.len(), 1);
    assert_eq!(stmt.stmt.handle, Some(42));
    let written_after_second = conn.inner.opts.stream.written.len();

    // The first call wrote a prepare request and an execute request; the
    // second reused the handle and wrote the execute request alone.
    let first_bytes = written_after_first - written_before_first;
    let second_bytes = written_after_second - written_after_first;
    assert!(second_bytes < first_bytes);
}

#[test]
fn prepared_statement_fails_without_handle_return() {
    let prepare_tokens = vec![Token::Done { status: DONE_STATUS_COUNT, row_count: 0 }];
    let replies = framed(PacketKind::TabularResult, encode_tokens(&prepare_tokens));
    let mut conn = connected(replies);
    let mut stmt = conn.prepare("SELECT 1").unwrap();
    let params: Vec<ColumnType> = Vec::new();
    assert!(matches!(
        stmt.query(&mut conn.inner, &params),
        Err(TdsError::Protocol(ProtocolErrorKind::MissingHandle))
    ));
}

#[test]
fn parameterized_statement_decodes_rows() {
    let exec_tokens = vec![
        Token::Row { values: vec![ColumnValue::Val(ColumnType::I32(9))] },
        Token::Done { status: DONE_STATUS_COUNT, row_count: 1 },
    ];
    let replies = framed(PacketKind::TabularResult, encode_tokens(&exec_tokens));
    let mut conn = connected(replies);
    let mut stmt = conn
        .parameterized("SELECT x FROM t WHERE y = @P1", Some("@P1 int"))
        .unwrap();
    let params = vec![ColumnType::I32(3)];
    let result = stmt.query(&mut conn.inner, "@P1 int", &params).unwrap();
    assert_eq!(result.len(), 1);
    assert_eq!(result.get(0).unwrap().get_i32(&RowIndex::ByPosition(0)).unwrap(), 9);
}

#[test]
fn negotiated_packet_size_paths() {
    let good = vec![Token::EnvChange {
        kind: ENV_PACKET_SIZE,
        new_value: b"2048".to_vec(),
        old_value: Vec::new(),
    }];
    assert_eq!(negotiated_packet_size(&good).unwrap(), 2048);

    let missing: Vec<Token> = vec![Token::Done { status: DONE_STATUS_COUNT, row_count: 0 }];
    assert!(matches!(
        negotiated_packet_size(&missing),
        Err(TdsError::Protocol(ProtocolErrorKind::MissingPacketSize))
    ));

    let unparsable = vec![Token::EnvChange {
        kind: ENV_PACKET_SIZE,
        new_value: b"big".to_vec(),
        old_value: Vec::new(),
    }];
    assert!(matches!(
        negotiated_packet_size(&unparsable),
        Err(TdsError::Protocol(ProtocolErrorKind::BadPacketSizeValue))
    ));

    let too_small = vec![Token::EnvChange {
        kind: ENV_PACKET_SIZE,
        new_value: b"8".to_vec(),
        old_value: Vec::new(),
    }];
    assert!(matches!(
        negotiated_packet_size(&too_small),
        Err(TdsError::Protocol(ProtocolErrorKind::BadPacketSizeValue))
    ));
}

#[test]
fn transport_failure_surfaces() {
    // No reply bytes at all: the first read of the handshake fails.
    let opts = ConnectionOptBuilder::new(MemoryStream::new(Vec::new()))
        .auth(AuthenticationMethod::internal("sa", "secret"))
        .db("testdb")
        .build();
    assert!(matches!(Connection::connect(opts), Err(TdsError::Transport)));
}

/// A bare state machine over a memory stream, without a handshake.
fn raw_conn(to_read: Vec<u8>) -> InternalConnection<MemoryStream> {
    let opts = ConnectionOptions {
        auth: AuthenticationMethod::internal("sa", "secret"),
        database: b"testdb".to_vec(),
        stream: MemoryStream::new(to_read),
    };
    InternalConnection::new(opts)
}

#[test]
fn receive_reassembles_split_message() {
    // The peer splits a 40-byte body into packets of capacity 16.
    let body: Vec<u8> = (0u8..40).collect();
    let mut wire = Vec::new();
    for p in &frame_message(PacketKind::TabularResult, &body, 24, 0) {
        wire.extend(p.to_wire());
    }
    let mut conn = raw_conn(wire);
    let (kind, got) = conn.receive_message().unwrap();
    assert_eq!(kind, PacketKind::TabularResult);
    assert_eq!(got, body);
}

#[test]
fn send_splits_by_negotiated_size() {
    let mut conn = raw_conn(Vec::new());
    conn.packet_size = 16;
    // capacity 16 - 8 = 8 bytes; 20 bytes need 3 packets.
    let body: Vec<u8> = (0u8..20).collect();
    conn.send_packet(PacketKind::SqlBatch, &body).unwrap();
    let written = &conn.opts.stream.written;
    let mut pos = 0;
    let mut headers = Vec::new();
    let mut payload: Vec<u8> = Vec::new();
    while pos < written.len() {
        let header = PacketHeader::decode_at(written, pos).unwrap();
        let chunk_len = header.length as usize - HEADER_SIZE;
        payload.extend(&written[pos + HEADER_SIZE..pos + HEADER_SIZE + chunk_len]);
        pos += HEADER_SIZE + chunk_len;
        headers.push(header);
    }
    assert_eq!(headers.len(), 3);
    assert_eq!(payload, body);
    let ids: Vec<u8> = headers.iter().map(|h| h.id).collect();
    assert_eq!(ids, vec![0, 1, 2]);
    for (i, h) in headers.iter().enumerate() {
        let want = if i == headers.len() - 1 {
            PacketStatus::EndOfMessage
        } else {
            PacketStatus::NormalMessage
        };
        assert_eq!(h.status, want);
        assert!(h.length as usize <= 16);
    }
    // the id counter advanced by one per packet written
    assert_eq!(conn.last_packet_id, 3);
}

#[test]
fn handle_extraction_paths() {
    let good = vec![
        Token::ReturnValue {
            name: b"handle".to_vec(),
            value: ColumnValue::Val(ColumnType::I32(42)),
        },
        Token::Done { status: DONE_STATUS_COUNT, row_count: 0 },
    ];
    assert_eq!(handle_from_tokens(&good).unwrap(), 42);

    let missing = vec![Token::Done { status: DONE_STATUS_COUNT, row_count: 0 }];
    assert!(matches!(
        handle_from_tokens(&missing),
        Err(TdsError::Protocol(ProtocolErrorKind::MissingHandle))
    ));

    let wrong_shape = vec![Token::ReturnValue {
        name: b"handle".to_vec(),
        value: ColumnValue::Val(ColumnType::VarChar(b"42".to_vec())),
    }];
    assert!(matches!(
        handle_from_tokens(&wrong_shape),
        Err(TdsError::Protocol(ProtocolErrorKind::MissingHandle))
    ));

    let server_error = vec![
        Token::Error { code: 8179, message: b"could not prepare".to_vec() },
        Token::ReturnValue {
            name: b"handle".to_vec(),
            value: ColumnValue::Val(ColumnType::I32(42)),
        },
    ];
    match handle_from_tokens(&server_error) {
        Err(TdsError::Server { code, .. }) => assert_eq!(code, 8179),
        other => panic!("expected a server error, got {:?}", other),
    }
}
