//! Configuration-surface tests: the textual connection-string form and the
//! option builder.

use tds_client::config::{parse_connection_string, split_bytes};
use tds_client::conn::{
    AuthenticationMethod, ConnectionOptBuilder, MemoryStream,
};
use tds_client::errors::TdsError;

#[test]
fn connection_string_all_keys() {
    let parts =
        parse_connection_string("Server=localhost;Database=testdb;UID=test;PWD=1234").unwrap();
    assert_eq!(parts.server, Some(b"localhost".to_vec()));
    assert_eq!(parts.database, Some(b"testdb".to_vec()));
    assert_eq!(parts.username, Some(b"test".to_vec()));
    assert_eq!(parts.password, Some(b"1234".to_vec()));
}

#[test]
fn connection_string_keys_are_case_insensitive() {
    let parts = parse_connection_string("SERVER=a;database=b;uid=c;PwD=d").unwrap();
    assert_eq!(parts.server, Some(b"a".to_vec()));
    assert_eq!(parts.database, Some(b"b".to_vec()));
    assert_eq!(parts.username, Some(b"c".to_vec()));
    assert_eq!(parts.password, Some(b"d".to_vec()));
}

#[test]
fn connection_string_last_value_wins() {
    let parts = parse_connection_string("UID=first;UID=second").unwrap();
    assert_eq!(parts.username, Some(b"second".to_vec()));
}

#[test]
fn connection_string_unknown_key_is_config_error() {
    assert!(matches!(
        parse_connection_string("Server=x;Timeout=30"),
        Err(TdsError::Config)
    ));
}

#[test]
fn connection_string_pair_without_equals_is_config_error() {
    assert!(matches!(parse_connection_string("Server"), Err(TdsError::Config)));
}

#[test]
fn connection_string_absent_keys_stay_absent() {
    let parts = parse_connection_string("Server=x").unwrap();
    assert_eq!(parts.server, Some(b"x".to_vec()));
    assert!(parts.database.is_none());
    assert!(parts.username.is_none());
    assert!(parts.password.is_none());
}

#[test]
fn split_keeps_empty_pieces() {
    let parts = split_bytes(&b"a;;b".to_vec(), b';');
    assert_eq!(parts, vec![b"a".to_vec(), Vec::new(), b"b".to_vec()]);
    let single = split_bytes(&b"abc".to_vec(), b';');
    assert_eq!(single, vec![b"abc".to_vec()]);
}

#[test]
fn builder_collects_auth_and_database() {
    let stream = MemoryStream::new(Vec::new());
    let opts = ConnectionOptBuilder::new(stream)
        .auth(AuthenticationMethod::internal("user", "pass"))
        .db("mydb")
        .build();
    let AuthenticationMethod::InternalSqlServerAuth(u, p) = opts.auth;
    assert_eq!(u, b"user".to_vec());
    assert_eq!(p, b"pass".to_vec());
    assert_eq!(opts.database, b"mydb".to_vec());
}

#[test]
fn error_group_names() {
    assert_eq!(TdsError::Transport.group_name(), "transport");
    assert_eq!(
        TdsError::Server { code: 1, message: Vec::new() }.group_name(),
        "server"
    );
    assert_eq!(TdsError::Contract.group_name(), "contract");
    assert_eq!(TdsError::Config.group_name(), "config");
}
