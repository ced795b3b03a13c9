use hostname_proxy::connection::{Action, Connection, Event, Outcome, Phase};
use hostname_proxy::error::ProxyError;
use hostname_proxy::routing::{Backend, Config};
use hostname_proxy::varint::{write_varint, VarintFault};

fn example_table() -> Config {
    let mut table = Config::new();
    table.declare(
        "play.example.com".to_string(),
        Backend { host: "10.0.0.5".to_string(), port: 25566 },
    );
    table
}

fn handshake_body(packet_id: i32, hostname: &str) -> Vec<u8> {
    let mut body: Vec<u8> = Vec::new();
    body.extend_from_slice(&write_varint(packet_id));
    body.extend_from_slice(&write_varint(763));
    body.extend_from_slice(&write_varint(hostname.len() as i32));
    body.extend_from_slice(hostname.as_bytes());
    body.extend_from_slice(&[0x63, 0xdd, 0x02]);
    body
}

fn is_backend_contact(action: Action) -> bool {
    matches!(
        action,
        Action::RequestPooled | Action::Dial | Action::Replay | Action::Splice
    )
}

fn feed_handshake(connection: &mut Connection, table: &Config, body: &[u8]) -> Action {
    let prefix: Vec<u8> = write_varint(body.len() as i32);
    let last: usize = prefix.len() - 1;
    for (i, byte) in prefix.iter().enumerate() {
        let action = connection.step(Event::Byte(*byte), table);
        if i < last {
            assert_eq!(action, Action::ReadByte);
        } else {
            assert_eq!(action, Action::ReadBody(body.len()));
            assert_eq!(connection.phase, Phase::ReadingBody);
        }
    }
    connection.step(Event::Body(body.to_vec()), table)
}

#[test]
fn new_connection_reads_the_prefix() {
    let connection = Connection::new(false);
    assert_eq!(connection.phase, Phase::ReadingPrefix);
    assert!(!connection.pooled);
    assert!(connection.prefix.is_empty());
    assert!(connection.handshake.is_none());
    assert!(connection.backend.is_none());
    assert!(Connection::new(true).pooled);
}

#[test]
fn routed_connection_runs_to_completion() {
    let table = example_table();
    let mut connection = Connection::new(false);
    let body: Vec<u8> = handshake_body(0, "play.example.com");
    assert_eq!(feed_handshake(&mut connection, &table, &body), Action::Dial);
    assert_eq!(connection.phase, Phase::Dialing);
    assert_eq!(
        connection.backend,
        Some(Backend { host: "10.0.0.5".to_string(), port: 25566 })
    );
    assert_eq!(connection.step(Event::Connected, &table), Action::Replay);
    assert_eq!(connection.phase, Phase::Replaying);
    assert_eq!(connection.step(Event::Replayed, &table), Action::Splice);
    assert_eq!(connection.phase, Phase::Splicing);
    assert_eq!(
        connection.step(Event::CopyFinished(true), &table),
        Action::Close(Outcome::Completed)
    );
    assert_eq!(connection.phase, Phase::Closed(Outcome::Completed));
}

#[test]
fn backend_host_routes_too() {
    let table = example_table();
    let mut connection = Connection::new(false);
    let body: Vec<u8> = handshake_body(0, "10.0.0.5");
    assert_eq!(feed_handshake(&mut connection, &table, &body), Action::Dial);
    assert_eq!(
        connection.backend,
        Some(Backend { host: "10.0.0.5".to_string(), port: 25566 })
    );
}

#[test]
fn replayed_bytes_are_what_the_client_sent() {
    let table = example_table();
    let mut connection = Connection::new(false);
    let body: Vec<u8> = handshake_body(0, "play.example.com");
    let mut sent: Vec<u8> = write_varint(body.len() as i32);
    sent.extend_from_slice(&body);
    feed_handshake(&mut connection, &table, &body);
    assert_eq!(connection.step(Event::Connected, &table), Action::Replay);
    let message = connection.handshake.as_ref().unwrap();
    assert_eq!(message.raw_bytes, sent);
    assert_eq!(message.hostname, "play.example.com");
    assert_eq!(message.protocol_version, 763);
    assert_eq!(message.packet_id, 0);
}

#[test]
fn long_prefix_is_read_byte_by_byte() {
    let table = example_table();
    let mut connection = Connection::new(false);
    let mut hostname = String::new();
    while hostname.len() < 200 {
        hostname.push('a');
    }
    let body: Vec<u8> = handshake_body(0, &hostname);
    assert!(body.len() > 127);
    assert_eq!(
        feed_handshake(&mut connection, &table, &body),
        Action::Close(Outcome::NoRouteFound)
    );
    assert_eq!(connection.prefix, write_varint(body.len() as i32));
    assert_eq!(connection.prefix.len(), 2);
}

#[test]
fn wrong_packet_type_contacts_no_backend() {
    let table = example_table();
    let mut connection = Connection::new(false);
    let body: Vec<u8> = handshake_body(1, "play.example.com");
    let action = feed_handshake(&mut connection, &table, &body);
    assert_eq!(
        action,
        Action::Close(Outcome::Failed(ProxyError::UnexpectedPacketType))
    );
    assert!(!is_backend_contact(action));
    assert!(connection.backend.is_none());
    assert!(connection.handshake.is_none());
    let after = connection.step(Event::Connected, &table);
    assert_eq!(
        after,
        Action::Close(Outcome::Failed(ProxyError::UnexpectedPacketType))
    );
}

#[test]
fn unknown_hostname_is_turned_away() {
    let table = example_table();
    let mut connection = Connection::new(true);
    let body: Vec<u8> = handshake_body(0, "unknown.test");
    let action = feed_handshake(&mut connection, &table, &body);
    assert_eq!(action, Action::Close(Outcome::NoRouteFound));
    assert!(!is_backend_contact(action));
    assert!(connection.backend.is_none());
    assert_eq!(connection.handshake.as_ref().unwrap().hostname, "unknown.test");
    assert_eq!(connection.phase, Phase::Closed(Outcome::NoRouteFound));
}

#[test]
fn pooled_connection_takes_the_served_socket() {
    let table = example_table();
    let mut connection = Connection::new(true);
    let body: Vec<u8> = handshake_body(0, "play.example.com");
    assert_eq!(feed_handshake(&mut connection, &table, &body), Action::RequestPooled);
    assert_eq!(connection.phase, Phase::AwaitingPool);
    assert_eq!(connection.step(Event::PoolServed, &table), Action::Replay);
    assert_eq!(connection.step(Event::Replayed, &table), Action::Splice);
}

#[test]
fn silent_pool_falls_back_to_a_dial() {
    let table = example_table();
    let mut connection = Connection::new(true);
    let body: Vec<u8> = handshake_body(0, "play.example.com");
    assert_eq!(feed_handshake(&mut connection, &table, &body), Action::RequestPooled);
    assert_eq!(connection.step(Event::PoolUnavailable, &table), Action::Dial);
    assert_eq!(connection.phase, Phase::Dialing);
    assert_eq!(connection.step(Event::Connected, &table), Action::Replay);
}

#[test]
fn failed_dial_is_backend_unreachable() {
    let table = example_table();
    let mut connection = Connection::new(false);
    let body: Vec<u8> = handshake_body(0, "play.example.com");
    feed_handshake(&mut connection, &table, &body);
    assert_eq!(
        connection.step(Event::ConnectFailed, &table),
        Action::Close(Outcome::Failed(ProxyError::BackendUnreachable))
    );
    let mut pooled = Connection::new(true);
    feed_handshake(&mut pooled, &table, &body);
    assert_eq!(pooled.step(Event::PoolUnavailable, &table), Action::Dial);
    assert_eq!(
        pooled.step(Event::ConnectFailed, &table),
        Action::Close(Outcome::Failed(ProxyError::BackendUnreachable))
    );
}

#[test]
fn splice_ends_with_the_first_direction() {
    let table = example_table();
    let body: Vec<u8> = handshake_body(0, "play.example.com");
    let mut ended_well = Connection::new(false);
    feed_handshake(&mut ended_well, &table, &body);
    ended_well.step(Event::Connected, &table);
    ended_well.step(Event::Replayed, &table);
    assert_eq!(
        ended_well.step(Event::CopyFinished(true), &table),
        Action::Close(Outcome::Completed)
    );
    assert_eq!(
        ended_well.step(Event::CopyFinished(false), &table),
        Action::Close(Outcome::Completed)
    );
    let mut ended_badly = Connection::new(false);
    feed_handshake(&mut ended_badly, &table, &body);
    ended_badly.step(Event::Connected, &table);
    ended_badly.step(Event::Replayed, &table);
    assert_eq!(
        ended_badly.step(Event::CopyFinished(false), &table),
        Action::Close(Outcome::Failed(ProxyError::IoError))
    );
}

#[test]
fn failed_reads_and_writes_are_io_errors() {
    let table = example_table();
    let io = Action::Close(Outcome::Failed(ProxyError::IoError));
    let mut at_prefix = Connection::new(false);
    assert_eq!(at_prefix.step(Event::ReadFailed, &table), io);
    let mut at_body = Connection::new(false);
    assert_eq!(at_body.step(Event::Byte(0x05), &table), Action::ReadBody(5));
    assert_eq!(at_body.step(Event::ReadFailed, &table), io);
    let body: Vec<u8> = handshake_body(0, "play.example.com");
    let mut at_replay = Connection::new(false);
    feed_handshake(&mut at_replay, &table, &body);
    at_replay.step(Event::Connected, &table);
    assert_eq!(at_replay.step(Event::WriteFailed, &table), io);
}

#[test]
fn body_of_another_length_is_an_io_error() {
    let table = example_table();
    let mut connection = Connection::new(false);
    assert_eq!(connection.step(Event::Byte(0x05), &table), Action::ReadBody(5));
    assert_eq!(
        connection.step(Event::Body(vec![0x00, 0x05, 0x01, b'a']), &table),
        Action::Close(Outcome::Failed(ProxyError::IoError))
    );
}

#[test]
fn unexpected_events_close_the_connection() {
    let table = example_table();
    let io = Action::Close(Outcome::Failed(ProxyError::IoError));
    let mut connection = Connection::new(false);
    assert_eq!(connection.step(Event::Connected, &table), io);
    assert_eq!(connection.phase, Phase::Closed(Outcome::Failed(ProxyError::IoError)));
    let body: Vec<u8> = handshake_body(0, "play.example.com");
    let mut dialing = Connection::new(false);
    feed_handshake(&mut dialing, &table, &body);
    assert_eq!(dialing.step(Event::PoolServed, &table), io);
    let mut splicing = Connection::new(false);
    feed_handshake(&mut splicing, &table, &body);
    splicing.step(Event::Connected, &table);
    splicing.step(Event::Replayed, &table);
    assert_eq!(splicing.step(Event::Byte(0x00), &table), io);
}

#[test]
fn malformed_prefix_closes_the_connection() {
    let table = example_table();
    let mut connection = Connection::new(false);
    for _ in 0..5 {
        assert_eq!(connection.step(Event::Byte(0x80), &table), Action::ReadByte);
    }
    assert_eq!(
        connection.step(Event::Byte(0x01), &table),
        Action::Close(Outcome::Failed(ProxyError::MalformedVarint(VarintFault::TooLong)))
    );
    assert_eq!(connection.prefix, vec![0x80, 0x80, 0x80, 0x80, 0x80, 0x01]);
}

#[test]
fn negative_length_closes_the_connection() {
    let table = example_table();
    let mut connection = Connection::new(false);
    for _ in 0..4 {
        assert_eq!(connection.step(Event::Byte(0xff), &table), Action::ReadByte);
    }
    assert_eq!(
        connection.step(Event::Byte(0x0f), &table),
        Action::Close(Outcome::Failed(ProxyError::MalformedVarint(VarintFault::TooLong)))
    );
}

#[test]
fn truncated_hostname_closes_the_connection() {
    let table = example_table();
    let mut connection = Connection::new(false);
    assert_eq!(connection.step(Event::Byte(0x04), &table), Action::ReadBody(4));
    assert_eq!(
        connection.step(Event::Body(vec![0x00, 0x05, 0x09, b'a']), &table),
        Action::Close(Outcome::Failed(ProxyError::TruncatedHostname))
    );
}

#[test]
fn empty_body_is_a_cut_varint() {
    let table = example_table();
    let mut connection = Connection::new(false);
    assert_eq!(connection.step(Event::Byte(0x00), &table), Action::ReadBody(0));
    assert_eq!(
        connection.step(Event::Body(Vec::new()), &table),
        Action::Close(Outcome::Failed(ProxyError::MalformedVarint(VarintFault::UnexpectedEof)))
    );
}

#[test]
fn closed_connection_stays_closed() {
    let table = example_table();
    let mut connection = Connection::new(false);
    let body: Vec<u8> = handshake_body(0, "unknown.test");
    feed_handshake(&mut connection, &table, &body);
    for _ in 0..3 {
        assert_eq!(
            connection.step(Event::Byte(0x00), &table),
            Action::Close(Outcome::NoRouteFound)
        );
        assert_eq!(
            connection.step(Event::Connected, &table),
            Action::Close(Outcome::NoRouteFound)
        );
        assert_eq!(connection.phase, Phase::Closed(Outcome::NoRouteFound));
    }
}
