use packet_ipc::codec::decode_frame;
use packet_ipc::errors::Error;
use packet_ipc::packet::Packet;
use packet_ipc::packet::Timestamp;
use packet_ipc::server::abandon;
use packet_ipc::server::register_attempt;
use packet_ipc::server::EndpointState;
use packet_ipc::server::Registration;
use packet_ipc::server::Server;

/// Replays the byte messages a link emitted, the way the receiving side
/// observes them: counts records of every data frame until the
/// sentinel, and checks that nothing follows the sentinel.
fn receive_all(messages: &[Vec<u8>]) -> usize {
    let mut count = 0;
    let mut ended = false;
    for message in messages {
        assert!(!ended, "a frame arrived after the end-of-stream sentinel");
        match decode_frame(message).expect("Failed to receive") {
            Some(batch) => count += batch.len(),
            None => ended = true,
        }
    }
    assert!(ended, "the stream never ended");
    count
}

#[test]
fn test_connection() {
    let server = Server::new(String::from("one-shot-channel"));
    assert_eq!(server.name().as_str(), "one-shot-channel");
    server.accept(Registration::WellFormed).expect("No connection");
}

#[test]
fn test_sending() {
    let server = Server::new(String::from("chan"));
    let mut connection = server.accept(Registration::WellFormed).expect("No connection");

    let mut wire: Vec<Vec<u8>> = Vec::new();
    wire.push(
        connection
            .send(vec![Packet::new(Timestamp::new(0, 0), vec![2u8])])
            .expect("Failed to send"),
    );
    wire.push(connection.close().expect("Failed to close"));

    assert_eq!(receive_all(&wire), 1);
}

#[test]
fn test_sink() {
    let server = Server::new(String::from("chan"));
    let mut connection = server.accept(Registration::WellFormed).expect("No connection");

    let batches = vec![vec![Packet::new(Timestamp::new(0, 0), vec![0u8])]];
    let mut wire: Vec<Vec<u8>> = Vec::new();
    for batch in batches {
        wire.push(connection.send(batch).expect("Failed to send"));
    }
    wire.push(connection.close().expect("Failed to close"));

    assert_eq!(wire.len(), 2);
    assert_eq!(receive_all(&wire), 1);
}

#[test]
fn batches_arrive_in_order_then_one_sentinel() {
    let server = Server::new(String::from("chan"));
    let mut connection = server.accept(Registration::WellFormed).expect("No connection");

    let mut wire: Vec<Vec<u8>> = Vec::new();
    wire.push(connection.send(vec![Packet::new(Timestamp::new(1, 0), vec![1])]).unwrap());
    wire.push(connection.send(vec![]).unwrap());
    wire.push(
        connection
            .send(vec![
                Packet::new(Timestamp::new(2, 0), vec![2]),
                Packet::new(Timestamp::new(3, 0), vec![3]),
            ])
            .unwrap(),
    );
    wire.push(connection.close().unwrap());

    let mut seen: Vec<Option<Vec<u8>>> = Vec::new();
    for message in &wire {
        match decode_frame(message).expect("Failed to receive") {
            Some(batch) => {
                for record in batch {
                    seen.push(Some(record.into_data()));
                }
            },
            None => seen.push(None),
        }
    }
    assert_eq!(
        seen,
        vec![Some(vec![1]), Some(vec![2]), Some(vec![3]), None],
    );
}

#[test]
fn send_after_close_is_rejected() {
    let server = Server::new(String::from("chan"));
    let mut connection = server.accept(Registration::WellFormed).expect("No connection");
    connection.close().expect("Failed to close");
    let err = connection
        .send(vec![Packet::new(Timestamp::new(0, 0), vec![1])])
        .unwrap_err();
    assert_eq!(err, Error::Closed);
}

#[test]
fn second_close_is_rejected() {
    let server = Server::new(String::from("chan"));
    let mut connection = server.accept(Registration::WellFormed).expect("No connection");
    connection.close().expect("Failed to close");
    assert_eq!(connection.close().unwrap_err(), Error::Closed);
}

#[test]
fn ready_and_flush_always_succeed() {
    let server = Server::new(String::from("chan"));
    let connection = server.accept(Registration::WellFormed).expect("No connection");
    assert!(connection.ready().is_ok());
    assert!(connection.flush().is_ok());
}

#[test]
fn malformed_bootstrap_fails_the_accept() {
    let server = Server::new(String::from("chan"));
    match server.accept(Registration::Malformed) {
        Err(e) => assert_eq!(e, Error::Protocol),
        Ok(_) => panic!("a malformed bootstrap was accepted"),
    }
}

#[test]
fn malformed_record_is_rejected_whole() {
    let server = Server::new(String::from("chan"));
    let mut connection = server.accept(Registration::WellFormed).expect("No connection");
    let corrupt = Packet {
        ts: Timestamp { secs: 0, nanos: 2_000_000_000 },
        data: vec![1],
    };
    assert_eq!(connection.send(vec![corrupt]).unwrap_err(), Error::Protocol);
    // The link stays open and usable.
    assert!(connection.send(vec![]).is_ok());
}

#[test]
fn second_registration_never_succeeds() {
    let mut state = EndpointState::Created;
    register_attempt(&mut state, Registration::WellFormed).expect("first registration");
    assert_eq!(state, EndpointState::Redeemed);
    assert_eq!(
        register_attempt(&mut state, Registration::WellFormed).unwrap_err(),
        Error::Resource,
    );
    assert_eq!(state, EndpointState::Redeemed);
}

#[test]
fn abandoned_identifier_never_dials() {
    let mut state = EndpointState::Created;
    abandon(&mut state);
    assert_eq!(state, EndpointState::Abandoned);
    assert!(register_attempt(&mut state, Registration::WellFormed).is_err());
    assert!(register_attempt(&mut state, Registration::Malformed).is_err());
    assert_eq!(state, EndpointState::Abandoned);
}

#[test]
fn malformed_registration_consumes_the_identifier() {
    let mut state = EndpointState::Created;
    assert_eq!(
        register_attempt(&mut state, Registration::Malformed).unwrap_err(),
        Error::Protocol,
    );
    assert_eq!(state, EndpointState::Failed);
    assert_eq!(
        register_attempt(&mut state, Registration::WellFormed).unwrap_err(),
        Error::Resource,
    );
}
