use ussr::outgoing::{encode_packet_out, OutgoingPacket};
use ussr::server::{
    handle_handshake, handle_keepalive, handle_login, handle_ping, handle_status_request,
    prepare_connection, run_drops, tick, ServerState, TickConfig, WrappedConnectionState,
    WrappedOutgoingPacket,
};
use ussr::state::ConnectionState;

fn test_config() -> TickConfig {
    TickConfig {
        status_json: "{\"version\":{\"name\":\"test\"}}".to_string(),
        max_players: 20,
        view_distance: 1,
        registry_codec: vec![10, 0, 0, 0],
        hashed_seed: 7,
        heightmaps_nbt: vec![10, 0, 0, 0],
        wand_nbt: vec![10, 0, 0, 0],
        tab_header: "{\"text\":\"\\nUSSR 1.20.1\\n\"}".to_string(),
        tab_footer: "{\"text\":\"\\n\"}".to_string(),
        timeout_ms: 5000,
        keepalive_interval: 20,
    }
}

fn login(
    state: &mut ServerState,
    conn_id: i32,
    name: &str,
    now: u64,
    out: &mut Vec<WrappedOutgoingPacket>,
    state_out: &mut Vec<WrappedConnectionState>,
) {
    let idx = prepare_connection(state, conn_id, now);
    handle_handshake(state, idx, 2, now, state_out);
    let idx = prepare_connection(state, conn_id, now);
    handle_login(state, idx, conn_id, name.to_string(), now, out, state_out);
}

#[test]
fn scenario_status_ping() {
    // handshake(next_state=1), status request, ping(42): exactly one status
    // response, then one ping response with the same payload, then teardown
    let mut state = ServerState::new(test_config());
    let mut out: Vec<WrappedOutgoingPacket> = vec![];
    let mut state_out: Vec<WrappedConnectionState> = vec![];
    let idx = prepare_connection(&mut state, 1, 0);
    handle_handshake(&mut state, idx, 1, 0, &mut state_out);
    assert_eq!(state_out.len(), 1);
    assert_eq!(state_out[0].state, ConnectionState::Status);
    let idx = prepare_connection(&mut state, 1, 10);
    handle_status_request(&mut state, idx, 10, &mut out);
    handle_ping(&mut state, 1, 42, &mut out);
    assert_eq!(out.len(), 2);
    assert_eq!(out[0].conn_id, 1);
    match &out[0].packet {
        OutgoingPacket::StatusResponse { json_response } => {
            assert_eq!(json_response, "{\"version\":{\"name\":\"test\"}}")
        }
        _ => panic!("expected a status response first"),
    }
    match &out[1].packet {
        OutgoingPacket::PingResponse { payload } => assert_eq!(*payload, 42),
        _ => panic!("expected a ping response second"),
    }
    // the ping marked the connection; the teardown closes it
    assert_eq!(state.drop_connections, vec![1]);
    run_drops(&mut state, &mut out, &mut state_out);
    assert_eq!(state.connections.len(), 0);
    assert_eq!(state_out.last().unwrap().state, ConnectionState::Disconnect);
}

#[test]
fn scenario_second_login_sees_first() {
    // Alice logs in, then Bob: Bob's bootstrap burst includes a SpawnPlayer
    // for Alice, and Alice receives a PlayerInfoUpdate and SpawnPlayer pair
    // for Bob
    let mut state = ServerState::new(test_config());
    let mut out: Vec<WrappedOutgoingPacket> = vec![];
    let mut state_out: Vec<WrappedConnectionState> = vec![];
    login(&mut state, 1, "Alice", 0, &mut out, &mut state_out);
    let alice_uuid = state.players[0].1.uuid;
    out.clear();
    login(&mut state, 2, "Bob", 0, &mut out, &mut state_out);
    let bob_uuid = state.players[1].1.uuid;

    let mut bob_sees_alice = false;
    let mut alice_info_about_bob = false;
    let mut alice_sees_bob = false;
    for w in &out {
        match &w.packet {
            OutgoingPacket::SpawnPlayer { player_uuid, .. } => {
                if w.conn_id == 2 && *player_uuid == alice_uuid {
                    bob_sees_alice = true;
                }
                if w.conn_id == 1 && *player_uuid == bob_uuid {
                    alice_sees_bob = true;
                }
            }
            OutgoingPacket::PlayerInfoUpdate { players, .. } => {
                if w.conn_id == 1 && players.iter().any(|e| e.0 == bob_uuid) {
                    alice_info_about_bob = true;
                }
            }
            _ => {}
        }
    }
    assert!(bob_sees_alice, "Bob's burst must spawn Alice");
    assert!(alice_info_about_bob, "Alice must learn of Bob in her tab list");
    assert!(alice_sees_bob, "Alice must receive Bob's spawn");
    assert_eq!(state.online, 2);
}

#[test]
fn scenario_timeout_removal() {
    // a silent logged-in connection times out; a third client sees the
    // entity removed
    let mut state = ServerState::new(test_config());
    let mut out: Vec<WrappedOutgoingPacket> = vec![];
    let mut state_out: Vec<WrappedConnectionState> = vec![];
    login(&mut state, 1, "Alice", 0, &mut out, &mut state_out);
    login(&mut state, 2, "Bob", 0, &mut out, &mut state_out);
    login(&mut state, 3, "Carol", 0, &mut out, &mut state_out);
    out.clear();
    state_out.clear();
    // everyone but Carol shows life late enough to survive
    let idx = prepare_connection(&mut state, 1, 9000);
    handle_keepalive(&mut state, idx, 9000);
    let idx = prepare_connection(&mut state, 2, 9000);
    handle_keepalive(&mut state, idx, 9000);
    tick(&mut state, 9001, &mut out, &mut state_out);
    // Carol's connection is gone, the player list shrank, and the others
    // were told to drop her entity
    assert!(state.connections.iter().all(|c| c.0 != 3));
    assert!(state.players.iter().all(|p| p.0 != 3));
    assert_eq!(state.online, 2);
    assert!(state_out.iter().any(|s| s.conn_id == 3 && s.state == ConnectionState::Disconnect));
    let mut removed_for: Vec<i32> = vec![];
    for w in &out {
        if let OutgoingPacket::RemoveEntities { entity_ids } = &w.packet {
            if entity_ids.contains(&3) {
                removed_for.push(w.conn_id);
            }
        }
    }
    assert!(removed_for.contains(&1));
    assert!(removed_for.contains(&2));
}

#[test]
fn keepalive_schedule() {
    // on a keep-alive tick every play-state connection gets one
    let mut state = ServerState::new(test_config());
    let mut out: Vec<WrappedOutgoingPacket> = vec![];
    let mut state_out: Vec<WrappedConnectionState> = vec![];
    login(&mut state, 1, "Alice", 0, &mut out, &mut state_out);
    login(&mut state, 2, "Bob", 0, &mut out, &mut state_out);
    out.clear();
    tick(&mut state, 1, &mut out, &mut state_out);
    let keepalives: Vec<i32> = out
        .iter()
        .filter(|w| matches!(w.packet, OutgoingPacket::KeepAlive { .. }))
        .map(|w| w.conn_id)
        .collect();
    assert_eq!(keepalives, vec![1, 2]);
}

#[test]
fn outgoing_frame_fixture() {
    // a keep-alive frame: length 9, opcode 0x23, the payload big-endian
    let bytes = encode_packet_out(&OutgoingPacket::KeepAlive { keep_alive_id: 42 });
    assert_eq!(bytes, vec![9, 0x23, 0, 0, 0, 0, 0, 0, 0, 42]);
    // the internal disconnect produces no bytes at all
    let bytes = encode_packet_out(&OutgoingPacket::Disconnect);
    assert_eq!(bytes.len(), 0);
    // a ping response mirrors its payload
    let bytes = encode_packet_out(&OutgoingPacket::PingResponse { payload: 42 });
    assert_eq!(bytes, vec![9, 0x01, 0, 0, 0, 0, 0, 0, 0, 42]);
}
