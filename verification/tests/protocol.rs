use ussr::chunk::{decode_section, encode_section};
use ussr::packets::{encode_packet, read_packet, IncomingPacket};
use ussr::reader::PacketBuf;
use ussr::state::ConnectionState;
use ussr::util::{hashed_seed, ReadError};
use ussr::uuid::Uuid;
use ussr::varint::{ReadVarInt, ReadVarLong, WriteVarInt, WriteVarLong};

#[test]
fn test_varint() {
    let values: Vec<i32> = vec![
        0,
        1,
        2,
        127,
        128,
        255,
        25565,
        2097151,
        2147483647,
        -1,
        -2147483648,
    ];
    let results: Vec<Vec<u8>> = vec![
        vec![0],
        vec![1],
        vec![2],
        vec![127],
        vec![128, 1],
        vec![255, 1],
        vec![221, 199, 1],
        vec![255, 255, 127],
        vec![255, 255, 255, 255, 7],
        vec![255, 255, 255, 255, 15],
        vec![128, 128, 128, 128, 8],
    ];
    for i in 0..values.len() {
        let mut buf: Vec<u8> = vec![];
        buf.write_varint(values[i]);
        assert_eq!(buf, results[i], "test #{}", i);
    }
}

#[test]
fn test_varlong() {
    let values: Vec<i64> = vec![
        0,
        1,
        2,
        127,
        128,
        255,
        2147483647,
        9223372036854775807,
        -1,
        -2147483648,
        -9223372036854775808,
    ];
    let results: Vec<Vec<u8>> = vec![
        vec![0],
        vec![1],
        vec![2],
        vec![127],
        vec![128, 1],
        vec![255, 1],
        vec![255, 255, 255, 255, 7],
        vec![255, 255, 255, 255, 255, 255, 255, 255, 127],
        vec![255, 255, 255, 255, 255, 255, 255, 255, 255, 1],
        vec![128, 128, 128, 128, 248, 255, 255, 255, 255, 1],
        vec![128, 128, 128, 128, 128, 128, 128, 128, 128, 1],
    ];
    for i in 0..values.len() {
        let mut buf: Vec<u8> = vec![];
        buf.write_varlong(values[i]);
        assert_eq!(buf, results[i], "test #{}", i);
    }
}

#[test]
fn varint_roundtrip_values() {
    let values: Vec<i32> = vec![0, 1, 127, 128, 25565, 2147483647, -1, -2147483648];
    for &v in &values {
        let mut bytes: Vec<u8> = vec![];
        bytes.write_varint(v);
        let mut buf = PacketBuf::new(bytes, vec![]);
        assert_eq!(buf.read_varint(), Ok(v));
    }
    let values: Vec<i64> = vec![0, 127, 128, -1, i64::MAX, i64::MIN];
    for &v in &values {
        let mut bytes: Vec<u8> = vec![];
        bytes.write_varlong(v);
        let mut buf = PacketBuf::new(bytes, vec![]);
        assert_eq!(buf.read_varlong(), Ok(v));
    }
}

#[test]
fn varint_overflow() {
    // terminal byte sets bits above bit 3
    let mut buf = PacketBuf::new(vec![0xFF, 0xFF, 0xFF, 0xFF, 0x10], vec![]);
    assert_eq!(buf.read_varint(), Err(ReadError::Overflow));
    // field longer than five bytes: the whole field is still consumed
    let mut buf = PacketBuf::new(vec![0xFF, 0xFF, 0xFF, 0xFF, 0xFF, 0x7F, 0x05], vec![]);
    assert_eq!(buf.read_varint(), Err(ReadError::Overflow));
    assert_eq!(buf.read_varint(), Ok(5));
    // truncated field
    let mut buf = PacketBuf::new(vec![0x80, 0x80], vec![]);
    assert_eq!(buf.read_varint(), Err(ReadError::EndOfFile));
    // a varlong terminal byte may only carry bit 0
    let mut buf = PacketBuf::new(
        vec![0xFF, 0xFF, 0xFF, 0xFF, 0xFF, 0xFF, 0xFF, 0xFF, 0xFF, 0x02],
        vec![],
    );
    assert_eq!(buf.read_varlong(), Err(ReadError::Overflow));
}

#[test]
fn packet_roundtrip() {
    let packets: Vec<(ConnectionState, IncomingPacket)> = vec![
        (
            ConnectionState::Handshake,
            IncomingPacket::Handshake {
                protocol_version: 763,
                server_address: "localhost".to_string(),
                server_port: 25565,
                next_state: 1,
            },
        ),
        (ConnectionState::Status, IncomingPacket::StatusRequest),
        (ConnectionState::Status, IncomingPacket::PingRequest { payload: 42 }),
        (
            ConnectionState::Login,
            IncomingPacket::LoginStart { name: "Alice".to_string(), player_uuid: None },
        ),
        (
            ConnectionState::Login,
            IncomingPacket::LoginStart {
                name: "Bob".to_string(),
                player_uuid: Some(0x1122334455667788_99AABBCCDDEEFF00),
            },
        ),
        (
            ConnectionState::Play,
            IncomingPacket::KeepAlive { keep_alive_id: -7 },
        ),
        (
            ConnectionState::Play,
            IncomingPacket::SetPlayerPosition {
                x_bits: 1.5f64.to_bits(),
                y_bits: 65.0f64.to_bits(),
                z_bits: (-3.25f64).to_bits(),
                on_ground: true,
            },
        ),
        (
            ConnectionState::Play,
            IncomingPacket::SetPlayerPositionAndRotation {
                x_bits: 0.0f64.to_bits(),
                y_bits: 70.0f64.to_bits(),
                z_bits: 8.0f64.to_bits(),
                yaw_bits: 90.0f32.to_bits(),
                pitch_bits: (-45.0f32).to_bits(),
                on_ground: false,
            },
        ),
        (
            ConnectionState::Play,
            IncomingPacket::SetPlayerRotation {
                yaw_bits: 180.0f32.to_bits(),
                pitch_bits: 0,
                on_ground: true,
            },
        ),
        (ConnectionState::Play, IncomingPacket::SetPlayerOnGround { on_ground: false }),
        (
            ConnectionState::Play,
            IncomingPacket::PlayerCommand { entity_id: 3, action_id: 1, jump_boost: 0 },
        ),
        (ConnectionState::Play, IncomingPacket::SwingArm { hand: 0 }),
        (ConnectionState::Play, IncomingPacket::UseItem { hand: 0, sequence: 12 }),
    ];
    for (state, p) in packets {
        let bytes = encode_packet(&p);
        let mut buf = PacketBuf::new(bytes.clone(), vec![]);
        let decoded = read_packet(&mut buf, &state).expect("decode failed");
        assert_eq!(decoded, p);
        assert_eq!(buf.remaining_len(), 0);
        // re-encoding what a frame decodes to reproduces the frame
        assert_eq!(encode_packet(&decoded), bytes);
    }
}

#[test]
fn state_gated_dispatch() {
    // opcode 0x00 under Handshake decodes to Handshake
    let hs = IncomingPacket::Handshake {
        protocol_version: 763,
        server_address: "example".to_string(),
        server_port: 25565,
        next_state: 2,
    };
    let bytes = encode_packet(&hs);
    let mut buf = PacketBuf::new(bytes.clone(), vec![]);
    match read_packet(&mut buf, &ConnectionState::Handshake) {
        Ok(IncomingPacket::Handshake { next_state, .. }) => assert_eq!(next_state, 2),
        other => panic!("expected a handshake, got {:?}", other),
    }
    // the same opcode under Status decodes to StatusRequest
    let mut buf = PacketBuf::new(bytes.clone(), vec![]);
    match read_packet(&mut buf, &ConnectionState::Status) {
        Ok(IncomingPacket::StatusRequest) => {}
        other => panic!("expected a status request, got {:?}", other),
    }
    // an unregistered pair yields Unknown holding exactly length - id_size bytes
    let mut frame: Vec<u8> = vec![];
    frame.write_varint(0x40); // unregistered opcode
    frame.extend_from_slice(&[1, 2, 3, 4, 5]);
    let body_len = frame.len();
    let mut framed: Vec<u8> = vec![];
    framed.write_varint(body_len as i32);
    framed.extend_from_slice(&frame);
    let mut buf = PacketBuf::new(framed, vec![]);
    match read_packet(&mut buf, &ConnectionState::Play) {
        Ok(IncomingPacket::Unknown { data }) => assert_eq!(data, vec![1, 2, 3, 4, 5]),
        other => panic!("expected an unknown packet, got {:?}", other),
    }
    // a zero length is a padding frame
    let mut buf = PacketBuf::new(vec![0], vec![]);
    match read_packet(&mut buf, &ConnectionState::Play) {
        Ok(IncomingPacket::Unknown { data }) => assert_eq!(data.len(), 0),
        other => panic!("expected a padding frame, got {:?}", other),
    }
}

#[test]
fn string_errors() {
    // invalid UTF-8 in a login name
    let mut body: Vec<u8> = vec![];
    body.write_varint(0x00); // opcode
    body.write_varint(2); // string length
    body.extend_from_slice(&[0xC3, 0x28]); // not UTF-8
    let mut framed: Vec<u8> = vec![];
    framed.write_varint(body.len() as i32);
    framed.extend_from_slice(&body);
    let mut buf = PacketBuf::new(framed, vec![]);
    assert_eq!(
        read_packet(&mut buf, &ConnectionState::Login),
        Err(ReadError::InvalidUtf8)
    );
    // a string length past the end of the body
    let mut body: Vec<u8> = vec![];
    body.write_varint(0x00);
    body.write_varint(50);
    body.extend_from_slice(b"ab");
    let mut framed: Vec<u8> = vec![];
    framed.write_varint(body.len() as i32);
    framed.extend_from_slice(&body);
    let mut buf = PacketBuf::new(framed, vec![]);
    assert_eq!(
        read_packet(&mut buf, &ConnectionState::Login),
        Err(ReadError::EndOfFile)
    );
    // a non-ASCII name survives the round trip
    let p = IncomingPacket::LoginStart { name: "Renée".to_string(), player_uuid: None };
    let bytes = encode_packet(&p);
    let mut buf = PacketBuf::new(bytes, vec![]);
    assert_eq!(read_packet(&mut buf, &ConnectionState::Login), Ok(p));
}

#[test]
fn chunk_roundtrip_uniform() {
    // an all-identical array encodes single-valued: 0 bpe, empty data array
    let blocks: Vec<u16> = vec![9; 4096];
    let bytes = encode_section(&blocks);
    // count (2 bytes) then the block states: bpe 0, value 9, no words
    assert_eq!(&bytes[0..2], &[16, 0]); // 4096 non-air entries
    assert_eq!(bytes[2], 0); // bits per entry 0
    assert_eq!(bytes[3], 9); // the single value
    assert_eq!(bytes[4], 0); // empty data array
    let mut buf = PacketBuf::new(bytes, vec![]);
    let (count, decoded) = decode_section(&mut buf).expect("decode failed");
    assert_eq!(count, 4096);
    assert_eq!(decoded, blocks);
    assert_eq!(buf.remaining_len(), 0);
}

#[test]
fn chunk_roundtrip_indirect() {
    // a few distinct values: 2..=15 distinct ids pack at 4 bits per entry
    let mut blocks: Vec<u16> = Vec::with_capacity(4096);
    for i in 0..4096u32 {
        blocks.push(match i % 5 {
            0 => 0,
            1 => 1,
            2 => 10,
            3 => 79,
            _ => 9,
        });
    }
    let bytes = encode_section(&blocks);
    assert_eq!(bytes[2], 4); // bpe from the breakpoint table for 5 distinct values
    let mut buf = PacketBuf::new(bytes, vec![]);
    let (_, decoded) = decode_section(&mut buf).expect("decode failed");
    assert_eq!(decoded, blocks);

    // 16..=31 distinct values pack at 5 bits per entry
    let mut blocks: Vec<u16> = Vec::with_capacity(4096);
    for i in 0..4096u32 {
        blocks.push((i % 20) as u16);
    }
    let bytes = encode_section(&blocks);
    assert_eq!(bytes[2], 5);
    let mut buf = PacketBuf::new(bytes, vec![]);
    let (_, decoded) = decode_section(&mut buf).expect("decode failed");
    assert_eq!(decoded, blocks);
}

#[test]
fn chunk_roundtrip_direct() {
    // more than 255 distinct values switch to direct mode at 15 bits
    let mut blocks: Vec<u16> = Vec::with_capacity(4096);
    for i in 0..4096u32 {
        blocks.push((i % 300) as u16 + 1000);
    }
    let bytes = encode_section(&blocks);
    assert_eq!(bytes[2], 15);
    let mut buf = PacketBuf::new(bytes, vec![]);
    let (_, decoded) = decode_section(&mut buf).expect("decode failed");
    assert_eq!(decoded, blocks);
}

#[test]
fn offline_uuid_fixture() {
    // the documented offline UUID of the name `default`
    let u = Uuid::offline("default".to_string());
    assert_eq!(u.0, 110388530216132912663215514682830219291u128);
    assert_eq!(u, Uuid::default());
    // different names hash differently
    assert_ne!(Uuid::offline("Alice".to_string()), Uuid::offline("Bob".to_string()));
}

#[test]
fn hashed_seed_fixture() {
    // the hex digest of eight zero bytes starts "af5570f5": those eight
    // ASCII characters read as a big-endian i64
    assert_eq!(hashed_seed(0), 0x6166353537306635);
    assert_eq!(hashed_seed(0), hashed_seed(0));
    assert_ne!(hashed_seed(0), hashed_seed(1));
}
