use classicube_relay::packet::{
    ContinuePacket, ContinuePacketError, Flags, FlagsError, MapScope, Packet, PlayerScope, Scope,
    ScopeError, ServerScope, StartPacket, StartPacketError, StreamError,
};
use classicube_relay::ByteReader;

#[test]
fn test_decode_flags() {
    let data = &mut vec![
        // is_packet_start: true; stream_id: 3
        0b1000_0011,
    ];
    data.resize(Packet::DATA_LENGTH, 0);
    let flags = Flags::decode(&mut ByteReader::new(data.clone())).unwrap();
    assert!(flags.is_packet_start);
    assert_eq!(flags.stream_id, 3);

    let data = &mut vec![
        // is_packet_start: true; stream_id: 3
        0b0000_0011,
    ];
    data.resize(Packet::DATA_LENGTH, 0);
    let flags = Flags::decode(&mut ByteReader::new(data.clone())).unwrap();
    assert!(!flags.is_packet_start);
    assert_eq!(flags.stream_id, 3);
}

#[test]
fn test_decode_start_packet() {
    let mut data = vec![
        // is_packet_start: true; stream_id: 3
        0b1000_0011,
        // Player
        0x00,
        // player_id: 0
        0x00,
        // data_length: 1
        0x00,
        0x01,
        // data_part
        0xFF,
    ];
    data.resize(Packet::DATA_LENGTH, 0);

    let packet = Packet::decode(&mut ByteReader::new(data)).unwrap();
    if let Packet::Start(StartPacket {
        stream_id,
        scope: _scope,
        data_length,
        data_part,
    }) = packet
    {
        assert_eq!(stream_id, 3);
        assert_eq!(data_length, 1);
        let mut v = vec![0xFF];
        v.resize(59, 0);
        assert_eq!(data_part, v);
    } else {
        unreachable!();
    }

    let mut data = vec![
        // is_packet_start; stream_id: 3
        0b1000_0011,
        // invalid
        0xFF,
    ];
    data.resize(Packet::DATA_LENGTH, 0);
    assert!(Packet::decode(&mut ByteReader::new(data)).is_err());
}

#[test]
fn test_decode_continue_packet() {
    let mut data = vec![
        // is_packet_start: false; stream_id: 3
        0b0000_0011,
        // data_part
        0xFF,
    ];
    data.resize(Packet::DATA_LENGTH, 0);

    let packet = Packet::decode(&mut ByteReader::new(data)).unwrap();
    if let Packet::Continue(ContinuePacket {
        stream_id,
        data_part,
    }) = packet
    {
        assert_eq!(stream_id, 3);
        let mut v = vec![0xFF];
        v.resize(63, 0);
        assert_eq!(data_part, v);
    } else {
        unreachable!();
    }
}

#[test]
fn test_encode_decode() {
    let mut data_stream = ByteReader::new(vec![]);
    let packet = Packet::Start(
        StartPacket::new_reader(1, PlayerScope::new(2), 3, &mut data_stream).unwrap(),
    );
    let packet_data = packet.encode().unwrap();
    let decoded_packet = Packet::decode(&mut ByteReader::new(packet_data)).unwrap();

    assert_eq!(packet, decoded_packet);
}

#[test]
fn flags_encode_sets_start_bit_and_masks_stream_id() {
    let encoded = Flags { is_packet_start: true, stream_id: 5 }.encode().unwrap();
    assert_eq!(encoded, vec![0b1000_0101]);
    let encoded = Flags { is_packet_start: false, stream_id: 0xFF }.encode().unwrap();
    assert_eq!(encoded, vec![0b0111_1111]);
}

#[test]
fn flags_round_trip_only_below_128() {
    let f = Flags { is_packet_start: false, stream_id: 127 };
    let back = Flags::decode(&mut ByteReader::new(f.encode().unwrap())).unwrap();
    assert_eq!(back, f);
    let f = Flags { is_packet_start: true, stream_id: 200 };
    let back = Flags::decode(&mut ByteReader::new(f.encode().unwrap())).unwrap();
    assert_eq!(back, Flags { is_packet_start: true, stream_id: 200 & 0x7f });
}

#[test]
fn flags_decode_of_empty_input_fails() {
    let mut reader = ByteReader::new(vec![]);
    assert_eq!(Flags::decode(&mut reader), Err(FlagsError::UnexpectedEof));
    assert_eq!(reader.position(), 0);
}

#[test]
fn scope_encode_and_kind() {
    assert_eq!(Scope::Player(PlayerScope::new(9)).encode().unwrap(), vec![0, 9]);
    assert_eq!(
        Scope::InMap(MapScope { have_plugin: true }).encode().unwrap(),
        vec![1, 0b1000_0000]
    );
    assert_eq!(
        Scope::Server(ServerScope { have_plugin: false }).encode().unwrap(),
        vec![2, 0]
    );
    assert_eq!(Scope::InMap(MapScope::default()).kind(), 1);
    assert_eq!(Scope::from(ServerScope::default()).kind(), 2);
}

#[test]
fn scope_round_trip_and_errors() {
    for scope in [
        Scope::Player(PlayerScope::new(77)),
        Scope::InMap(MapScope { have_plugin: true }),
        Scope::InMap(MapScope { have_plugin: false }),
        Scope::Server(ServerScope { have_plugin: true }),
    ] {
        let back = Scope::decode(&mut ByteReader::new(scope.encode().unwrap())).unwrap();
        assert_eq!(back, scope);
    }
    assert_eq!(
        Scope::decode(&mut ByteReader::new(vec![3, 4])),
        Err(ScopeError::InvalidScope { kind: 3, extra: 4 })
    );
    assert_eq!(
        Scope::decode(&mut ByteReader::new(vec![0])),
        Err(ScopeError::UnexpectedEof)
    );
    // only bit 7 of the extra byte counts for a map scope
    assert_eq!(
        Scope::decode(&mut ByteReader::new(vec![1, 0b1000_0001])),
        Ok(Scope::InMap(MapScope { have_plugin: true }))
    );
}

#[test]
fn start_packet_new_checks_data_part_length() {
    assert_eq!(
        StartPacket::new(1, PlayerScope::new(2), 3, vec![0; 58]),
        Err(StartPacketError::DataPartLength)
    );
    let p = StartPacket::new(1, MapScope { have_plugin: true }, 3, vec![7; 59]).unwrap();
    assert_eq!(p.scope, Scope::InMap(MapScope { have_plugin: true }));
    assert_eq!(p.data_part, vec![7; 59]);
}

#[test]
fn continue_packet_new_checks_data_part_length() {
    assert_eq!(
        ContinuePacket::new(1, vec![0; 64]),
        Err(ContinuePacketError::DataPartLength)
    );
    assert!(ContinuePacket::new(1, vec![0; 63]).is_ok());
}

#[test]
fn start_packet_encodes_length_in_network_order() {
    let p = StartPacket::new(4, PlayerScope::new(6), 0x0102, vec![9; 59]).unwrap();
    let bytes = p.encode().unwrap();
    assert_eq!(bytes.len(), 64);
    assert_eq!(&bytes[..5], &[0b1000_0100, 0, 6, 0x01, 0x02]);
    let back = Packet::decode(&mut ByteReader::new(bytes)).unwrap();
    match back {
        Packet::Start(s) => assert_eq!(s.data_length, 0x0102),
        _ => unreachable!(),
    }
}

#[test]
fn new_reader_reads_and_pads() {
    let mut reader = ByteReader::new((1..=70).collect());
    let start = StartPacket::new_reader(1, PlayerScope::new(2), 70, &mut reader).unwrap();
    assert_eq!(start.data_part, (1..=59).collect::<Vec<u8>>());
    assert_eq!(reader.position(), 59);
    let cont = ContinuePacket::new_reader(1, &mut reader).unwrap();
    let mut expected: Vec<u8> = (60..=70).collect();
    expected.resize(63, 0);
    assert_eq!(cont.data_part, expected);
    assert!(reader.is_at_end());
}

#[test]
fn decode_errors() {
    // empty input: no flags byte
    assert_eq!(
        Packet::decode(&mut ByteReader::new(vec![])),
        Err(StreamError::Flags(FlagsError::UnexpectedEof))
    );
    // start packet cut inside its data length
    assert_eq!(
        Packet::decode(&mut ByteReader::new(vec![0x80, 0, 1, 0])),
        Err(StreamError::StartPacket(StartPacketError::UnexpectedEof))
    );
    // start packet whose data part is short
    let mut data = vec![0x80, 0, 1, 0, 5];
    data.resize(63, 0);
    assert_eq!(
        Packet::decode(&mut ByteReader::new(data)),
        Err(StreamError::StartPacket(StartPacketError::ReadFullDataPart))
    );
    // invalid scope
    assert_eq!(
        Packet::decode(&mut ByteReader::new(vec![0x80, 9, 9])),
        Err(StreamError::StartPacket(StartPacketError::Scope(
            ScopeError::InvalidScope { kind: 9, extra: 9 }
        )))
    );
    // continue packet whose data part is short
    assert_eq!(
        Packet::decode(&mut ByteReader::new(vec![0x01; 63])),
        Err(StreamError::ContinuePacket(ContinuePacketError::ReadFullDataPart))
    );
}

#[test]
fn continue_packet_round_trip() {
    let packet = Packet::Continue(ContinuePacket::new(127, (0..63).collect()).unwrap());
    let bytes = packet.encode().unwrap();
    assert_eq!(bytes.len(), Packet::DATA_LENGTH);
    assert_eq!(bytes[0], 0x7f);
    assert_eq!(Packet::decode(&mut ByteReader::new(bytes)).unwrap(), packet);
}

#[test]
fn start_packet_with_scope_entry_points() {
    let scope = Scope::InMap(MapScope { have_plugin: false });
    let p = StartPacket::new_with_scope(5, scope, 10, vec![1; 59]).unwrap();
    assert_eq!(p.scope, scope);
    assert_eq!(
        StartPacket::new_with_scope(5, scope, 10, vec![1; 60]),
        Err(StartPacketError::DataPartLength)
    );
    let mut reader = ByteReader::new(vec![4, 5, 6]);
    let p = StartPacket::new_reader_with_scope(5, scope, 3, &mut reader).unwrap();
    assert_eq!(p.scope, scope);
    let mut expected = vec![4, 5, 6];
    expected.resize(59, 0);
    assert_eq!(p.data_part, expected);
}
