use classicube_relay::packet::{ContinuePacket, Packet, PlayerScope, Scope, ServerScope, StartPacket};
use classicube_relay::stream::{OutgoingPacketIds, Stream, StreamError};

#[test]
fn test_stream() {
    let mut ids = OutgoingPacketIds::new();

    // test 0 length
    let stream = Stream::new(vec![], PlayerScope::new(0), &mut ids).unwrap();
    let mut packets = stream.packets().unwrap();
    assert_eq!(packets.len(), 1);
    if let Packet::Start(StartPacket {
        stream_id,
        scope: _scope,
        data_length,
        data_part,
    }) = packets.remove(0)
    {
        assert_eq!(stream_id, 0);
        assert_eq!(data_length, 0);
        assert_eq!(data_part, vec![0; 59]);
    } else {
        unreachable!();
    }

    // test 1 single start packet
    let stream = Stream::new(b"helloooo".to_vec(), PlayerScope::new(0), &mut ids).unwrap();
    let mut packets = stream.packets().unwrap();
    assert_eq!(packets.len(), 1);
    if let Packet::Start(StartPacket {
        stream_id,
        scope: _scope,
        data_length,
        data_part,
    }) = packets.remove(0)
    {
        assert_eq!(stream_id, 1);
        assert_eq!(data_length, 8);
        let mut v = b"helloooo".to_vec();
        v.resize(59, 0);
        assert_eq!(data_part, v);
    } else {
        unreachable!();
    }

    // test multiple packets
    let stream = Stream::new(vec![123; 64], PlayerScope::new(0), &mut ids).unwrap();
    let mut packets = stream.packets().unwrap();
    assert_eq!(packets.len(), 2);
    if let Packet::Start(StartPacket {
        stream_id,
        scope: _scope,
        data_length,
        data_part,
    }) = packets.remove(0)
    {
        assert_eq!(stream_id, 2);
        assert_eq!(data_length, 64);
        assert_eq!(data_part, vec![123; 59]);
    } else {
        unreachable!();
    }
    if let Packet::Continue(ContinuePacket {
        stream_id,
        data_part,
    }) = packets.remove(0)
    {
        assert_eq!(stream_id, 2);
        let mut v = vec![123; 5];
        v.resize(63, 0);
        assert_eq!(data_part, v);
    } else {
        unreachable!();
    }

    // test max size single packet
    let stream = Stream::new(vec![123; 59], PlayerScope::new(0), &mut ids).unwrap();
    let mut packets = stream.packets().unwrap();
    assert_eq!(packets.len(), 1);
    if let Packet::Start(StartPacket {
        stream_id,
        scope: _scope,
        data_length,
        data_part,
    }) = packets.remove(0)
    {
        assert_eq!(stream_id, 3);
        assert_eq!(data_length, 59);
        assert_eq!(data_part, vec![123; 59]);
    } else {
        unreachable!();
    }

    // test max size
    assert!(Stream::new(vec![123; u16::MAX as usize + 1], PlayerScope::new(0), &mut ids).is_err());

    let stream = Stream::new(vec![123; u16::MAX as usize], PlayerScope::new(0), &mut ids).unwrap();
    let mut packets = stream.packets().unwrap();
    assert_eq!(
        packets.len(),
        (1.0 + ((65535.0 - 59.0) / 63.0_f32).ceil()) as usize
    );
    if let Packet::Start(StartPacket {
        stream_id,
        scope: _scope,
        data_length,
        data_part,
    }) = packets.remove(0)
    {
        assert_eq!(stream_id, 4);
        assert_eq!(data_length, u16::MAX);
        assert_eq!(data_part, vec![123; 59]);
    } else {
        unreachable!();
    }
    while !packets.is_empty() {
        if let Packet::Continue(ContinuePacket {
            stream_id,
            data_part,
        }) = packets.remove(0)
        {
            assert_eq!(stream_id, 4);
            if !packets.is_empty() {
                assert_eq!(data_part, vec![123; 63]);
            } else {
                // last packet is smaller
                let mut v = vec![123; 19];
                v.resize(63, 0);
                assert_eq!(data_part, v);
            }
        } else {
            unreachable!();
        }
    }
    // 20 extra bytes
    // ((1 + (2^16 - 59)/63) - 1040) * 63
}

#[test]
fn test_stream_frees_packet_id() {
    let mut ids = OutgoingPacketIds::new();
    let mut streams = vec![];
    // test "no free outgoing ids"
    for _ in 0..2u8.pow(7) {
        streams.push(Stream::new(b"".to_vec(), PlayerScope::new(0), &mut ids).unwrap());
    }
    assert!(Stream::new(b"".to_vec(), PlayerScope::new(0), &mut ids).is_err());

    for stream in streams {
        stream.release(&mut ids);
    }

    assert!(Stream::new(b"".to_vec(), PlayerScope::new(0), &mut ids).is_ok());
}

#[test]
fn stream_errors_name_their_cause() {
    let mut ids = OutgoingPacketIds::new();
    match Stream::new(vec![0; 65536], PlayerScope::new(0), &mut ids) {
        Err(StreamError::LengthOverflow(m)) => assert_eq!(m, "data.len() > u16::MAX"),
        _ => unreachable!(),
    }
    for _ in 0..128 {
        Stream::new_outgoing_packet_id(&mut ids).unwrap();
    }
    match Stream::new(vec![], PlayerScope::new(0), &mut ids) {
        Err(StreamError::PacketIdLimit) => {}
        _ => unreachable!(),
    }
}

#[test]
fn freed_id_is_taken_again_first() {
    let mut ids = OutgoingPacketIds::new();
    for expected in 0..5u8 {
        assert_eq!(Stream::new_outgoing_packet_id(&mut ids).unwrap(), expected);
    }
    Stream::free_outgoing_packet_id(&mut ids, 2);
    assert_eq!(Stream::new_outgoing_packet_id(&mut ids).unwrap(), 2);
    assert_eq!(Stream::new_outgoing_packet_id(&mut ids).unwrap(), 5);
}

#[test]
fn packets_concatenate_to_the_data() {
    let mut ids = OutgoingPacketIds::new();
    let data: Vec<u8> = (0..200u32).map(|i| (i * 7 % 256) as u8).collect();
    let stream = Stream::new(data.clone(), PlayerScope::new(3), &mut ids).unwrap();
    let packets = stream.packets().unwrap();
    // 59 + 63 + 63 = 185 < 200 <= 248
    assert_eq!(packets.len(), 4);
    let mut joined = vec![];
    for packet in &packets {
        assert_eq!(packet.encode().unwrap().len(), 64);
        match packet {
            Packet::Start(p) => joined.extend_from_slice(&p.data_part),
            Packet::Continue(p) => joined.extend_from_slice(&p.data_part),
        }
    }
    joined.truncate(data.len());
    assert_eq!(joined, data);
}

#[test]
fn stream_with_scope_keeps_the_scope() {
    let mut ids = OutgoingPacketIds::new();
    let scope = Scope::Server(ServerScope { have_plugin: true });
    let stream = Stream::new_with_scope(vec![1, 2, 3], scope, &mut ids).unwrap();
    assert_eq!(stream.scope, scope);
    assert_eq!(stream.stream_id(), 0);
    match &stream.packets().unwrap()[0] {
        Packet::Start(p) => assert_eq!(p.scope, scope),
        _ => unreachable!(),
    }
}

#[test]
fn stream_getters_show_the_fields() {
    let mut ids = OutgoingPacketIds::new();
    let stream = Stream::new(vec![5, 6], PlayerScope::new(4), &mut ids).unwrap();
    assert_eq!(*stream.data(), vec![5, 6]);
    assert_eq!(stream.scope(), Scope::Player(PlayerScope::new(4)));
}
