use classicube_relay::events::store::{ReceiveError, Store, StoreError};
use classicube_relay::events::{check_channel, PartialStream, PartialStreamError};
use classicube_relay::packet::{ContinuePacket, MapScope, Packet, PlayerScope, StartPacket, StreamError};
use classicube_relay::stream::{OutgoingPacketIds, Stream};

fn start_packet(stream_id: u8, player_id: u8, data_length: u16) -> Vec<u8> {
    let mut data_part = vec![];
    data_part.resize(StartPacket::DATA_PART_LENGTH, 0);
    Packet::Start(StartPacket::new(stream_id, PlayerScope::new(player_id), data_length, data_part).unwrap())
        .encode()
        .unwrap()
}

fn continue_packet(stream_id: u8) -> Vec<u8> {
    let mut data_part = vec![];
    data_part.resize(ContinuePacket::DATA_PART_LENGTH, 0);
    Packet::Continue(ContinuePacket::new(stream_id, data_part).unwrap())
        .encode()
        .unwrap()
}

#[test]
fn test_events_invalid_channel() {
    assert!(check_channel(20).is_err());
}

#[test]
fn events_test_events_invalid_channel() {
    assert!(check_channel(20).is_err());
    assert_eq!(check_channel(20), Err(PartialStreamError::StartIndex(20)));
    assert!(check_channel(200).is_ok());
}

#[test]
fn test_events_invalid_continue() {
    let mut store = Store::new();
    let called = store.handle_plugin_message(200, 200, continue_packet(1), 0);
    assert!(!matches!(called, Ok(Some(_))));
}

#[test]
fn events_test_events_invalid_continue() {
    let mut store = Store::new();
    let called = store.handle_plugin_message(200, 200, continue_packet(1), 0);
    assert_eq!(called.unwrap_err(), ReceiveError::Process(StoreError::Thing2));
}

fn single_start_packet() {
    let mut store = Store::new();
    let called = store
        .handle_plugin_message(200, 200, start_packet(1, 2, 2), 0)
        .unwrap();
    let args = called.unwrap();
    assert_eq!(args.player_id(), 2);
    assert_eq!(*args.data(), vec![0; 2]);
}

#[test]
fn test_events_single_start_packet() {
    single_start_packet();
}

#[test]
fn events_test_events_single_start_packet() {
    single_start_packet();
}

fn multiple_packets() {
    let mut store = Store::new();
    let first = store
        .handle_plugin_message(200, 200, start_packet(1, 2, 64), 0)
        .unwrap();
    assert!(first.is_none());
    let called = store
        .handle_plugin_message(200, 200, continue_packet(1), 1)
        .unwrap();
    let args = called.unwrap();
    assert_eq!(args.player_id(), 2);
    assert_eq!(*args.data(), vec![0; 64]);
}

#[test]
fn test_events_multiple_packets() {
    multiple_packets();
}

#[test]
fn events_test_events_multiple_packets() {
    multiple_packets();
}

fn restart() {
    let mut store = Store::new();
    let first = store
        .handle_plugin_message(200, 200, start_packet(1, 2, 64), 0)
        .unwrap();
    assert!(first.is_none());
    let called = store
        .handle_plugin_message(200, 200, start_packet(1, 2, 10), 1)
        .unwrap();
    let args = called.unwrap();
    assert_eq!(args.player_id(), 2);
    assert_eq!(*args.data(), vec![0; 10]);
}

#[test]
fn test_events_restart() {
    restart();
}

#[test]
fn events_test_events_restart() {
    restart();
}

#[test]
fn other_channels_are_ignored() {
    let mut store = Store::new();
    let called = store
        .handle_plugin_message(200, 201, start_packet(1, 2, 2), 0)
        .unwrap();
    assert!(called.is_none());
}

#[test]
fn non_player_scope_is_refused() {
    let mut store = Store::new();
    let data = Packet::Start(StartPacket::new(1, MapScope::default(), 2, vec![0; 59]).unwrap())
        .encode()
        .unwrap();
    assert_eq!(
        store.handle_plugin_message(200, 200, data.clone(), 0).unwrap_err(),
        ReceiveError::Process(StoreError::Thing)
    );
    let packet = Packet::decode(&mut classicube_relay::ByteReader::new(data)).unwrap();
    assert_eq!(store.process_packet(packet, 0).unwrap_err(), StoreError::Thing);
}

#[test]
fn undecodable_message_is_refused() {
    let mut store = Store::new();
    match store.handle_plugin_message(200, 200, vec![], 0) {
        Err(ReceiveError::Decode(StreamError::Flags(_))) => {}
        _ => unreachable!(),
    }
}

#[test]
fn timed_out_stream_is_dropped() {
    let mut store = Store::new();
    assert!(store
        .handle_plugin_message(200, 200, start_packet(1, 2, 64), 1_000)
        .unwrap()
        .is_none());
    // not yet timed out: the deadline is 11_000
    store.tick(11_000);
    let called = store
        .handle_plugin_message(200, 200, continue_packet(1), 11_000)
        .unwrap();
    assert_eq!(*called.unwrap().data(), vec![0; 64]);

    assert!(store
        .handle_plugin_message(200, 200, start_packet(1, 2, 64), 1_000)
        .unwrap()
        .is_none());
    store.tick(11_001);
    assert_eq!(
        store
            .handle_plugin_message(200, 200, continue_packet(1), 11_001)
            .unwrap_err(),
        ReceiveError::Process(StoreError::Thing2)
    );
}

#[test]
fn partial_stream_keeps_only_missing_bytes() {
    let mut stream = PartialStream::new(7, 5);
    assert!(!stream.is_finished());
    stream.write_part(vec![1, 2, 3]).unwrap();
    assert_eq!(*stream.data(), vec![1, 2, 3]);
    stream.write_part(vec![4, 5, 6, 7]).unwrap();
    assert_eq!(*stream.data(), vec![1, 2, 3, 4, 5]);
    assert!(stream.is_finished());
    assert_eq!(stream.player_id(), 7);
    assert_eq!(stream.data_length(), 5);
}

#[test]
fn sent_stream_is_received_whole() {
    let mut ids = OutgoingPacketIds::new();
    let data: Vec<u8> = (0..300u32).map(|i| (i % 251) as u8).collect();
    let stream = Stream::new(data.clone(), PlayerScope::new(9), &mut ids).unwrap();
    let packets = stream.packets().unwrap();
    let mut store = Store::new();
    let count = packets.len();
    for (i, packet) in packets.iter().enumerate() {
        let got = store
            .handle_plugin_message(210, 210, packet.encode().unwrap(), i as u64)
            .unwrap();
        if i + 1 < count {
            assert!(got.is_none());
        } else {
            let got = got.unwrap();
            assert_eq!(got.player_id(), 9);
            assert_eq!(*got.data(), data);
        }
    }
}
