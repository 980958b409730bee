use space_engineers::bits::{BitReader, BitWriter};
use space_engineers::control::{ControlPacket, ControlPacketId, ControlPayload};
use space_engineers::math::Vector3DBits;
use space_engineers::nullable::Nullable;
use space_engineers::packet::{MessageType, PacketFrame, MAGIC_NUMBER};
use space_engineers::replication::{Packet, PacketId, ReplicationPacket};
use space_engineers::rpc::RawRpcPacket;
use space_engineers::wire::{BitAligned, BitCodec, VarBytes, Varint};

fn parse_replication_frame(data: &[u8]) -> PacketFrame<ReplicationPacket> {
    assert!(PacketFrame::<ReplicationPacket>::from_bytes_defined(data));
    PacketFrame::<ReplicationPacket>::from_bytes(data).unwrap()
}

#[test]
fn test_control_packet_disconnected() {
    // Real sample: Disconnected packet for Steam ID 76561198094742934
    let bytes: Vec<u8> = vec![206, 0, 255, 255, 255, 255, 0, 1, 1, 0, 150, 245, 3, 8, 1, 0, 16, 1];

    let result = PacketFrame::<ControlPacket>::from_bytes(&bytes);
    assert!(result.is_ok());
    let packet_frame = result.unwrap();
    let packet = packet_frame.inner;

    assert_eq!(packet.packet_id, ControlPacketId::Disconnected);
    if let ControlPayload::Disconnected { client_id } = packet.data {
        assert_eq!(client_id, 76561198094742934);
    } else {
        panic!("Expected Disconnected packet");
    }
}

#[test]
fn test_message_type_round_trip() {
    let types = [MessageType::Unprotected, MessageType::TamperResistant];
    for &msg_type in &types {
        let mut writer = BitWriter::new();
        msg_type.encode(&mut writer);
        let buf = writer.to_bytes();

        let mut reader = BitReader::from_bytes(&buf);
        let read_type = MessageType::decode(&mut reader).unwrap();
        assert_eq!(msg_type, read_type);
    }
}

#[test]
fn test_packet_id_round_trip() {
    let ids = [PacketId::Flush, PacketId::Rpc, PacketId::ClientConnected];
    for &id in &ids {
        let mut writer = BitWriter::new();
        id.encode(&mut writer);
        let buf = writer.to_bytes();

        let mut reader = BitReader::from_bytes(&buf);
        let read_id = PacketId::decode(&mut reader).unwrap();
        assert_eq!(id, read_id);
    }
}

#[test]
fn test_real_packet_2() {
    let data: [u8; 76] = [
        0xce, 0x01, 0xa0, 0x8b, 0x06, 0x87, 0x00, 0x01, 0x07, 0x00, 0x72, 0x03, 0x00, 0x00, 0x00,
        0xf4, 0x0a, 0x00, 0x00, 0x00, 0x00, 0x00, 0x00, 0x74, 0x54, 0x55, 0xfb, 0x00, 0xd4, 0x57,
        0x03, 0x11, 0x81, 0xbe, 0xa0, 0x14, 0x01, 0x48, 0xe1, 0x7a, 0x14, 0xf8, 0xe6, 0x46, 0x04,
        0x01, 0x00, 0x00, 0x00, 0x00, 0x00, 0xc0, 0xff, 0x02, 0x00, 0x00, 0x00, 0x00, 0x00, 0xc0,
        0xff, 0x02, 0x00, 0x00, 0xfe, 0xc0, 0x64, 0x0a, 0x02, 0xf9, 0x5c, 0xad, 0xfe, 0xe4, 0x22,
        0x03,
    ];

    let frame = parse_replication_frame(&data);

    // Frame header
    assert_eq!(frame.magic_number, MAGIC_NUMBER);
    assert_eq!(frame.message_type, MessageType::TamperResistant);
    assert_eq!(frame.checksum, 2265353120);
    assert_eq!(frame.packet_index, 0);
    assert_eq!(frame.packet_count, 1);

    // Inner replication packet
    let replication = &frame.inner;
    assert_eq!(replication.packet_id, PacketId::ServerStateSync);
    assert_eq!(replication.index, 0);

    let Packet::ServerStateSync(packet) = &replication.data else {
        panic!("Expected ServerStateSync packet");
    };

    assert!(!packet.is_streaming.0);
    assert_eq!(*packet.packet_id, 185);

    let stats = packet.statistics.as_ref().expect("Expected statistics");
    assert_eq!(*stats.duplicates, 0);
    assert_eq!(*stats.out_of_order, 0);
    assert_eq!(*stats.drops, 0);
    assert_eq!(*stats.tampered, 0);
    assert_eq!(*stats.outgoing_data, 701);
    assert_eq!(*stats.incoming_data, 0);
    assert_eq!(*stats.pending_packet_count, 0);

    assert_eq!(f64::from_bits(*packet.server_timestamp), 290415.505);
    assert_eq!(f64::from_bits(*packet.last_client_timestamp), -1.0);
    assert_eq!(f64::from_bits(*packet.last_client_realtime), -1.0);
    assert_eq!(f32::from_bits(*packet.server_simulation_ratio), 1.0);
    assert!(packet.state_groups.entries.is_empty());
}

#[test]
fn server_state_sync_parse() {
    let data: [u8; 194] = [
        0xce, 0x01, 0x80, 0xe0, 0x5d, 0xca, 0x00, 0x01, 0x07, 0x00, 0x7e, 0xa8, 0x13, 0xd0, 0x5c,
        0x34, 0x1a, 0x40, 0x06, 0xfd, 0x65, 0xf7, 0x4e, 0x32, 0x1a, 0x40, 0x06, 0xb1, 0xb6, 0xe2,
        0x33, 0xb2, 0x4f, 0xfb, 0x06, 0x01, 0x00, 0x00, 0xfe, 0x00, 0x91, 0x5e, 0x00, 0xd5, 0x12,
        0x72, 0xfc, 0xe4, 0x22, 0x9b, 0x1b, 0x40, 0x11, 0x00, 0x94, 0x4f, 0x55, 0xeb, 0x44, 0xc1,
        0xed, 0x0b, 0xd4, 0x41, 0x2b, 0x67, 0xb3, 0xdf, 0xa4, 0x0c, 0xc4, 0x71, 0xdc, 0x33, 0xe9,
        0xc0, 0x18, 0x0b, 0x0c, 0x00, 0x00, 0x00, 0x60, 0x66, 0x66, 0xf6, 0x03, 0x00, 0x00, 0x00,
        0x80, 0x8e, 0xd0, 0xea, 0x7b, 0x04, 0x43, 0xf5, 0x13, 0x71, 0xb8, 0xe9, 0xc3, 0x65, 0x71,
        0xea, 0x03, 0x00, 0x00, 0x00, 0x00, 0x00, 0x00, 0x00, 0x00, 0x00, 0x00, 0x00, 0x00, 0x00,
        0x00, 0x00, 0x00, 0x00, 0x00, 0x00, 0x00, 0x00, 0x00, 0x00, 0x30, 0x00, 0x00, 0x00, 0x00,
        0x00, 0x00, 0x00, 0x00, 0x01, 0x00, 0x00, 0x80, 0xfe, 0xfe, 0xfe, 0xce, 0x11, 0x5a, 0x7d,
        0x8b, 0x60, 0xa8, 0x7e, 0x20, 0x0e, 0x37, 0x7d, 0xb6, 0x2c, 0x4e, 0x7d, 0x04, 0x00, 0x00,
        0x00, 0x00, 0x00, 0x00, 0x00, 0x00, 0x00, 0x00, 0x00, 0x7f, 0x00, 0x00, 0x00, 0x00, 0x00,
        0x00, 0x00, 0x00, 0x00, 0x00, 0x00, 0x00, 0x00, 0x00, 0x00, 0x00, 0xe4, 0x22, 0x03,
    ];

    let frame = parse_replication_frame(&data);
    let replication_packet = frame.inner;

    assert_eq!(replication_packet.packet_id, PacketId::ServerStateSync);
    if let Packet::ServerStateSync(server_state_sync) = replication_packet.data {
        // Byte 10 = 0x7e = 0b01111110, bit 0 (LSB) = 0 -> is_streaming = false
        assert_eq!(server_state_sync.is_streaming.0, false);
        // packet_id is next 8 bits: 0x7e >> 1 = 0x3F = 63
        assert_eq!(server_state_sync.packet_id.0, 63);
        // statistics has_value bit = 0, so None
        assert!(server_state_sync.statistics.is_none());
        // Timestamps look plausible (milliseconds)
        assert_eq!(f64::from_bits(server_state_sync.server_timestamp.0), 67216197.8008f64);
        assert_eq!(f64::from_bits(server_state_sync.last_client_timestamp.0), 67216164.9354f64);
        println!(
            "server_simulation_ratio: {}",
            f32::from_bits(server_state_sync.server_simulation_ratio.0)
        );
        println!("server_cpu_load: {}", f32::from_bits(server_state_sync.server_cpu_load.0));
        println!("server_thread_load: {}", f32::from_bits(server_state_sync.server_thread_load.0));
        println!("Number of state groups: {}", server_state_sync.state_groups.entries.len());
        for (i, entry) in server_state_sync.state_groups.entries.iter().enumerate() {
            println!(
                "  State group {}: network_id={:?}, size_bits={}, data_len={}",
                i,
                entry.network_id,
                entry.size_bits,
                entry.data.len()
            );
        }
    } else {
        panic!("Expected ServerStateSync packet");
    }
}

#[test]
fn client_acks_packet_parse() {
    let data: [u8; 17] = [
        0xce, 0x00, 0xff, 0xff, 0xff, 0xff, 0x00, 0x01, 0x11, 0x00, 0x95, 0x00, 0x02, 0x2a, 0x73,
        0x91, 0x01,
    ];

    let frame = parse_replication_frame(&data);
    let replication_packet = frame.inner;

    assert_eq!(replication_packet.packet_id, PacketId::ClientAcks);
    if let Packet::ClientAcks(client_acks) = replication_packet.data {
        assert_eq!(client_acks.last_state_sync_packet_id, 149.into());
        assert_eq!(client_acks.received_streaming_packet.0, false);
        assert_eq!(client_acks.last_streaming_packet_id, 0.into());
        assert_eq!(client_acks.ack_packet_count, 1.into());
        assert_eq!(client_acks.ack_packets, vec![149.into()]);
    } else {
        panic!("Expected ClientAcks packet");
    }
}

#[test]
fn rpc_packet_parse() {
    // This is a real RPC packet sample with a bit-shifted terminator.
    let data: [u8; 35] = [
        0xce, 0x00, 0xff, 0xff, 0xff, 0xff, 0x00, 0x01, 0x03, 0x00, 0xdb, 0x49, 0x00, 0x00, 0x00,
        0x02, 0x44, 0xb5, 0xb7, 0x80, 0x00, 0x00, 0x00, 0x00, 0x00, 0x00, 0x00, 0x00, 0x1c, 0x42,
        0x86, 0xc2, 0xe5, 0x22, 0x07,
    ];

    let frame = parse_replication_frame(&data);
    let replication_packet = frame.inner;

    assert_eq!(replication_packet.packet_id, PacketId::Rpc);
    if let Packet::Rpc(rpc) = replication_packet.data {
        assert_eq!(rpc.network_id.0, 9435);
        assert_eq!(rpc.blocked_by_network_id.0, 0);
        assert_eq!(rpc.event_id, 0);
        assert!(rpc.position.is_none());
        assert_eq!(rpc.payload.len(), 18);
    } else {
        panic!("Expected Rpc packet");
    }
}

#[test]
fn test_real_packet() {
    let data: [u8; 25] = [
        0xce, 0x00, 0xff, 0xff, 0xff, 0xff, 0x00, 0x01, 0x03, 0x00, 0x00, 0x00, 0xa7, 0x00, 0xa6,
        0x8f, 0x80, 0x94, 0x00, 0x00, 0x00, 0x00, 0x72, 0x91, 0x55,
    ];
    let frame = parse_replication_frame(&data);

    // Frame header
    assert_eq!(frame.magic_number, MAGIC_NUMBER);
    assert_eq!(frame.message_type, MessageType::Unprotected);
    assert_eq!(frame.checksum, 0xffffffff);
    assert_eq!(frame.packet_index, 0);
    assert_eq!(frame.packet_count, 1);
    assert!(frame.validate_checksum());

    // Inner replication packet
    let replication = &frame.inner;
    assert_eq!(replication.packet_id, PacketId::Rpc);
    assert_eq!(replication.index, 0);

    let Packet::Rpc(rpc) = &replication.data else {
        panic!("Expected Rpc packet");
    };
    assert_eq!(*rpc.network_id, 0, "Static event has network_id 0");
    assert_eq!(*rpc.blocked_by_network_id, 0);
    assert_eq!(rpc.event_id, 167);
    assert!(rpc.is_static_event());
}

#[test]
fn test_rpc_round_trip_no_position() {
    let original = RawRpcPacket {
        network_id: Varint(0),
        blocked_by_network_id: Varint(0),
        event_id: 42,
        position: Nullable::none(),
        payload: vec![0xAB, 0xCD, 0xEF],
    };

    let bytes = original.to_bytes().expect("serialization should succeed");
    let parsed = RawRpcPacket::from_bytes(&bytes).expect("parsing should succeed");

    assert_eq!(parsed.network_id.0, original.network_id.0);
    assert_eq!(parsed.blocked_by_network_id.0, original.blocked_by_network_id.0);
    assert_eq!(parsed.event_id, original.event_id);
    assert!(parsed.position.is_none());
    assert_eq!(parsed.payload, original.payload);
}

#[test]
fn test_rpc_round_trip_with_position() {
    let pos = Vector3DBits {
        x: BitAligned(1.0f64.to_bits()),
        y: BitAligned(2.0f64.to_bits()),
        z: BitAligned(3.0f64.to_bits()),
    };
    let original = RawRpcPacket {
        network_id: Varint(123),
        blocked_by_network_id: Varint(456),
        event_id: 999,
        position: Nullable::some(pos),
        payload: vec![0x11, 0x22],
    };

    let bytes = original.to_bytes().expect("serialization should succeed");
    let parsed = RawRpcPacket::from_bytes(&bytes).expect("parsing should succeed");

    assert_eq!(parsed.network_id.0, original.network_id.0);
    assert_eq!(parsed.blocked_by_network_id.0, original.blocked_by_network_id.0);
    assert_eq!(parsed.event_id, original.event_id);
    assert!(parsed.position.is_some());
    let parsed_pos = parsed.position.as_ref().unwrap();
    assert_eq!(f64::from_bits(parsed_pos.x.0), 1.0);
    assert_eq!(f64::from_bits(parsed_pos.y.0), 2.0);
    assert_eq!(f64::from_bits(parsed_pos.z.0), 3.0);
    assert_eq!(parsed.payload, original.payload);
}

#[test]
fn test_rpc_empty_payload() {
    let original = RawRpcPacket {
        network_id: Varint(0),
        blocked_by_network_id: Varint(0),
        event_id: 0,
        position: Nullable::none(),
        payload: vec![],
    };

    let bytes = original.to_bytes().expect("serialization should succeed");
    let parsed = RawRpcPacket::from_bytes(&bytes).expect("parsing should succeed");

    assert_eq!(parsed.payload.len(), 0);
}

#[test]
fn rpc_out_of_range_network_id_is_not_defined() {
    // Network ID 2^32 does not fit in 32 bits.
    let data = [0x80u8, 0x80, 0x80, 0x80, 0x10, 0x00, 0x00, 0x00, 0x00, 0xB9, 0xC8];
    assert!(!RawRpcPacket::from_bytes_defined(&data));
}

#[test]
fn control_frame_round_trip() {
    let packet = ControlPacket {
        packet_id: ControlPacketId::SendPasswordHash,
        data: ControlPayload::SendPasswordHash { password_hash: VarBytes(vec![9; 20]) },
    };
    let frame = PacketFrame::tamper_resistant(packet.clone());
    assert_eq!(frame.packet_index, 1);
    assert_eq!(frame.packet_count, 0);
    let bytes = frame.to_bytes().unwrap();
    assert_eq!(bytes[0], MAGIC_NUMBER);
    assert_eq!(bytes[1], 1);
    let back = PacketFrame::<ControlPacket>::from_bytes(&bytes).unwrap();
    assert_eq!(back.inner, packet);
    assert_eq!(back.checksum, frame.compute_checksum());
    assert_ne!(back.checksum, 0);
    assert!(back.validate_checksum());
}

#[test]
fn tampered_frame_fails_validation() {
    let packet = ControlPacket {
        packet_id: ControlPacketId::Kick,
        data: ControlPayload::Kick { client_id: 42 },
    };
    let bytes = PacketFrame::tamper_resistant(packet).to_bytes().unwrap();
    let mut tampered = bytes.clone();
    *tampered.last_mut().unwrap() ^= 1;
    let back = PacketFrame::<ControlPacket>::from_bytes(&tampered).unwrap();
    assert!(!back.validate_checksum());
}

#[test]
fn checksum_is_crc32_of_index_count_and_body() {
    // The CRC-32 (ISO-HDLC) check value: crc32("123456789") = 0xCBF43926.
    // A body of the seven bytes "3456789" after index '1' and count '2'.
    let packet = ControlPacket {
        packet_id: ControlPacketId::SendPasswordHash,
        data: ControlPayload::SendPasswordHash { password_hash: VarBytes(vec![]) },
    };
    let mut frame = PacketFrame::unprotected(packet);
    frame.packet_index = b'1';
    frame.packet_count = b'2';
    // Body bytes: id 3 as 16 bits (0x03, 0x00), then length 0: not the check string,
    // so compare with an independent CRC computation instead.
    let expected = crc::Crc::<u32>::new(&crc::CRC_32_ISO_HDLC).checksum(&[b'1', b'2', 0x03, 0x00, 0x00]);
    assert_eq!(frame.compute_checksum(), expected);
    assert_eq!(crc::Crc::<u32>::new(&crc::CRC_32_ISO_HDLC).checksum(b"123456789"), 0xCBF43926);
}

#[test]
fn frame_with_wrong_magic() {
    let packet = ControlPacket {
        packet_id: ControlPacketId::Ban,
        data: ControlPayload::Ban { client_id: 1 },
    };
    let mut frame = PacketFrame::unprotected(packet);
    frame.magic_number = 1;
    assert!(frame.to_bytes().is_err());
    let bytes = [1u8, 0, 0, 0, 0, 0, 1, 0, 2, 0, 1, 0, 0, 0, 0, 0, 0, 0];
    assert!(PacketFrame::<ControlPacket>::from_bytes(&bytes).is_err());
}

#[test]
fn replication_frame_from_packet() {
    let packet = ReplicationPacket { packet_id: PacketId::Flush, index: 3, data: Packet::Flush, sender: 0 };
    let frame: PacketFrame<ReplicationPacket> = packet.into();
    assert_eq!(frame.message_type, MessageType::Unprotected);
    let bytes = frame.to_bytes().unwrap();
    assert_eq!(&bytes[6..], &[1, 0, 2, 3]);
    let back = parse_replication_frame(&bytes);
    assert_eq!(back.inner.packet_id, PacketId::Flush);
    assert_eq!(back.inner.index, 3);
}

#[test]
fn checksum_covers_the_rewritten_body() {
    let data: [u8; 76] = [
        0xce, 0x01, 0xa0, 0x8b, 0x06, 0x87, 0x00, 0x01, 0x07, 0x00, 0x72, 0x03, 0x00, 0x00, 0x00,
        0xf4, 0x0a, 0x00, 0x00, 0x00, 0x00, 0x00, 0x00, 0x74, 0x54, 0x55, 0xfb, 0x00, 0xd4, 0x57,
        0x03, 0x11, 0x81, 0xbe, 0xa0, 0x14, 0x01, 0x48, 0xe1, 0x7a, 0x14, 0xf8, 0xe6, 0x46, 0x04,
        0x01, 0x00, 0x00, 0x00, 0x00, 0x00, 0xc0, 0xff, 0x02, 0x00, 0x00, 0x00, 0x00, 0x00, 0xc0,
        0xff, 0x02, 0x00, 0x00, 0xfe, 0xc0, 0x64, 0x0a, 0x02, 0xf9, 0x5c, 0xad, 0xfe, 0xe4, 0x22,
        0x03,
    ];
    let frame = parse_replication_frame(&data);
    let crc32 = crc::Crc::<u32>::new(&crc::CRC_32_ISO_HDLC);
    // The game's checksum covers the bytes as received.
    assert_eq!(crc32.checksum(&data[6..]), frame.checksum);
    // The computed one covers the body as this library writes it: the final
    // terminator comes out as 0, and the trailing partial byte is dropped.
    let mut w = BitWriter::new();
    frame.inner.encode(&mut w);
    let mut covered = vec![frame.packet_index, frame.packet_count];
    covered.extend_from_slice(&w.to_bytes()[..w.bits.len() / 8]);
    assert_eq!(frame.compute_checksum(), crc32.checksum(&covered));
    assert!(!frame.validate_checksum());
}
