use enet::codec::{deserialize_datagram, serialize_command};
use enet::error::{ENetError, EncodingError};
use enet::peer::PeerID;
use enet::protocol::{
    AcknowledgeCommand, BandwidthLimitCommand, Command, CommandInfo, ConnectCommand,
    DisconnectCommand, PacketFlags, PeerAddress, PingCommand, ProtocolCommand,
    SendFragmentCommand, SendReliableCommand, SendUnreliableCommand,
    SendUnreliableFragmentCommand, SendUnsequencedCommand, ThrottleConfigureCommand,
    VerifyConnectCommand,
};
use enet::time::PacketTime;

fn test_addr() -> PeerAddress {
    PeerAddress { is_ipv6: false, ip: 0x7F000001, port: 9000 }
}

fn info(flags: PacketFlags, peer: u16, channel: u8, seq: u16, sent: u64) -> CommandInfo {
    CommandInfo {
        addr: test_addr(),
        flags,
        internal_peer_id: PeerID(peer),
        peer_id: PeerID(peer),
        channel_id: channel,
        session_id: 0,
        reliable_sequence_number: seq,
        sent_time: sent,
    }
}

fn round_trip(cmd: Command) -> Command {
    let bytes = serialize_command(&cmd).expect("encodable");
    let parsed = deserialize_datagram(cmd.info.addr, &bytes).expect("parsable");
    assert_eq!(parsed.len(), 1);
    parsed.into_iter().next().unwrap()
}

#[test]
fn send_reliable_bytes_are_exact() {
    let cmd = Command {
        info: info(PacketFlags::reliable(), 5, 0, 1, 0x1234),
        command: ProtocolCommand::SendReliable(SendReliableCommand { data: vec![1, 2, 3] }),
    };
    let bytes = serialize_command(&cmd).unwrap();
    assert_eq!(
        bytes,
        vec![0x80, 0x05, 0x12, 0x34, 0x86, 0x00, 0x00, 0x01, 0x00, 0x03, 1, 2, 3]
    );
}

#[test]
fn ack_bytes_are_exact() {
    let cmd = Command {
        info: info(PacketFlags::default(), 0xABC, 7, 9, 0),
        command: ProtocolCommand::Ack(AcknowledgeCommand {
            received_reliable_sequence_number: 0x0102,
            received_sent_time: PacketTime(0x0304),
        }),
    };
    let bytes = serialize_command(&cmd).unwrap();
    assert_eq!(
        bytes,
        vec![0x8A, 0xBC, 0x00, 0x00, 0x01, 0x07, 0x00, 0x09, 0x01, 0x02, 0x03, 0x04]
    );
}

#[test]
fn header_without_send_time_is_two_bytes() {
    let mut flags = PacketFlags::default();
    flags.send_time = false;
    let cmd = Command {
        info: info(flags, 1, 0, 0, 0x9999),
        command: ProtocolCommand::Ping(PingCommand {}),
    };
    let bytes = serialize_command(&cmd).unwrap();
    assert_eq!(bytes, vec![0x00, 0x01, 0x05, 0x00, 0x00, 0x00]);
}

#[test]
fn connect_round_trips() {
    let cmd = Command {
        info: info(PacketFlags::reliable(), 1, 0xFF, 1, 77),
        command: ProtocolCommand::Connect(ConnectCommand {
            outgoing_peer_id: 3,
            incoming_session_id: 0xFF,
            outgoing_session_id: 2,
            mtu: 1400,
            window_size: 4096,
            channel_count: 2,
            incoming_bandwidth: 0,
            outgoing_bandwidth: 0,
            packet_throttle_interval: 5000,
            packet_throttle_acceleration: 2,
            packet_throttle_deceleration: 2,
            connect_id: 0xDEADBEEF,
            data: 42,
        }),
    };
    let back = round_trip(cmd.clone());
    assert_eq!(back.command, cmd.command);
    assert_eq!(back.info.reliable_sequence_number, 1);
    assert_eq!(back.info.channel_id, 0xFF);
    assert!(back.info.flags.reliable);
}

#[test]
fn verify_connect_round_trips() {
    let cmd = Command {
        info: info(PacketFlags::reliable(), 2, 0xFF, 1, 0),
        command: ProtocolCommand::VerifyConnect(VerifyConnectCommand {
            outgoing_peer_id: 0,
            incoming_session_id: 0,
            outgoing_session_id: 0,
            mtu: 1400,
            window_size: 4096,
            channel_count: 2,
            incoming_bandwidth: 1000,
            outgoing_bandwidth: 2000,
            packet_throttle_interval: 5000,
            packet_throttle_acceleration: 2,
            packet_throttle_deceleration: 2,
            connect_id: 0xDEADBEEF,
        }),
    };
    assert_eq!(round_trip(cmd.clone()).command, cmd.command);
}

#[test]
fn every_fixed_variant_round_trips() {
    let variants = vec![
        ProtocolCommand::NoCommand,
        ProtocolCommand::Ack(AcknowledgeCommand {
            received_reliable_sequence_number: 4,
            received_sent_time: PacketTime(99),
        }),
        ProtocolCommand::Disconnect(DisconnectCommand { data: 17 }),
        ProtocolCommand::Ping(PingCommand {}),
        ProtocolCommand::BandwidthLimit(BandwidthLimitCommand {
            incoming_bandwidth: 1,
            outgoing_bandwidth: 2,
        }),
        ProtocolCommand::ThrottleConfigure(ThrottleConfigureCommand {
            packet_throttle_interval: 3,
            packet_throttle_acceleration: 4,
            packet_throttle_deceleration: 5,
        }),
        ProtocolCommand::Count,
    ];
    for v in variants {
        let cmd = Command { info: info(PacketFlags::default(), 9, 3, 21, 500), command: v };
        assert_eq!(round_trip(cmd.clone()).command, cmd.command);
    }
}

#[test]
fn every_data_variant_round_trips() {
    let data = vec![0x68, 0x65, 0x6C, 0x6C, 0x6F];
    let variants = vec![
        ProtocolCommand::SendReliable(SendReliableCommand { data: data.clone() }),
        ProtocolCommand::SendUnreliable(SendUnreliableCommand {
            unreliable_sequence_number: 11,
            data: data.clone(),
        }),
        ProtocolCommand::SendUnsequenced(SendUnsequencedCommand {
            unsequenced_group: 8,
            data: data.clone(),
        }),
        ProtocolCommand::SendFragment(SendFragmentCommand {
            start_sequence_number: 1,
            data_length: 5,
            fragment_count: 2,
            fragment_number: 1,
            total_length: 10,
            fragment_offset: 5,
            data: data.clone(),
        }),
        ProtocolCommand::SendUnreliableFragment(SendUnreliableFragmentCommand {
            start_sequence_number: 1,
            data_length: 5,
            fragment_count: 2,
            fragment_number: 0,
            total_length: 10,
            fragment_offset: 0,
            data: data.clone(),
        }),
    ];
    for v in variants {
        let cmd = Command { info: info(PacketFlags::reliable(), 1, 0, 2, 123), command: v };
        assert_eq!(round_trip(cmd.clone()).command, cmd.command);
    }
}

#[test]
fn empty_payload_round_trips() {
    let cmd = Command {
        info: info(PacketFlags::reliable(), 0, 0, 1, 0),
        command: ProtocolCommand::SendReliable(SendReliableCommand { data: vec![] }),
    };
    assert_eq!(round_trip(cmd.clone()).command, cmd.command);
}

#[test]
fn oversized_payload_is_refused() {
    let cmd = Command {
        info: info(PacketFlags::reliable(), 0, 0, 1, 0),
        command: ProtocolCommand::SendReliable(SendReliableCommand { data: vec![0; 0x10000] }),
    };
    assert_eq!(
        serialize_command(&cmd),
        Err(ENetError::Encoding(EncodingError::IntConversion))
    );
}

#[test]
fn short_datagram_is_not_enough_data() {
    assert_eq!(
        deserialize_datagram(test_addr(), &vec![0x80]),
        Err(ENetError::Encoding(EncodingError::NotEnoughData(1, 2)))
    );
    // send-time flag set but the timestamp is missing
    assert_eq!(
        deserialize_datagram(test_addr(), &vec![0x80, 0x00, 0x12]),
        Err(ENetError::Encoding(EncodingError::NotEnoughData(1, 2)))
    );
}

#[test]
fn truncated_payload_is_not_enough_data() {
    // header + command header announcing an ack, but no ack payload
    let bytes = vec![0x00, 0x01, 0x01, 0x00, 0x00, 0x01];
    assert_eq!(
        deserialize_datagram(test_addr(), &bytes),
        Err(ENetError::Encoding(EncodingError::NotEnoughData(0, 4)))
    );
}

#[test]
fn unknown_command_id_is_invalid_packet() {
    // command byte 0x0E: id 14 is not a command
    let bytes = vec![0x00, 0x01, 0x0E, 0x00, 0x00, 0x00];
    assert_eq!(deserialize_datagram(test_addr(), &bytes), Err(ENetError::InvalidPacket));
}

#[test]
fn multi_command_datagram_parses_in_order() {
    // One protocol header, then three commands back to back: Ping, Ack,
    // SendReliable "hi".
    let mut bytes = vec![0x90, 0x02, 0x00, 0x64];
    bytes.extend_from_slice(&[0x05, 0x00, 0x00, 0x07]); // Ping, channel 0, seq 7
    bytes.extend_from_slice(&[0x01, 0x01, 0x00, 0x08, 0x00, 0x03, 0x00, 0x09]); // Ack
    bytes.extend_from_slice(&[0x86, 0x02, 0x00, 0x01, 0x00, 0x02, 0x68, 0x69]); // SendReliable
    let cmds = deserialize_datagram(test_addr(), &bytes).unwrap();
    assert_eq!(cmds.len(), 3);
    assert_eq!(cmds[0].command, ProtocolCommand::Ping(PingCommand {}));
    assert_eq!(cmds[0].info.reliable_sequence_number, 7);
    assert_eq!(cmds[0].info.session_id, 1);
    assert_eq!(cmds[0].info.peer_id, PeerID(2));
    assert_eq!(cmds[0].info.sent_time, 0x64);
    assert!(cmds[0].info.flags.send_time);
    assert!(!cmds[0].info.flags.is_compressed);
    assert_eq!(
        cmds[1].command,
        ProtocolCommand::Ack(AcknowledgeCommand {
            received_reliable_sequence_number: 3,
            received_sent_time: PacketTime(9),
        })
    );
    assert_eq!(cmds[1].info.channel_id, 1);
    assert_eq!(
        cmds[2].command,
        ProtocolCommand::SendReliable(SendReliableCommand { data: vec![0x68, 0x69] })
    );
    assert!(cmds[2].info.flags.reliable);
    assert_eq!(cmds[2].info.channel_id, 2);
}

#[test]
fn empty_command_list_parses_to_nothing() {
    let cmds = deserialize_datagram(test_addr(), &vec![0x00, 0x03]).unwrap();
    assert!(cmds.is_empty());
}
