use enet::codec::{deserialize_datagram, serialize_command};
use enet::config::HostConfig;
use enet::events::{HostOutputs, HostPollEvent, HostRecvEvent};
use enet::host::Host;
use enet::peer::{PeerID, PeerRecvEvent, PeerSendEvent};
use enet::protocol::{
    AcknowledgeCommand, Command, CommandInfo, ConnectCommand, DisconnectCommand, Packet,
    PacketFlags, PeerAddress, ProtocolCommand, SendReliableCommand,
};
use enet::time::PacketTime;

fn remote_addr() -> PeerAddress {
    PeerAddress { is_ipv6: false, ip: 0x7F000001, port: 41000 }
}

fn sample_connect() -> ConnectCommand {
    ConnectCommand {
        outgoing_peer_id: 7,
        incoming_session_id: 0xFF,
        outgoing_session_id: 0xFF,
        mtu: 1400,
        window_size: 4096,
        channel_count: 2,
        incoming_bandwidth: 0,
        outgoing_bandwidth: 0,
        packet_throttle_interval: 5000,
        packet_throttle_acceleration: 2,
        packet_throttle_deceleration: 2,
        connect_id: 0xDEADBEEF,
        data: 0,
    }
}

fn incoming_info(peer: u16, channel: u8, seq: u16, reliable: bool, sent: u64) -> CommandInfo {
    CommandInfo {
        addr: remote_addr(),
        flags: if reliable { PacketFlags::reliable() } else { PacketFlags::default() },
        internal_peer_id: PeerID(peer),
        peer_id: PeerID(peer),
        channel_id: channel,
        session_id: 0,
        reliable_sequence_number: seq,
        sent_time: sent,
    }
}

/// A host that has accepted one connection, as peer 0.
fn connected_host() -> Host {
    let mut host = Host::create(HostConfig::new(10).unwrap());
    let mut out = HostOutputs::new();
    let connect = Command {
        info: incoming_info(0, 0xFF, 1, true, 0),
        command: ProtocolCommand::Connect(sample_connect()),
    };
    let ev = host.handle_incoming_command(&connect, 0, &mut out).unwrap();
    assert_eq!(ev, HostPollEvent::Connect(PeerID(0)));
    host
}

#[test]
fn connect_handshake() {
    let mut host = Host::create(HostConfig::new(10).unwrap());
    let mut out = HostOutputs::new();
    let connect = Command {
        info: incoming_info(0, 0xFF, 1, true, 0),
        command: ProtocolCommand::Connect(sample_connect()),
    };
    let ev = host.handle_incoming_command(&connect, 0, &mut out).unwrap();

    // The new peer gets id 0 and the poll yields a connect event.
    assert_eq!(ev, HostPollEvent::Connect(PeerID(0)));
    let peer = host.peers[0].as_ref().unwrap();
    assert_eq!(peer.connect_id, 0xDEADBEEF);
    assert_eq!(peer.channels.len(), 2);
    assert_eq!(peer.incoming_reliable_sequence_number, 1);

    // The reply is a reliable VerifyConnect on the system channel with
    // sequence number 1, echoing the negotiated parameters.
    assert_eq!(out.datagrams.len(), 1);
    let reply = &out.datagrams[0];
    assert!(reply.info.flags.reliable);
    assert_eq!(reply.info.channel_id, 0xFF);
    assert_eq!(reply.info.reliable_sequence_number, 1);
    assert_eq!(reply.info.peer_id, PeerID(7));
    match &reply.command {
        ProtocolCommand::VerifyConnect(v) => {
            assert_eq!(v.connect_id, 0xDEADBEEF);
            assert_eq!(v.channel_count, 2);
            assert_eq!(v.mtu, 1400);
            assert_eq!(v.window_size, 4096);
            assert_eq!(v.outgoing_peer_id, 0);
            assert_eq!(v.incoming_session_id, 0);
            assert_eq!(v.outgoing_session_id, 0);
        },
        other => panic!("expected VerifyConnect, got {:?}", other),
    }

    // The reply is tracked for retransmission.
    assert_eq!(host.unack_packets.len(), 1);
    assert_eq!(host.unack_packets[0].peer_id, PeerID(0));
}

#[test]
fn reliable_echo() {
    let mut host = connected_host();
    let mut out = HostOutputs::new();

    let hello = vec![0x68, 0x65, 0x6C, 0x6C, 0x6F];
    let data = Command {
        info: incoming_info(0, 0, 1, true, 100),
        command: ProtocolCommand::SendReliable(SendReliableCommand { data: hello.clone() }),
    };
    let ev = host.handle_incoming_command(&data, 150, &mut out).unwrap();
    assert_eq!(ev, HostPollEvent::NoEvent);

    // The command is acknowledged: command id 1, echoing sequence number 1
    // and the low bits of the send time.
    assert_eq!(out.datagrams.len(), 1);
    match &out.datagrams[0].command {
        ProtocolCommand::Ack(a) => {
            assert_eq!(a.received_reliable_sequence_number, 1);
            assert_eq!(a.received_sent_time, PacketTime(100));
        },
        other => panic!("expected Ack, got {:?}", other),
    }
    assert_eq!(out.datagrams[0].info.channel_id, 0);

    // The payload reaches the peer's mailbox.
    assert_eq!(out.deliveries.len(), 1);
    assert_eq!(out.deliveries[0].peer_id, PeerID(0));
    match &out.deliveries[0].message.event {
        PeerRecvEvent::Recv(p) => {
            assert_eq!(p.data, hello);
            assert_eq!(p.channel, 0);
        },
        other => panic!("expected Recv, got {:?}", other),
    }

    // Echoing the same bytes back reliably produces a SendReliable with
    // sequence number 1 on channel 0.
    let mut out2 = HostOutputs::new();
    let request = HostRecvEvent {
        event: PeerSendEvent::Send(Packet {
            data: hello.clone(),
            channel: 0,
            flags: PacketFlags::reliable(),
        }),
        peer_id: PeerID(0),
        channel_id: 0,
    };
    host.handle_outgoing_command(&request, 200, &mut out2).unwrap();
    assert_eq!(out2.datagrams.len(), 1);
    let echo = &out2.datagrams[0];
    assert_eq!(echo.info.reliable_sequence_number, 1);
    assert_eq!(echo.info.channel_id, 0);
    assert_eq!(echo.info.peer_id, PeerID(7));
    match &echo.command {
        ProtocolCommand::SendReliable(s) => assert_eq!(s.data, hello),
        other => panic!("expected SendReliable, got {:?}", other),
    }
    assert_eq!(host.unack_packets.len(), 2);
}

#[test]
fn retransmit_then_timeout() {
    let mut host = connected_host();
    // Settle the handshake: the VerifyConnect entry is acked.
    let mut out = HostOutputs::new();
    let ack = Command {
        info: incoming_info(0, 0xFF, 1, false, 5),
        command: ProtocolCommand::Ack(AcknowledgeCommand {
            received_reliable_sequence_number: 1,
            received_sent_time: PacketTime(0),
        }),
    };
    host.handle_incoming_command(&ack, 10, &mut out).unwrap();
    assert!(host.unack_packets.is_empty());

    // The host sends reliable data that is never acknowledged.
    let request = HostRecvEvent {
        event: PeerSendEvent::Send(Packet {
            data: vec![1, 2, 3],
            channel: 0,
            flags: PacketFlags::reliable(),
        }),
        peer_id: PeerID(0),
        channel_id: 0,
    };
    host.handle_outgoing_command(&request, 10, &mut out).unwrap();
    assert_eq!(host.unack_packets.len(), 1);

    // Five sweeps, one past each timeout, each retransmit the command.
    let mut now = 10;
    for retry in 1..=5u32 {
        now += 1001;
        let mut tick_out = HostOutputs::new();
        host.tick_timers(now, &mut tick_out);
        assert!(host.peers[0].is_some(), "peer alive after retry {retry}");
        let entry = host
            .unack_packets
            .iter()
            .find(|e| matches!(e.command.command, ProtocolCommand::SendReliable(_)))
            .expect("data entry still in flight");
        assert_eq!(entry.retries, retry as usize);
        assert!(tick_out
            .datagrams
            .iter()
            .any(|d| matches!(d.command, ProtocolCommand::SendReliable(_))));
    }

    // The sixth sweep finds the retries exhausted and disconnects.
    now += 1001;
    let mut tick_out = HostOutputs::new();
    host.tick_timers(now, &mut tick_out);
    assert!(host.peers[0].is_none());
    assert!(tick_out
        .deliveries
        .iter()
        .any(|d| d.peer_id == PeerID(0) && d.message.event == PeerRecvEvent::Disconnect));
}

#[test]
fn out_of_order_reliable_drop() {
    let mut host = connected_host();
    let mut out = HostOutputs::new();

    // Sequence 1 is accepted.
    let first = Command {
        info: incoming_info(0, 0, 1, true, 0),
        command: ProtocolCommand::SendReliable(SendReliableCommand { data: vec![1] }),
    };
    host.handle_incoming_command(&first, 1, &mut out).unwrap();
    assert_eq!(out.deliveries.len(), 1);

    // Sequence 3 while expecting 2 is dropped (but still acknowledged).
    let third = Command {
        info: incoming_info(0, 0, 3, true, 0),
        command: ProtocolCommand::SendReliable(SendReliableCommand { data: vec![3] }),
    };
    let r = host.handle_incoming_command(&third, 2, &mut out);
    assert!(r.is_err());
    assert_eq!(out.deliveries.len(), 1);
    assert_eq!(
        host.peers[0].as_ref().unwrap().channels[0].incoming_reliable_sequence_number,
        1
    );

    // The retransmitted sequence 2 is accepted and advances the counter.
    let second = Command {
        info: incoming_info(0, 0, 2, true, 0),
        command: ProtocolCommand::SendReliable(SendReliableCommand { data: vec![2] }),
    };
    host.handle_incoming_command(&second, 3, &mut out).unwrap();
    assert_eq!(out.deliveries.len(), 2);
    assert_eq!(
        host.peers[0].as_ref().unwrap().channels[0].incoming_reliable_sequence_number,
        2
    );

    // A further retransmit of sequence 3 is then accepted.
    host.handle_incoming_command(&third, 4, &mut out).unwrap();
    assert_eq!(out.deliveries.len(), 3);
    assert_eq!(
        host.peers[0].as_ref().unwrap().channels[0].incoming_reliable_sequence_number,
        3
    );
}

#[test]
fn ping_keep_alive() {
    let mut host = connected_host();

    // Quiet for more than 500 ms: the sweep pings on the system channel.
    let mut tick_out = HostOutputs::new();
    host.tick_timers(501, &mut tick_out);
    let ping = tick_out
        .datagrams
        .iter()
        .find(|d| matches!(d.command, ProtocolCommand::Ping(_)))
        .expect("keep-alive ping sent");
    assert_eq!(ping.info.channel_id, 0xFF);
    assert!(ping.info.flags.reliable);
    assert_eq!(ping.info.reliable_sequence_number, 2);
    assert_eq!(host.peers[0].as_ref().unwrap().last_msg_time, 501);

    // The remote acks the ping; the activity time advances again.
    let mut out = HostOutputs::new();
    let ack = Command {
        info: incoming_info(0, 0xFF, 2, false, 501),
        command: ProtocolCommand::Ack(AcknowledgeCommand {
            received_reliable_sequence_number: 2,
            received_sent_time: PacketTime(501),
        }),
    };
    host.handle_incoming_command(&ack, 502, &mut out).unwrap();
    assert_eq!(host.peers[0].as_ref().unwrap().last_msg_time, 502);
    // The ping's in-flight entry is settled.
    assert!(!host
        .unack_packets
        .iter()
        .any(|e| matches!(e.command.command, ProtocolCommand::Ping(_))));
}

#[test]
fn graceful_disconnect() {
    // Host B asks to disconnect its peer 0 (host A on the other side).
    let mut host_b = connected_host();
    let mut out_b = HostOutputs::new();
    let request = HostRecvEvent {
        event: PeerSendEvent::Disconnect,
        peer_id: PeerID(0),
        channel_id: 0xFF,
    };
    host_b.handle_outgoing_command(&request, 10, &mut out_b).unwrap();
    assert_eq!(out_b.datagrams.len(), 1);
    let notice = &out_b.datagrams[0];
    assert!(notice.info.flags.reliable);
    assert_eq!(notice.info.channel_id, 0xFF);
    assert_eq!(
        notice.command,
        ProtocolCommand::Disconnect(DisconnectCommand { data: 0 })
    );

    // Host A receives the notice: it removes the peer, emits a disconnect
    // event, and closes the peer's mailbox.
    let mut host_a = connected_host();
    let mut out_a = HostOutputs::new();
    let incoming = Command {
        info: incoming_info(0, 0xFF, 2, true, 10),
        command: ProtocolCommand::Disconnect(DisconnectCommand { data: 0 }),
    };
    let ev = host_a.handle_incoming_command(&incoming, 20, &mut out_a).unwrap();
    assert_eq!(ev, HostPollEvent::Disconnect(PeerID(0)));
    assert!(host_a.peers[0].is_none());
    assert!(out_a
        .deliveries
        .iter()
        .any(|d| d.peer_id == PeerID(0) && d.message.event == PeerRecvEvent::Disconnect));
    // The reliable notice was acknowledged before the peer was dropped.
    assert!(out_a
        .datagrams
        .iter()
        .any(|d| matches!(d.command, ProtocolCommand::Ack(_))));
}

#[test]
fn unknown_peer_is_rejected() {
    let mut host = Host::create(HostConfig::new(4).unwrap());
    let mut out = HostOutputs::new();
    let data = Command {
        info: incoming_info(9, 0, 1, true, 0),
        command: ProtocolCommand::SendReliable(SendReliableCommand { data: vec![1] }),
    };
    let r = host.handle_incoming_command(&data, 1, &mut out);
    assert_eq!(r, Err(enet::error::ENetError::InvalidPeerId(PeerID(9))));
}

#[test]
fn unknown_channel_is_rejected() {
    let mut host = connected_host();
    let mut out = HostOutputs::new();
    // Channel 5 was never allocated (the clamp gave the peer 2 channels).
    let data = Command {
        info: incoming_info(0, 5, 1, true, 0),
        command: ProtocolCommand::SendReliable(SendReliableCommand { data: vec![1] }),
    };
    let r = host.handle_incoming_command(&data, 1, &mut out);
    assert_eq!(r, Err(enet::error::ENetError::InvalidChannelId(5)));
}

#[test]
fn channel_count_is_clamped_to_config() {
    let mut host = Host::create(HostConfig::new(3).unwrap());
    let mut out = HostOutputs::new();
    let mut c = sample_connect();
    c.channel_count = 200;
    let connect = Command {
        info: incoming_info(0, 0xFF, 1, true, 0),
        command: ProtocolCommand::Connect(c),
    };
    host.handle_incoming_command(&connect, 0, &mut out).unwrap();
    assert_eq!(host.peers[0].as_ref().unwrap().channels.len(), 3);
    match &out.datagrams[0].command {
        ProtocolCommand::VerifyConnect(v) => assert_eq!(v.channel_count, 3),
        other => panic!("expected VerifyConnect, got {:?}", other),
    }
}

#[test]
fn acked_entry_leaves_the_table() {
    let mut host = connected_host();
    assert_eq!(host.unack_packets.len(), 1);
    let mut out = HostOutputs::new();
    let ack = Command {
        info: incoming_info(0, 0xFF, 1, false, 0),
        command: ProtocolCommand::Ack(AcknowledgeCommand {
            received_reliable_sequence_number: 1,
            received_sent_time: PacketTime(0),
        }),
    };
    host.handle_incoming_command(&ack, 1, &mut out).unwrap();
    assert!(host.unack_packets.is_empty());
    // An ack for an unknown key is ignored without effect.
    let stray = Command {
        info: incoming_info(0, 3, 1, false, 0),
        command: ProtocolCommand::Ack(AcknowledgeCommand {
            received_reliable_sequence_number: 42,
            received_sent_time: PacketTime(0),
        }),
    };
    host.handle_incoming_command(&stray, 2, &mut out).unwrap();
    assert!(host.unack_packets.is_empty());
}

#[test]
fn unreliable_sequence_is_gated_per_channel() {
    let mut host = connected_host();
    let mut out = HostOutputs::new();
    let mk = |seq: u16| Command {
        info: incoming_info(0, 1, 1, false, 0),
        command: ProtocolCommand::SendUnreliable(enet::protocol::SendUnreliableCommand {
            unreliable_sequence_number: seq,
            data: vec![seq as u8],
        }),
    };
    // Expected successor is 1.
    host.handle_incoming_command(&mk(1), 1, &mut out).unwrap();
    assert_eq!(out.deliveries.len(), 1);
    // A stale or duplicate number is dropped.
    assert!(host.handle_incoming_command(&mk(1), 2, &mut out).is_err());
    assert_eq!(out.deliveries.len(), 1);
    host.handle_incoming_command(&mk(2), 3, &mut out).unwrap();
    assert_eq!(out.deliveries.len(), 2);
}

#[test]
fn broadcast_fans_out_to_other_peers() {
    let mut host = Host::create(HostConfig::new(10).unwrap());
    let mut out = HostOutputs::new();
    for _ in 0..3 {
        let connect = Command {
            info: incoming_info(0, 0xFF, 1, true, 0),
            command: ProtocolCommand::Connect(sample_connect()),
        };
        host.handle_incoming_command(&connect, 0, &mut out).unwrap();
    }
    let mut out2 = HostOutputs::new();
    let request = HostRecvEvent {
        event: PeerSendEvent::Broadcast(Packet {
            data: vec![9],
            channel: 0,
            flags: PacketFlags::reliable(),
        }),
        peer_id: PeerID(0),
        channel_id: 0,
    };
    host.handle_outgoing_command(&request, 5, &mut out2).unwrap();
    // One send per peer other than the requester.
    assert_eq!(out2.datagrams.len(), 2);
    assert!(out2.datagrams.iter().all(|d| matches!(
        d.command,
        ProtocolCommand::SendReliable(_)
    )));
}

#[test]
fn duplicate_keys_are_both_settled_by_one_ack() {
    let mut host = connected_host();
    let mut out = HostOutputs::new();
    // Two reliable commands carrying the same (peer, channel, sequence)
    // key, handed straight to the send path.
    let cmd = Command {
        info: incoming_info(0, 2, 40, true, 0),
        command: ProtocolCommand::SendReliable(SendReliableCommand { data: vec![1] }),
    };
    host.send(cmd.clone(), &mut out);
    host.send(cmd, &mut out);
    assert_eq!(host.unack_packets.len(), 3); // the handshake entry and both copies
    let ack = Command {
        info: incoming_info(0, 2, 1, false, 0),
        command: ProtocolCommand::Ack(AcknowledgeCommand {
            received_reliable_sequence_number: 40,
            received_sent_time: PacketTime(0),
        }),
    };
    host.handle_incoming_command(&ack, 1, &mut out).unwrap();
    assert_eq!(host.unack_packets.len(), 1);
}

#[test]
fn largest_payload_encodes_and_oversize_does_not() {
    let info = incoming_info(0, 0, 1, true, 0);
    let largest = Command {
        info,
        command: ProtocolCommand::SendReliable(SendReliableCommand { data: vec![7; 0xFFFF] }),
    };
    let bytes = serialize_command(&largest).unwrap();
    let back = deserialize_datagram(largest.info.addr, &bytes).unwrap();
    assert_eq!(back[0].command, largest.command);
}

#[test]
fn wire_level_handshake() {
    // The client's Connect, as it would arrive on the wire.
    let connect = Command {
        info: incoming_info(0, 0xFF, 1, true, 0),
        command: ProtocolCommand::Connect(sample_connect()),
    };
    let datagram = serialize_command(&connect).unwrap();

    // The server decodes it and accepts.
    let decoded = deserialize_datagram(remote_addr(), &datagram).unwrap();
    assert_eq!(decoded.len(), 1);
    let mut host = Host::create(HostConfig::new(10).unwrap());
    let mut out = HostOutputs::new();
    let ev = host.handle_incoming_command(&decoded[0], 0, &mut out).unwrap();
    assert_eq!(ev, HostPollEvent::Connect(PeerID(0)));

    // The VerifyConnect reply survives its own trip over the wire.
    let reply_bytes = serialize_command(&out.datagrams[0]).unwrap();
    let reply = deserialize_datagram(remote_addr(), &reply_bytes).unwrap();
    assert_eq!(reply.len(), 1);
    assert_eq!(reply[0].command, out.datagrams[0].command);
    assert_eq!(reply[0].info.reliable_sequence_number, 1);
    assert_eq!(reply[0].info.channel_id, 0xFF);
    assert!(reply[0].info.flags.reliable);
}

#[test]
fn broadcast_request_has_no_single_command() {
    let mut host = connected_host();
    let request = HostRecvEvent {
        event: PeerSendEvent::Broadcast(Packet {
            data: vec![1],
            channel: 0,
            flags: PacketFlags::default(),
        }),
        peer_id: PeerID(0),
        channel_id: 0,
    };
    assert_eq!(
        request.to_command(&mut host, 0),
        Err(enet::error::ENetError::UnexpectedPacketType)
    );
}

#[test]
fn unreliable_send_keeps_the_reliable_counter() {
    let mut host = connected_host();
    let mut out = HostOutputs::new();

    // Three reliable sends bring the channel's reliable counter to 3.
    for expected_seq in 1..=3u16 {
        let request = HostRecvEvent {
            event: PeerSendEvent::Send(Packet {
                data: vec![1],
                channel: 0,
                flags: PacketFlags::reliable(),
            }),
            peer_id: PeerID(0),
            channel_id: 0,
        };
        host.handle_outgoing_command(&request, 5, &mut out).unwrap();
        assert_eq!(
            out.datagrams.last().unwrap().info.reliable_sequence_number,
            expected_seq
        );
    }

    // An unreliable send forces only the command's wire field to 1 ...
    let unreliable = HostRecvEvent {
        event: PeerSendEvent::Send(Packet {
            data: vec![2],
            channel: 0,
            flags: PacketFlags::default(),
        }),
        peer_id: PeerID(0),
        channel_id: 0,
    };
    host.handle_outgoing_command(&unreliable, 6, &mut out).unwrap();
    let d = out.datagrams.last().unwrap();
    assert_eq!(d.info.reliable_sequence_number, 1);
    match &d.command {
        ProtocolCommand::SendUnreliable(u) => assert_eq!(u.unreliable_sequence_number, 1),
        other => panic!("expected SendUnreliable, got {:?}", other),
    }
    assert_eq!(
        host.peers[0].as_ref().unwrap().channels[0].outgoing_reliable_sequence_number,
        3
    );

    // ... so the reliable stream continues at 4, not at 2.
    let request = HostRecvEvent {
        event: PeerSendEvent::Send(Packet {
            data: vec![3],
            channel: 0,
            flags: PacketFlags::reliable(),
        }),
        peer_id: PeerID(0),
        channel_id: 0,
    };
    host.handle_outgoing_command(&request, 7, &mut out).unwrap();
    assert_eq!(out.datagrams.last().unwrap().info.reliable_sequence_number, 4);
}

#[test]
fn send_on_missing_or_system_channel_fails() {
    let mut host = connected_host();
    // The peer has channels 0 and 1; a send naming channel 7 fails, and
    // the reserved system channel is no application channel either.
    for channel_id in [7u16, 0xFF] {
        let request = HostRecvEvent {
            event: PeerSendEvent::Send(Packet {
                data: vec![1],
                channel: channel_id,
                flags: PacketFlags::reliable(),
            }),
            peer_id: PeerID(0),
            channel_id,
        };
        let mut out = HostOutputs::new();
        let r = host.handle_outgoing_command(&request, 5, &mut out);
        assert_eq!(r, Err(enet::error::ENetError::InvalidChannelId(channel_id)));
        assert!(out.datagrams.is_empty());
    }
}

#[test]
fn host_level_broadcast_reaches_every_peer() {
    let mut host = Host::create(HostConfig::new(10).unwrap());
    let mut out = HostOutputs::new();
    for _ in 0..3 {
        let connect = Command {
            info: incoming_info(0, 0xFF, 1, true, 0),
            command: ProtocolCommand::Connect(sample_connect()),
        };
        host.handle_incoming_command(&connect, 0, &mut out).unwrap();
    }
    let mut out2 = HostOutputs::new();
    let request = HostRecvEvent {
        event: PeerSendEvent::Send(Packet {
            data: vec![5],
            channel: 1,
            flags: PacketFlags::default(),
        }),
        peer_id: PeerID(0),
        channel_id: 1,
    };
    host.broadcast(&request, 7, &mut out2).unwrap();
    // One datagram per registered peer, the requester included.
    assert_eq!(out2.datagrams.len(), 3);
    for d in &out2.datagrams {
        assert_eq!(d.info.channel_id, 1);
        match &d.command {
            ProtocolCommand::SendUnreliable(u) => assert_eq!(u.data, vec![5]),
            other => panic!("expected SendUnreliable, got {:?}", other),
        }
    }
    // With nobody registered, a fan-out succeeds with nothing to do.
    let mut empty = Host::create(HostConfig::new(2).unwrap());
    let mut out3 = HostOutputs::new();
    empty.broadcast(&request, 8, &mut out3).unwrap();
    assert!(out3.datagrams.is_empty());
}

#[test]
fn non_data_broadcast_is_refused() {
    let mut host = connected_host();
    let mut out = HostOutputs::new();
    let request = HostRecvEvent {
        event: PeerSendEvent::Ping,
        peer_id: PeerID(0),
        channel_id: 0xFF,
    };
    assert_eq!(
        host.broadcast(&request, 5, &mut out),
        Err(enet::error::ENetError::UnexpectedPacketType)
    );
}
