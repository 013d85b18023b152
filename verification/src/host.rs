use vstd::prelude::*;
use crate::channel::{Channel, ChannelID};
use crate::config::HostConfig;
use crate::error::ENetError;
use crate::events::{Delivery, HostOutputs, HostPollEvent, HostRecvEvent, HostSendEvent};
use crate::peer::{OutgoingPeerID, PeerID, PeerInfo, PeerRecvEvent, PeerSendEvent};
use crate::protocol::{
    AcknowledgeCommand, Command, CommandInfo, ConnectCommand, DisconnectCommand, Packet,
    PacketFlags, PeerAddress, PingCommand, ProtocolCommand, SendReliableCommand,
    SendUnreliableCommand, VerifyConnectCommand,
};
use crate::time::PacketTime;

verus! {

/// A reliable command in flight: the command as it was sent, when it was
/// last sent (milliseconds since the host epoch), and how often it has been
/// retransmitted.
#[derive(Debug, Clone, PartialEq, Eq)]
pub struct UnAckPacket {
    pub command: Command,
    pub last_sent: u64,
    pub retries: usize,
    pub peer_id: PeerID,
}

impl UnAckPacket {
    /// Record a freshly sent reliable command: never retried, last sent at
    /// its own send time.
    pub fn new(command: Command) -> (r: Self)
        ensures
            r == (UnAckPacket {
                last_sent: command.info.sent_time,
                peer_id: command.info.internal_peer_id,
                retries: 0,
                command,
            }),
    {
        UnAckPacket {
            last_sent: command.info.sent_time,
            peer_id: command.info.internal_peer_id,
            retries: 0,
            command,
        }
    }
}

/// The key identifying an in-flight reliable command: peer, channel,
/// reliable sequence number.
pub open spec fn spec_unack_key(e: UnAckPacket) -> (u16, u16, u16) {
    (e.peer_id.0, e.command.info.channel_id as u16, e.command.info.reliable_sequence_number)
}

/// A 16-bit sequence number's successor, wrapping modulo 2^16.
pub open spec fn seq_next(v: u16) -> u16 {
    if v == 0xFFFF {
        0
    } else {
        (v + 1) as u16
    }
}

/// A 16-bit sequence number's successor, wrapping modulo 2^16.
pub fn wrapping_inc(v: u16) -> (r: u16)
    ensures
        r == seq_next(v),
{
    if v == 0xFFFF {
        0
    } else {
        v + 1
    }
}

/// The host state machine: every registered peer (indexed by its
/// `PeerID`), the configuration, the id the next accepted peer receives,
/// and the table of unacknowledged reliable commands. All I/O is outside:
/// the host is driven with decoded commands, application requests and the
/// current time, and fills a `HostOutputs` with what should be sent and
/// delivered.
#[derive(Debug)]
pub struct Host {
    /// Peer slots; the slot index is the peer's id. A disconnected peer
    /// leaves `None` behind.
    pub peers: Vec<Option<PeerInfo>>,
    pub config: HostConfig,
    pub next_peer: u16,
    pub unack_packets: Vec<UnAckPacket>,
}

impl Host {
    /// Every peer slot carries the id it is indexed under, and the slots
    /// are exactly the ids handed out so far.
    pub open spec fn wf(self) -> bool {
        &&& self.peers@.len() == self.next_peer as int
        &&& forall|i: int|
            0 <= i < self.peers@.len() ==> ((#[trigger] self.peers@[i]) matches Some(p) ==> p.incoming_peer_id == PeerID(i as u16))
    }

    /// The peer registered under `id`, if any.
    pub open spec fn spec_peer(self, id: PeerID) -> Option<PeerInfo> {
        if (id.0 as int) < self.peers@.len() {
            self.peers@[id.0 as int]
        } else {
            None
        }
    }

    /// Whether a peer is registered under `id`.
    pub open spec fn spec_has_peer(self, id: PeerID) -> bool {
        self.spec_peer(id) is Some
    }

    /// Whether the unacked table holds an entry under this key.
    pub open spec fn spec_has_unack(self, peer: PeerID, channel: u16, seq: u16) -> bool {
        exists|k: int|
            0 <= k < self.unack_packets@.len() && spec_unack_key(
                #[trigger] self.unack_packets@[k],
            ) == (peer.0, channel, seq)
    }

    /// A fresh host: no peers, nothing in flight.
    pub fn create(config: HostConfig) -> (r: Host)
        ensures
            r.wf(),
            r.config == config,
            r.peers@.len() == 0,
            r.next_peer == 0,
            r.unack_packets@.len() == 0,
    {
        Host { peers: Vec::new(), config, next_peer: 0, unack_packets: Vec::new() }
    }
}

} // verus!
verus! {

/// The session id chosen at connect time from a wire-supplied 8-bit field:
/// the field itself unless it is the sentinel 0xFF, in which case `own` is
/// taken; a value that collides with `own` is bumped by one and reduced to
/// 2 bits.
pub open spec fn spec_session_select(wire: u8, own: u16) -> u16 {
    let v: u16 = if wire == 0xFF {
        own
    } else {
        wire as u16
    };
    if v == own {
        (seq_next(v) & 3) as u16
    } else {
        v
    }
}

/// How many channels an accepted peer gets: the requested count, clamped
/// to the host's configured cap.
pub open spec fn spec_clamped_channels(requested: u32, cap: usize) -> int {
    if (requested as int) < (cap as int) {
        requested as int
    } else {
        cap as int
    }
}

/// The `VerifyConnect` reply to an accepted `Connect`: the negotiated
/// parameters echoed back, the host's own bandwidth limits, and zeroed
/// session id fields.
pub open spec fn spec_verify_reply(cfg: HostConfig, connect: ConnectCommand, pid: u16) -> VerifyConnectCommand {
    VerifyConnectCommand {
        outgoing_peer_id: pid,
        incoming_session_id: 0,
        outgoing_session_id: 0,
        mtu: connect.mtu,
        window_size: connect.window_size,
        channel_count: spec_clamped_channels(connect.channel_count, cfg.peer_count) as u32,
        incoming_bandwidth: match cfg.incoming_bandwidth {
            Some(b) => b,
            None => 0,
        },
        outgoing_bandwidth: match cfg.outgoing_bandwidth {
            Some(b) => b,
            None => 0,
        },
        packet_throttle_interval: connect.packet_throttle_interval,
        packet_throttle_acceleration: connect.packet_throttle_acceleration,
        packet_throttle_deceleration: connect.packet_throttle_deceleration,
        connect_id: connect.connect_id,
    }
}

/// The state a freshly accepted peer starts in.
pub open spec fn spec_fresh_peer(
    p: PeerInfo,
    addr: PeerAddress,
    connect: ConnectCommand,
    pid: u16,
    cap: usize,
    now: u64,
) -> bool {
    &&& p.outgoing_peer_id == OutgoingPeerID(connect.outgoing_peer_id)
    &&& p.incoming_peer_id == PeerID(pid)
    &&& p.connect_id == connect.connect_id
    &&& p.outgoing_session_id == spec_session_select(
        connect.incoming_session_id,
        connect.outgoing_peer_id,
    )
    &&& p.incoming_session_id == spec_session_select(connect.outgoing_session_id, pid)
    &&& p.address == addr
    &&& p.channels@.len() == spec_clamped_channels(connect.channel_count, cap)
    &&& (forall|c: int|
        0 <= c < p.channels@.len() ==> #[trigger] p.channels@[c] == (Channel {
            outgoing_reliable_sequence_number: 0,
            outgoing_unreliable_sequence_number: 0,
            incoming_reliable_sequence_number: 0,
            incoming_unreliable_sequence_number: 0,
        }))
    &&& p.incoming_bandwidth == connect.incoming_bandwidth
    &&& p.outgoing_bandwidth == connect.outgoing_bandwidth
    &&& p.packet_throttle_interval == connect.packet_throttle_interval
    &&& p.packet_throttle_acceleration == connect.packet_throttle_acceleration
    &&& p.packet_throttle_deceleration == connect.packet_throttle_deceleration
    &&& p.mtu == connect.mtu
    &&& p.window_size == connect.window_size
    &&& p.event_data == connect.data
    &&& p.outgoing_reliable_sequence_number == 0
    &&& p.incoming_reliable_sequence_number == 1
    &&& p.last_msg_time == now
    &&& p.round_trip_time == 500
    &&& p.round_trip_time_variance == 0
}

impl Host {
    /// Accept a `Connect` from `addr`: register a fresh peer under the next
    /// free id, negotiate session ids and clamp the channel count, and
    /// return the id with the `VerifyConnect` reply to send (whose session
    /// id fields are zero on the wire, while the negotiated values stay in
    /// the peer record).
    pub fn handle_connect(
        &mut self,
        addr: PeerAddress,
        connect: &ConnectCommand,
        now: u64,
    ) -> (r: Result<(PeerID, VerifyConnectCommand), ENetError>)
        requires
            old(self).wf(),
            old(self).next_peer < 0xFFFF,
        ensures
            final(self).wf(),
            r == Ok::<(PeerID, VerifyConnectCommand), ENetError>(
                (
                    PeerID(old(self).next_peer),
                    spec_verify_reply(old(self).config, *connect, old(self).next_peer),
                ),
            ),
            final(self).next_peer == old(self).next_peer + 1,
            final(self).peers@.len() == old(self).peers@.len() + 1,
            forall|i: int|
                0 <= i < old(self).peers@.len() ==> final(self).peers@[i] == old(self).peers@[i],
            final(self).peers@[old(self).next_peer as int] matches Some(p) && spec_fresh_peer(
                p,
                addr,
                *connect,
                old(self).next_peer,
                old(self).config.peer_count,
                now,
            ),
            final(self).unack_packets == old(self).unack_packets,
            final(self).config == old(self).config,
    {
        let requested = connect.channel_count as usize;
        let channel_count: usize = if requested < self.config.peer_count {
            requested
        } else {
            self.config.peer_count
        };

        let peer_id = PeerID(self.next_peer);
        self.next_peer = self.next_peer + 1;

        let mut channels: Vec<Channel> = Vec::new();
        let mut c: usize = 0;
        while c < channel_count
            invariant
                c <= channel_count,
                channels@.len() == c as int,
                forall|k: int|
                    0 <= k < c as int ==> #[trigger] channels@[k] == (Channel {
                        outgoing_reliable_sequence_number: 0,
                        outgoing_unreliable_sequence_number: 0,
                        incoming_reliable_sequence_number: 0,
                        incoming_unreliable_sequence_number: 0,
                    }),
            decreases channel_count - c,
        {
            channels.push(Channel::default());
            c = c + 1;
        }

        let out_pid: u16 = connect.outgoing_peer_id;

        // Session id negotiation: wire value unless 0xFF, bumped and masked
        // to 2 bits on collision with the corresponding peer id.
        let mut incoming_session: u16 = if connect.incoming_session_id == 0xFF {
            out_pid
        } else {
            connect.incoming_session_id as u16
        };
        if incoming_session == out_pid {
            incoming_session = wrapping_inc(incoming_session) & 3;
        }
        let mut outgoing_session: u16 = if connect.outgoing_session_id == 0xFF {
            peer_id.0
        } else {
            connect.outgoing_session_id as u16
        };
        if outgoing_session == peer_id.0 {
            outgoing_session = wrapping_inc(outgoing_session) & 3;
        }

        let peer_info = PeerInfo {
            outgoing_peer_id: OutgoingPeerID(out_pid),
            incoming_peer_id: peer_id,
            connect_id: connect.connect_id,
            outgoing_session_id: incoming_session,
            incoming_session_id: outgoing_session,
            address: addr,
            channels,
            incoming_bandwidth: connect.incoming_bandwidth,
            outgoing_bandwidth: connect.outgoing_bandwidth,
            packet_throttle_interval: connect.packet_throttle_interval,
            packet_throttle_acceleration: connect.packet_throttle_acceleration,
            packet_throttle_deceleration: connect.packet_throttle_deceleration,
            mtu: connect.mtu,
            window_size: connect.window_size,
            event_data: connect.data,
            outgoing_reliable_sequence_number: 0,
            incoming_reliable_sequence_number: 1,
            last_msg_time: now,
            round_trip_time: 500,
            round_trip_time_variance: 0,
        };
        self.peers.push(Some(peer_info));

        let incoming_bandwidth = match self.config.incoming_bandwidth {
            Some(b) => b,
            None => 0,
        };
        let outgoing_bandwidth = match self.config.outgoing_bandwidth {
            Some(b) => b,
            None => 0,
        };
        let verify = VerifyConnectCommand {
            outgoing_peer_id: peer_id.0,
            incoming_session_id: 0,
            outgoing_session_id: 0,
            mtu: connect.mtu,
            window_size: connect.window_size,
            channel_count: channel_count as u32,
            incoming_bandwidth,
            outgoing_bandwidth,
            packet_throttle_interval: connect.packet_throttle_interval,
            packet_throttle_acceleration: connect.packet_throttle_acceleration,
            packet_throttle_deceleration: connect.packet_throttle_deceleration,
            connect_id: connect.connect_id,
        };

        Ok((peer_id, verify))
    }
}

} // verus!
verus! {

/// Copy a byte vector.
fn clone_bytes(v: &Vec<u8>) -> (r: Vec<u8>)
    ensures
        r@ == v@,
{
    vstd::slice::slice_to_vec(v.as_slice())
}

/// Copy a command; the copy's metadata is identical and its payload views
/// are equal.
fn clone_command(c: &Command) -> (r: Command)
    ensures
        r.info == c.info,
        r.command@ == c.command@,
{
    let command = match &c.command {
        ProtocolCommand::NoCommand => ProtocolCommand::NoCommand,
        ProtocolCommand::Ack(a) => ProtocolCommand::Ack(*a),
        ProtocolCommand::Connect(x) => ProtocolCommand::Connect(*x),
        ProtocolCommand::VerifyConnect(x) => ProtocolCommand::VerifyConnect(*x),
        ProtocolCommand::Disconnect(x) => ProtocolCommand::Disconnect(*x),
        ProtocolCommand::Ping(x) => ProtocolCommand::Ping(*x),
        ProtocolCommand::SendReliable(x) => ProtocolCommand::SendReliable(
            crate::protocol::SendReliableCommand { data: clone_bytes(&x.data) },
        ),
        ProtocolCommand::SendUnreliable(x) => ProtocolCommand::SendUnreliable(
            crate::protocol::SendUnreliableCommand {
                unreliable_sequence_number: x.unreliable_sequence_number,
                data: clone_bytes(&x.data),
            },
        ),
        ProtocolCommand::SendFragment(x) => ProtocolCommand::SendFragment(
            crate::protocol::SendFragmentCommand {
                start_sequence_number: x.start_sequence_number,
                data_length: x.data_length,
                fragment_count: x.fragment_count,
                fragment_number: x.fragment_number,
                total_length: x.total_length,
                fragment_offset: x.fragment_offset,
                data: clone_bytes(&x.data),
            },
        ),
        ProtocolCommand::SendUnsequenced(x) => ProtocolCommand::SendUnsequenced(
            crate::protocol::SendUnsequencedCommand {
                unsequenced_group: x.unsequenced_group,
                data: clone_bytes(&x.data),
            },
        ),
        ProtocolCommand::BandwidthLimit(x) => ProtocolCommand::BandwidthLimit(*x),
        ProtocolCommand::ThrottleConfigure(x) => ProtocolCommand::ThrottleConfigure(*x),
        ProtocolCommand::SendUnreliableFragment(x) => ProtocolCommand::SendUnreliableFragment(
            crate::protocol::SendUnreliableFragmentCommand {
                start_sequence_number: x.start_sequence_number,
                data_length: x.data_length,
                fragment_count: x.fragment_count,
                fragment_number: x.fragment_number,
                total_length: x.total_length,
                fragment_offset: x.fragment_offset,
                data: clone_bytes(&x.data),
            },
        ),
        ProtocolCommand::Count => ProtocolCommand::Count,
    };
    Command { info: c.info, command }
}

/// The unacked table with every entry under the given key removed; the
/// order of the remaining entries is kept.
pub open spec fn spec_remove_acked(
    s: Seq<UnAckPacket>,
    peer: PeerID,
    channel: u16,
    seq: u16,
) -> Seq<UnAckPacket>
    decreases s.len(),
{
    if s.len() == 0 {
        s
    } else {
        let rest = spec_remove_acked(s.drop_first(), peer, channel, seq);
        if spec_unack_key(s[0]) == (peer.0, channel, seq) {
            rest
        } else {
            seq![s[0]] + rest
        }
    }
}

/// Removing a key removes it completely.
pub proof fn lemma_remove_acked_absent(s: Seq<UnAckPacket>, peer: PeerID, channel: u16, seq: u16)
    ensures
        forall|j: int|
            0 <= j < spec_remove_acked(s, peer, channel, seq).len() ==> spec_unack_key(
                #[trigger] spec_remove_acked(s, peer, channel, seq)[j],
            ) != (peer.0, channel, seq),
    decreases s.len(),
{
    if s.len() == 0 {
    } else {
        lemma_remove_acked_absent(s.drop_first(), peer, channel, seq);
        let rest = spec_remove_acked(s.drop_first(), peer, channel, seq);
        if spec_unack_key(s[0]) != (peer.0, channel, seq) {
            assert forall|j: int|
                0 <= j < (seq![s[0]] + rest).len() implies spec_unack_key(
                #[trigger] (seq![s[0]] + rest)[j],
            ) != (peer.0, channel, seq) by {
                if j == 0 {
                    assert((seq![s[0]] + rest)[0] == s[0]);
                } else {
                    assert((seq![s[0]] + rest)[j] == rest[j - 1]);
                }
            }
        }
    }
}

/// Whether two commands agree in metadata and in the abstract view of
/// their payload: what a copy of a command preserves.
pub open spec fn cmd_like(a: Command, b: Command) -> bool {
    a.info == b.info && a.command@ == b.command@
}

/// A peer's round-trip estimate folded with one new sample, by a
/// simplified Jacobson/Karels update: the variance loses a
/// quarter of itself and gains a quarter of the deviation, the estimate
/// moves an eighth of the deviation towards the sample (saturating).
pub open spec fn spec_rtt_update(p: PeerInfo, rtt: u64) -> PeerInfo {
    let diff: u64 = if rtt > p.round_trip_time {
        (rtt - p.round_trip_time) as u64
    } else {
        (p.round_trip_time - rtt) as u64
    };
    let var1: u64 = (p.round_trip_time_variance - p.round_trip_time_variance / 4) as u64;
    let new_rtt: u64 = if p.round_trip_time + diff / 8 > u64::MAX {
        u64::MAX
    } else {
        (p.round_trip_time + diff / 8) as u64
    };
    PeerInfo {
        round_trip_time: new_rtt,
        round_trip_time_variance: (var1 + diff / 4) as u64,
        ..p
    }
}

impl Host {
    /// Drop every unacked entry under `(peer, channel, seq)`.
    fn remove_acked_entries(&mut self, peer_id: PeerID, channel: u16, seq: u16)
        ensures
            final(self).unack_packets@ == spec_remove_acked(
                old(self).unack_packets@,
                peer_id,
                channel,
                seq,
            ),
            final(self).peers == old(self).peers,
            final(self).config == old(self).config,
            final(self).next_peer == old(self).next_peer,
    {
        let ghost whole = old(self).unack_packets@;
        let mut i: usize = 0;
        proof {
            assert(whole.subrange(0, 0) =~= Seq::<UnAckPacket>::empty());
            assert(self.unack_packets@.subrange(0, self.unack_packets@.len() as int)
                =~= self.unack_packets@);
        }
        while i < self.unack_packets.len()
            invariant
                i <= self.unack_packets@.len(),
                self.peers == old(self).peers,
                self.config == old(self).config,
                self.next_peer == old(self).next_peer,
                spec_remove_acked(whole, peer_id, channel, seq)
                    == self.unack_packets@.subrange(0, i as int) + spec_remove_acked(
                    self.unack_packets@.subrange(i as int, self.unack_packets@.len() as int),
                    peer_id,
                    channel,
                    seq,
                ),
                forall|j: int|
                    0 <= j < i as int ==> spec_unack_key(#[trigger] self.unack_packets@[j])
                        != (peer_id.0, channel, seq),
            decreases self.unack_packets@.len() - i,
        {
            let ghost pre_vec = self.unack_packets@;
            let ghost suffix = pre_vec.subrange(i as int, pre_vec.len() as int);
            proof {
                assert(suffix[0] == pre_vec[i as int]);
                assert(suffix.drop_first() =~= pre_vec.subrange(i + 1 as int, pre_vec.len() as int));
            }
            let e = &self.unack_packets[i];
            let matches_key = e.peer_id.0 == peer_id.0 && e.command.info.channel_id as u16
                == channel && e.command.info.reliable_sequence_number == seq;
            if matches_key {
                let _removed = self.unack_packets.remove(i);
                proof {
                    assert(self.unack_packets@.subrange(0, i as int) =~= pre_vec.subrange(
                        0,
                        i as int,
                    ));
                    assert(self.unack_packets@.subrange(
                        i as int,
                        self.unack_packets@.len() as int,
                    ) =~= suffix.drop_first());
                }
            } else {
                proof {
                    assert(pre_vec.subrange(0, i + 1 as int) =~= pre_vec.subrange(0, i as int)
                        + seq![pre_vec[i as int]]);
                    assert((pre_vec.subrange(0, i as int) + seq![pre_vec[i as int]])
                        + spec_remove_acked(suffix.drop_first(), peer_id, channel, seq)
                        =~= pre_vec.subrange(0, i as int) + (seq![pre_vec[i as int]]
                        + spec_remove_acked(suffix.drop_first(), peer_id, channel, seq)));
                }
                i = i + 1;
            }
        }
        proof {
            assert(self.unack_packets@.subrange(i as int, self.unack_packets@.len() as int)
                =~= Seq::<UnAckPacket>::empty());
            assert(self.unack_packets@.subrange(0, i as int) =~= self.unack_packets@);
            assert(self.unack_packets@ + Seq::<UnAckPacket>::empty() =~= self.unack_packets@);
        }
    }
}

} // verus!
verus! {

impl Host {
    /// Process an acknowledgement for `(peer, channel)`: drop the matching
    /// in-flight entry — afterwards the table holds nothing under that key,
    /// whatever else happens — then fold the timestamp the ack echoes into
    /// the peer's round-trip estimate. An ack whose timestamp cannot be
    /// expanded against `now` is invalid; one for an unknown peer fails
    /// with its id.
    pub fn handle_ack(
        &mut self,
        peer_id: PeerID,
        channel: ChannelID,
        ack: &AcknowledgeCommand,
        now: u64,
    ) -> (r: Result<(), ENetError>)
        requires
            old(self).wf(),
        ensures
            final(self).wf(),
            final(self).unack_packets@ == spec_remove_acked(
                old(self).unack_packets@,
                peer_id,
                channel,
                ack.received_reliable_sequence_number,
            ),
            !final(self).spec_has_unack(peer_id, channel, ack.received_reliable_sequence_number),
            final(self).config == old(self).config,
            final(self).next_peer == old(self).next_peer,
            match crate::time::spec_expand_packet_time(ack.received_sent_time.0, now) {
                None => final(self).peers@ =~= old(self).peers@ && r == Err::<(), ENetError>(
                    ENetError::InvalidPacket,
                ),
                Some(rtt) => {
                    if old(self).spec_has_peer(peer_id) {
                        &&& final(self).peers@ =~= old(self).peers@.update(
                            peer_id.0 as int,
                            Some(spec_rtt_update(old(self).spec_peer(peer_id)->Some_0, rtt)),
                        )
                        &&& r == Ok::<(), ENetError>(())
                    } else {
                        &&& final(self).peers@ =~= old(self).peers@
                        &&& r == Err::<(), ENetError>(ENetError::InvalidPeerId(peer_id))
                    }
                },
            },
    {
        self.remove_acked_entries(peer_id, channel, ack.received_reliable_sequence_number);
        proof {
            lemma_remove_acked_absent(
                old(self).unack_packets@,
                peer_id,
                channel,
                ack.received_reliable_sequence_number,
            );
        }

        let rtt = match ack.received_sent_time.to_duration(now) {
            Some(r) => r,
            None => {
                return Err(ENetError::InvalidPacket);
            },
        };

        let idx = peer_id.0 as usize;
        if idx >= self.peers.len() {
            return Err(ENetError::InvalidPeerId(peer_id));
        }
        let slot = &mut self.peers[idx];
        match slot.as_mut() {
            None => Err(ENetError::InvalidPeerId(peer_id)),
            Some(p) => {
                let diff: u64 = if rtt > p.round_trip_time {
                    rtt - p.round_trip_time
                } else {
                    p.round_trip_time - rtt
                };
                let quarter = p.round_trip_time_variance / 4;
                p.round_trip_time_variance = p.round_trip_time_variance - quarter;
                let d8 = diff / 8;
                p.round_trip_time = if p.round_trip_time > u64::MAX - d8 {
                    u64::MAX
                } else {
                    p.round_trip_time + d8
                };
                let d4 = diff / 4;
                p.round_trip_time_variance = p.round_trip_time_variance + d4;
                Ok(())
            },
        }
    }

    /// Hand one command to the socket: it joins the outgoing datagrams,
    /// and — when its flags mark it reliable — the unacked table, as a
    /// fresh entry last sent at the command's own send time.
    pub fn send(&mut self, command: Command, out: &mut HostOutputs)
        requires
            old(self).wf(),
        ensures
            final(self).wf(),
            final(out).datagrams@.len() == old(out).datagrams@.len() + 1,
            final(out).datagrams@.subrange(0, old(out).datagrams@.len() as int) == old(out).datagrams@,
            cmd_like(final(out).datagrams@.last(), command),
            final(out).deliveries@ == old(out).deliveries@,
            command.info.flags.reliable ==> final(self).unack_packets@ == old(self).unack_packets@.push(
                UnAckPacket {
                    last_sent: command.info.sent_time,
                    peer_id: command.info.internal_peer_id,
                    retries: 0,
                    command,
                },
            ),
            !command.info.flags.reliable ==> final(self).unack_packets@ == old(self).unack_packets@,
            final(self).peers == old(self).peers,
            final(self).config == old(self).config,
            final(self).next_peer == old(self).next_peer,
    {
        if command.info.flags.reliable {
            let copy = clone_command(&command);
            out.datagrams.push(copy);
            self.unack_packets.push(UnAckPacket::new(command));
        } else {
            out.datagrams.push(command);
        }
        proof {
            assert(out.datagrams@.subrange(0, old(out).datagrams@.len() as int) =~= old(out).datagrams@);
        }
    }
}

} // verus!
verus! {

impl Host {
    /// Stamp the metadata for a fresh outgoing command on `channel_id`
    /// (0xFF for system traffic) and advance the matching outgoing
    /// sequence counter: the peer-level reliable counter for 0xFF; for an
    /// ordinary channel, the reliable counter (resetting the unreliable
    /// one) when the flags are reliable, else the unreliable counter alone,
    /// with the command's wire field forced to 1. Fails, leaving the peer
    /// untouched, with the peer's or channel's id when either is unknown,
    /// and with a conversion error for a channel id past the 8-bit wire
    /// field.
    pub fn new_command_info(
        &mut self,
        peer_id: PeerID,
        channel_id: ChannelID,
        flags: PacketFlags,
        now: u64,
    ) -> (r: Result<CommandInfo, ENetError>)
        requires
            old(self).wf(),
        ensures
            final(self).wf(),
            final(self).config == old(self).config,
            final(self).next_peer == old(self).next_peer,
            final(self).unack_packets == old(self).unack_packets,
            !old(self).spec_has_peer(peer_id) ==> final(self).peers@ =~= old(self).peers@ && r
                == Err::<CommandInfo, ENetError>(ENetError::InvalidPeerId(peer_id)),
            old(self).spec_has_peer(peer_id) ==> ({
                let p = old(self).spec_peer(peer_id)->Some_0;
                if channel_id == 0xFF {
                    let ns = seq_next(p.outgoing_reliable_sequence_number);
                    &&& final(self).peers@ =~= old(self).peers@.update(
                        peer_id.0 as int,
                        Some(PeerInfo { outgoing_reliable_sequence_number: ns, ..p }),
                    )
                    &&& r == Ok::<CommandInfo, ENetError>(
                        spec_command_info(p, peer_id, 0xFF, flags, ns, now),
                    )
                } else if channel_id as int >= p.channels@.len() {
                    &&& final(self).peers@ =~= old(self).peers@
                    &&& r == Err::<CommandInfo, ENetError>(ENetError::InvalidChannelId(channel_id))
                } else if channel_id > 0xFF {
                    &&& final(self).peers@ =~= old(self).peers@
                    &&& r == Err::<CommandInfo, ENetError>(ENetError::IntConversion)
                } else {
                    let ch = p.channels@[channel_id as int];
                    let ch2 = spec_channel_bumped(ch, flags.reliable);
                    let ns = if flags.reliable {
                        seq_next(ch.outgoing_reliable_sequence_number)
                    } else {
                        1u16
                    };
                    &&& final(self).peers@.len() == old(self).peers@.len()
                    &&& (forall|i: int|
                        0 <= i < old(self).peers@.len() && i != peer_id.0 as int
                            ==> final(self).peers@[i] == old(self).peers@[i])
                    &&& final(self).peers@[peer_id.0 as int] matches Some(p2) && p2 == (PeerInfo {
                        channels: p2.channels,
                        ..p
                    }) && p2.channels@ =~= p.channels@.update(channel_id as int, ch2)
                    &&& r == Ok::<CommandInfo, ENetError>(
                        spec_command_info(p, peer_id, channel_id as u8, flags, ns, now),
                    )
                }
            }),
    {
        let idx = peer_id.0 as usize;
        if idx >= self.peers.len() {
            return Err(ENetError::InvalidPeerId(peer_id));
        }
        let slot = &mut self.peers[idx];
        let p = match slot.as_mut() {
            Some(p) => p,
            None => {
                return Err(ENetError::InvalidPeerId(peer_id));
            },
        };

        let reliable_sequence_number: u16;
        if channel_id == 0xFF {
            p.outgoing_reliable_sequence_number = wrapping_inc(p.outgoing_reliable_sequence_number);
            reliable_sequence_number = p.outgoing_reliable_sequence_number;
        } else {
            if channel_id as usize >= p.channels.len() {
                return Err(ENetError::InvalidChannelId(channel_id));
            }
            if channel_id > 0xFF {
                return Err(ENetError::IntConversion);
            }
            let ch = &mut p.channels[channel_id as usize];
            if flags.reliable {
                ch.outgoing_unreliable_sequence_number = 0;
                ch.outgoing_reliable_sequence_number = wrapping_inc(
                    ch.outgoing_reliable_sequence_number,
                );
                reliable_sequence_number = ch.outgoing_reliable_sequence_number;
            } else {
                ch.outgoing_unreliable_sequence_number = wrapping_inc(
                    ch.outgoing_unreliable_sequence_number,
                );
                reliable_sequence_number = 1;
            }
        }

        let info = CommandInfo {
            addr: p.address,
            flags,
            peer_id: PeerID(p.outgoing_peer_id.0),
            internal_peer_id: peer_id,
            channel_id: channel_id as u8,
            session_id: 0,
            reliable_sequence_number,
            sent_time: now,
        };
        Ok(info)
    }
}

/// A channel after stamping one outgoing command: a reliable send resets
/// the unreliable counter and advances the reliable one; an unreliable
/// send advances only the unreliable counter — the command's wire field is
/// forced to 1, but the stored reliable counter is left alone.
pub open spec fn spec_channel_bumped(ch: Channel, reliable: bool) -> Channel {
    if reliable {
        Channel {
            outgoing_unreliable_sequence_number: 0,
            outgoing_reliable_sequence_number: seq_next(ch.outgoing_reliable_sequence_number),
            ..ch
        }
    } else {
        Channel {
            outgoing_unreliable_sequence_number: seq_next(ch.outgoing_unreliable_sequence_number),
            ..ch
        }
    }
}

/// The metadata stamped on an outgoing command for `peer`: addressed to
/// the peer, carrying the id the remote knows us by, session id zero, and
/// the given channel, sequence number and send time.
pub open spec fn spec_command_info(
    p: PeerInfo,
    peer_id: PeerID,
    channel_id: u8,
    flags: PacketFlags,
    seq: u16,
    now: u64,
) -> CommandInfo {
    CommandInfo {
        addr: p.address,
        flags,
        peer_id: PeerID(p.outgoing_peer_id.0),
        internal_peer_id: peer_id,
        channel_id,
        session_id: 0,
        reliable_sequence_number: seq,
        sent_time: now,
    }
}

} // verus!
verus! {

/// The acknowledgement sent for a received reliable command: it echoes the
/// command's sequence number and the low 16 bits of its send time, rides
/// the same channel, and carries default (unreliable) flags.
pub open spec fn spec_ack_command(p: PeerInfo, received: Command, now: u64) -> Command {
    Command {
        info: CommandInfo {
            addr: p.address,
            flags: PacketFlags::spec_default(),
            peer_id: PeerID(p.outgoing_peer_id.0),
            internal_peer_id: received.info.peer_id,
            channel_id: received.info.channel_id,
            session_id: 0,
            reliable_sequence_number: received.info.reliable_sequence_number,
            sent_time: now,
        },
        command: ProtocolCommand::Ack(
            AcknowledgeCommand {
                received_reliable_sequence_number: received.info.reliable_sequence_number,
                received_sent_time: PacketTime((received.info.sent_time % 0x10000) as u16),
            },
        ),
    }
}

impl Host {
    /// Emit the acknowledgement for a received reliable command. The ack
    /// itself is not reliable: it goes straight out, bypassing the
    /// unacked table.
    fn send_ack_packet(&self, command: &Command, now: u64, out: &mut HostOutputs) -> (r: Result<
        (),
        ENetError,
    >)
        ensures
            final(out).deliveries@ == old(out).deliveries@,
            !self.spec_has_peer(command.info.peer_id) ==> final(out).datagrams@ == old(out).datagrams@ && r == Err::<(), ENetError>(
                ENetError::InvalidPeerId(command.info.peer_id),
            ),
            self.spec_has_peer(command.info.peer_id) ==> final(out).datagrams@ == old(out).datagrams@.push(
                spec_ack_command(
                    self.spec_peer(command.info.peer_id)->Some_0,
                    *command,
                    now,
                ),
            ) && r == Ok::<(), ENetError>(()),
    {
        let idx = command.info.peer_id.0 as usize;
        if idx >= self.peers.len() {
            return Err(ENetError::InvalidPeerId(command.info.peer_id));
        }
        let p = match &self.peers[idx] {
            Some(p) => p,
            None => {
                return Err(ENetError::InvalidPeerId(command.info.peer_id));
            },
        };
        let ack = Command {
            info: CommandInfo {
                addr: p.address,
                flags: Default::default(),
                peer_id: PeerID(p.outgoing_peer_id.0),
                internal_peer_id: command.info.peer_id,
                channel_id: command.info.channel_id,
                session_id: 0,
                reliable_sequence_number: command.info.reliable_sequence_number,
                sent_time: now,
            },
            command: ProtocolCommand::Ack(
                AcknowledgeCommand {
                    received_reliable_sequence_number: command.info.reliable_sequence_number,
                    received_sent_time: PacketTime::from_duration(command.info.sent_time),
                },
            ),
        };
        out.datagrams.push(ack);
        Ok(())
    }
}

} // verus!
verus! {

impl Host {
    /// Common handling for every incoming command except `Connect`: refresh
    /// the peer's activity time, acknowledge it when its flags mark it
    /// reliable (even if its sequence number is then rejected), and gate
    /// sequenced data commands: a `SendReliable` must carry exactly the
    /// successor of the incoming reliable counter (the peer-level counter
    /// on channel 0xFF, the channel's otherwise), a `SendUnreliable`
    /// exactly the successor of its channel's unreliable counter; the
    /// matching counter advances to the accepted number, and a mismatch
    /// rejects the packet. Other commands pass through untouched.
    pub fn preprocess_packet(&mut self, command: &Command, now: u64, out: &mut HostOutputs) -> (r:
        Result<(), ENetError>)
        requires
            old(self).wf(),
        ensures
            final(self).wf(),
            final(self).config == old(self).config,
            final(self).next_peer == old(self).next_peer,
            final(self).unack_packets == old(self).unack_packets,
            final(out).deliveries@ == old(out).deliveries@,
            command.command matches ProtocolCommand::Connect(_) ==> final(self).peers@ =~= old(self).peers@ && final(out).datagrams@ == old(out).datagrams@ && r == Ok::<(), ENetError>(
                (),
            ),
            !(command.command matches ProtocolCommand::Connect(_)) && !old(self).spec_has_peer(
                command.info.peer_id,
            ) ==> final(self).peers@ =~= old(self).peers@ && final(out).datagrams@ == old(out).datagrams@ && r == Err::<(), ENetError>(
                ENetError::InvalidPeerId(command.info.peer_id),
            ),
            !(command.command matches ProtocolCommand::Connect(_)) && old(self).spec_has_peer(
                command.info.peer_id,
            ) ==> ({
                let pid = command.info.peer_id;
                let p0 = old(self).spec_peer(pid)->Some_0;
                let p1 = PeerInfo { last_msg_time: now, ..p0 };
                &&& (command.info.flags.reliable ==> final(out).datagrams@ == old(out).datagrams@.push(spec_ack_command(p0, *command, now)))
                &&& (!command.info.flags.reliable ==> final(out).datagrams@ == old(out).datagrams@)
                &&& match command.command {
                    ProtocolCommand::SendReliable(_) => {
                        if command.info.channel_id == 0xFF {
                            if command.info.reliable_sequence_number == seq_next(
                                p0.incoming_reliable_sequence_number,
                            ) {
                                &&& final(self).peers@ =~= old(self).peers@.update(
                                    pid.0 as int,
                                    Some(
                                        PeerInfo {
                                            incoming_reliable_sequence_number:
                                                command.info.reliable_sequence_number,
                                            ..p1
                                        },
                                    ),
                                )
                                &&& r == Ok::<(), ENetError>(())
                            } else {
                                &&& final(self).peers@ =~= old(self).peers@.update(
                                    pid.0 as int,
                                    Some(p1),
                                )
                                &&& r == Err::<(), ENetError>(ENetError::InvalidPacket)
                            }
                        } else if command.info.channel_id as int >= p0.channels@.len() {
                            &&& final(self).peers@ =~= old(self).peers@.update(
                                pid.0 as int,
                                Some(p1),
                            )
                            &&& r == Err::<(), ENetError>(
                                ENetError::InvalidChannelId(command.info.channel_id as u16),
                            )
                        } else {
                            let ch = p0.channels@[command.info.channel_id as int];
                            if command.info.reliable_sequence_number == seq_next(
                                ch.incoming_reliable_sequence_number,
                            ) {
                                &&& final(self).peers@.len() == old(self).peers@.len()
                                &&& (forall|i: int|
                                    0 <= i < old(self).peers@.len() && i != pid.0 as int
                                        ==> final(self).peers@[i] == old(self).peers@[i])
                                &&& final(self).peers@[pid.0 as int] matches Some(p2) && p2 == (
                                PeerInfo { channels: p2.channels, ..p1 }) && p2.channels@
                                    =~= p0.channels@.update(
                                    command.info.channel_id as int,
                                    Channel {
                                        incoming_reliable_sequence_number:
                                            command.info.reliable_sequence_number,
                                        ..ch
                                    },
                                )
                                &&& r == Ok::<(), ENetError>(())
                            } else {
                                &&& final(self).peers@ =~= old(self).peers@.update(
                                    pid.0 as int,
                                    Some(p1),
                                )
                                &&& r == Err::<(), ENetError>(ENetError::InvalidPacket)
                            }
                        }
                    },
                    ProtocolCommand::SendUnreliable(u) => {
                        if command.info.channel_id as int >= p0.channels@.len() {
                            &&& final(self).peers@ =~= old(self).peers@.update(
                                pid.0 as int,
                                Some(p1),
                            )
                            &&& r == Err::<(), ENetError>(
                                ENetError::InvalidChannelId(command.info.channel_id as u16),
                            )
                        } else {
                            let ch = p0.channels@[command.info.channel_id as int];
                            if u.unreliable_sequence_number == seq_next(
                                ch.incoming_unreliable_sequence_number,
                            ) {
                                &&& final(self).peers@.len() == old(self).peers@.len()
                                &&& (forall|i: int|
                                    0 <= i < old(self).peers@.len() && i != pid.0 as int
                                        ==> final(self).peers@[i] == old(self).peers@[i])
                                &&& final(self).peers@[pid.0 as int] matches Some(p2) && p2 == (
                                PeerInfo { channels: p2.channels, ..p1 }) && p2.channels@
                                    =~= p0.channels@.update(
                                    command.info.channel_id as int,
                                    Channel {
                                        incoming_unreliable_sequence_number:
                                            u.unreliable_sequence_number,
                                        ..ch
                                    },
                                )
                                &&& r == Ok::<(), ENetError>(())
                            } else {
                                &&& final(self).peers@ =~= old(self).peers@.update(
                                    pid.0 as int,
                                    Some(p1),
                                )
                                &&& r == Err::<(), ENetError>(ENetError::InvalidPacket)
                            }
                        }
                    },
                    _ => final(self).peers@ =~= old(self).peers@.update(pid.0 as int, Some(p1))
                        && r == Ok::<(), ENetError>(()),
                }
            }),
    {
        if let ProtocolCommand::Connect(_) = &command.command {
            return Ok(());
        }
        let pid = command.info.peer_id;
        let idx = pid.0 as usize;
        if idx >= self.peers.len() {
            return Err(ENetError::InvalidPeerId(pid));
        }
        if self.peers[idx].is_none() {
            return Err(ENetError::InvalidPeerId(pid));
        }
        {
            let slot = &mut self.peers[idx];
            match slot.as_mut() {
                Some(p) => {
                    p.last_msg_time = now;
                },
                None => {
                    return Err(ENetError::InvalidPeerId(pid));
                },
            }
        }

        if command.info.flags.reliable {
            self.send_ack_packet(command, now, out)?;
        }

        match &command.command {
            ProtocolCommand::SendReliable(_) => {
                if command.info.channel_id == 0xFF {
                    let next = match &self.peers[idx] {
                        Some(p) => wrapping_inc(p.incoming_reliable_sequence_number),
                        None => {
                            return Err(ENetError::InvalidPeerId(pid));
                        },
                    };
                    if command.info.reliable_sequence_number != next {
                        return Err(ENetError::InvalidPacket);
                    }
                    let slot = &mut self.peers[idx];
                    match slot.as_mut() {
                        Some(p) => {
                            p.incoming_reliable_sequence_number = next;
                        },
                        None => {
                            return Err(ENetError::InvalidPeerId(pid));
                        },
                    }
                } else {
                    let cidx = command.info.channel_id as usize;
                    let next = match &self.peers[idx] {
                        Some(p) => {
                            if cidx >= p.channels.len() {
                                return Err(
                                    ENetError::InvalidChannelId(command.info.channel_id as u16),
                                );
                            }
                            wrapping_inc(p.channels[cidx].incoming_reliable_sequence_number)
                        },
                        None => {
                            return Err(ENetError::InvalidPeerId(pid));
                        },
                    };
                    if command.info.reliable_sequence_number != next {
                        return Err(ENetError::InvalidPacket);
                    }
                    let slot = &mut self.peers[idx];
                    match slot.as_mut() {
                        Some(p) => {
                            let ch = &mut p.channels[cidx];
                            ch.incoming_reliable_sequence_number = next;
                        },
                        None => {
                            return Err(ENetError::InvalidPeerId(pid));
                        },
                    }
                }
            },
            ProtocolCommand::SendUnreliable(u) => {
                let cidx = command.info.channel_id as usize;
                let next = match &self.peers[idx] {
                    Some(p) => {
                        if cidx >= p.channels.len() {
                            return Err(ENetError::InvalidChannelId(command.info.channel_id as u16));
                        }
                        wrapping_inc(p.channels[cidx].incoming_unreliable_sequence_number)
                    },
                    None => {
                        return Err(ENetError::InvalidPeerId(pid));
                    },
                };
                if u.unreliable_sequence_number != next {
                    return Err(ENetError::InvalidPacket);
                }
                let slot = &mut self.peers[idx];
                match slot.as_mut() {
                    Some(p) => {
                        let ch = &mut p.channels[cidx];
                        ch.incoming_unreliable_sequence_number = next;
                    },
                    None => {
                        return Err(ENetError::InvalidPeerId(pid));
                    },
                }
            },
            _ => {},
        }
        Ok(())
    }
}

} // verus!
verus! {

/// The application payload of a data command.
pub open spec fn spec_send_data(c: crate::codec::ProtocolCommandV) -> Seq<u8> {
    match c {
        crate::codec::ProtocolCommandV::SendReliable { data } => data,
        crate::codec::ProtocolCommandV::SendUnreliable { data, .. } => data,
        _ => Seq::<u8>::empty(),
    }
}

impl Host {
    /// Deliver an accepted data command's payload to its peer's mailbox as
    /// a received packet on the command's channel.
    pub fn forward_to_peer(&self, command: &Command, out: &mut HostOutputs) -> (r: Result<
        (),
        ENetError,
    >)
        requires
            command.command matches ProtocolCommand::SendReliable(_) || command.command
                matches ProtocolCommand::SendUnreliable(_),
        ensures
            final(out).datagrams@ == old(out).datagrams@,
            !self.spec_has_peer(command.info.peer_id) ==> final(out).deliveries@ == old(out).deliveries@ && r == Err::<(), ENetError>(
                ENetError::InvalidPeerId(command.info.peer_id),
            ),
            self.spec_has_peer(command.info.peer_id) ==> ({
                &&& final(out).deliveries@.len() == old(out).deliveries@.len() + 1
                &&& final(out).deliveries@.subrange(0, old(out).deliveries@.len() as int) == old(out).deliveries@
                &&& final(out).deliveries@.last().peer_id == command.info.peer_id
                &&& final(out).deliveries@.last().message.channel_id == command.info.channel_id
                    as u16
                &&& final(out).deliveries@.last().message.event matches PeerRecvEvent::Recv(p)
                    && p.data@ == spec_send_data(command.command@) && p.channel
                    == command.info.channel_id as u16 && p.flags == command.info.flags
                &&& r == Ok::<(), ENetError>(())
            }),
    {
        let idx = command.info.peer_id.0 as usize;
        if idx >= self.peers.len() {
            return Err(ENetError::InvalidPeerId(command.info.peer_id));
        }
        if self.peers[idx].is_none() {
            return Err(ENetError::InvalidPeerId(command.info.peer_id));
        }

        let data = match &command.command {
            ProtocolCommand::SendReliable(x) => clone_bytes(&x.data),
            ProtocolCommand::SendUnreliable(x) => clone_bytes(&x.data),
            _ => Vec::new(),
        };

        let packet = Packet {
            data,
            channel: command.info.channel_id as u16,
            flags: command.info.flags,
        };
        out.deliveries.push(
            Delivery {
                peer_id: command.info.peer_id,
                message: HostSendEvent {
                    event: PeerRecvEvent::Recv(packet),
                    channel_id: command.info.channel_id as u16,
                },
            },
        );
        proof {
            assert(out.deliveries@.subrange(0, old(out).deliveries@.len() as int) =~= old(out).deliveries@);
        }
        Ok(())
    }
}

} // verus!
verus! {

/// The unacked table with every entry of one peer removed; order kept.
pub open spec fn spec_remove_peer_entries(s: Seq<UnAckPacket>, peer: PeerID) -> Seq<UnAckPacket>
    decreases s.len(),
{
    if s.len() == 0 {
        s
    } else {
        let rest = spec_remove_peer_entries(s.drop_first(), peer);
        if s[0].peer_id == peer {
            rest
        } else {
            seq![s[0]] + rest
        }
    }
}

/// Removing a peer's entries removes them completely.
pub proof fn lemma_remove_peer_entries_absent(s: Seq<UnAckPacket>, peer: PeerID)
    ensures
        forall|j: int|
            0 <= j < spec_remove_peer_entries(s, peer).len() ==> (#[trigger] spec_remove_peer_entries(
                s,
                peer,
            )[j]).peer_id != peer,
    decreases s.len(),
{
    if s.len() == 0 {
    } else {
        lemma_remove_peer_entries_absent(s.drop_first(), peer);
        let rest = spec_remove_peer_entries(s.drop_first(), peer);
        if s[0].peer_id != peer {
            assert forall|j: int|
                0 <= j < (seq![s[0]] + rest).len() implies (#[trigger] (seq![s[0]] + rest)[j]).peer_id
                != peer by {
                if j == 0 {
                    assert((seq![s[0]] + rest)[0] == s[0]);
                } else {
                    assert((seq![s[0]] + rest)[j] == rest[j - 1]);
                }
            }
        }
    }
}

/// An entry of another peer survives the removal, as the same value.
proof fn lemma_remove_peer_keeps_others(s: Seq<UnAckPacket>, q: PeerID, k: int)
    requires
        0 <= k < s.len(),
        s[k].peer_id != q,
    ensures
        exists|k2: int|
            0 <= k2 < spec_remove_peer_entries(s, q).len() && spec_remove_peer_entries(s, q)[k2]
                == s[k],
    decreases s.len(),
{
    let rest = spec_remove_peer_entries(s.drop_first(), q);
    if k == 0 {
        assert((seq![s[0]] + rest)[0] == s[0]);
        assert(spec_remove_peer_entries(s, q)[0] == s[0]);
    } else {
        lemma_remove_peer_keeps_others(s.drop_first(), q, k - 1);
        assert(s.drop_first()[k - 1] == s[k]);
        let k2 = choose|k2: int| 0 <= k2 < rest.len() && rest[k2] == s.drop_first()[k - 1];
        if s[0].peer_id != q {
            assert((seq![s[0]] + rest)[k2 + 1] == rest[k2]);
            assert(spec_remove_peer_entries(s, q)[k2 + 1] == s[k]);
        } else {
            assert(spec_remove_peer_entries(s, q) == rest);
            assert(spec_remove_peer_entries(s, q)[k2] == s[k]);
        }
    }
}

/// Every entry of the removal's result is one of the input's entries.
proof fn lemma_remove_peer_subset(s: Seq<UnAckPacket>, q: PeerID, k2: int)
    requires
        0 <= k2 < spec_remove_peer_entries(s, q).len(),
    ensures
        exists|k: int|
            0 <= k < s.len() && s[k] == spec_remove_peer_entries(s, q)[k2],
    decreases s.len(),
{
    let res = spec_remove_peer_entries(s, q);
    let rest = spec_remove_peer_entries(s.drop_first(), q);
    if s.len() == 0 {
    } else if s[0].peer_id == q {
        lemma_remove_peer_subset(s.drop_first(), q, k2);
        let k = choose|k: int| 0 <= k < s.drop_first().len() && s.drop_first()[k] == rest[k2];
        assert(s[k + 1] == s.drop_first()[k]);
    } else {
        if k2 == 0 {
            assert(res[0] == s[0]);
        } else {
            assert(res[k2] == rest[k2 - 1]);
            lemma_remove_peer_subset(s.drop_first(), q, k2 - 1);
            let k = choose|k: int|
                0 <= k < s.drop_first().len() && s.drop_first()[k] == rest[k2 - 1];
            assert(s[k + 1] == s.drop_first()[k]);
        }
    }
}

/// The reliable `Disconnect` notice sent while a peer is being removed.
pub open spec fn spec_disconnect_command(p: PeerInfo, id: PeerID, now: u64) -> Command {
    Command {
        info: spec_command_info(
            p,
            id,
            0xFF,
            PacketFlags { reliable: true, ..PacketFlags::spec_default() },
            seq_next(p.outgoing_reliable_sequence_number),
            now,
        ),
        command: ProtocolCommand::Disconnect(DisconnectCommand { data: 0 }),
    }
}

impl Host {
    /// Drop every unacked entry of one peer.
    fn remove_peer_entries(&mut self, peer_id: PeerID)
        ensures
            final(self).unack_packets@ == spec_remove_peer_entries(
                old(self).unack_packets@,
                peer_id,
            ),
            final(self).peers == old(self).peers,
            final(self).config == old(self).config,
            final(self).next_peer == old(self).next_peer,
    {
        let ghost whole = old(self).unack_packets@;
        let mut i: usize = 0;
        proof {
            assert(whole.subrange(0, 0) =~= Seq::<UnAckPacket>::empty());
            assert(self.unack_packets@.subrange(0, self.unack_packets@.len() as int)
                =~= self.unack_packets@);
        }
        while i < self.unack_packets.len()
            invariant
                i <= self.unack_packets@.len(),
                self.peers == old(self).peers,
                self.config == old(self).config,
                self.next_peer == old(self).next_peer,
                spec_remove_peer_entries(whole, peer_id) == self.unack_packets@.subrange(
                    0,
                    i as int,
                ) + spec_remove_peer_entries(
                    self.unack_packets@.subrange(i as int, self.unack_packets@.len() as int),
                    peer_id,
                ),
            decreases self.unack_packets@.len() - i,
        {
            let ghost pre_vec = self.unack_packets@;
            let ghost suffix = pre_vec.subrange(i as int, pre_vec.len() as int);
            proof {
                assert(suffix[0] == pre_vec[i as int]);
                assert(suffix.drop_first() =~= pre_vec.subrange(i + 1 as int, pre_vec.len() as int));
            }
            if self.unack_packets[i].peer_id.0 == peer_id.0 {
                let _removed = self.unack_packets.remove(i);
                proof {
                    assert(self.unack_packets@.subrange(0, i as int) =~= pre_vec.subrange(
                        0,
                        i as int,
                    ));
                    assert(self.unack_packets@.subrange(
                        i as int,
                        self.unack_packets@.len() as int,
                    ) =~= suffix.drop_first());
                }
            } else {
                proof {
                    assert(pre_vec.subrange(0, i + 1 as int) =~= pre_vec.subrange(0, i as int)
                        + seq![pre_vec[i as int]]);
                    assert((pre_vec.subrange(0, i as int) + seq![pre_vec[i as int]])
                        + spec_remove_peer_entries(suffix.drop_first(), peer_id)
                        =~= pre_vec.subrange(0, i as int) + (seq![pre_vec[i as int]]
                        + spec_remove_peer_entries(suffix.drop_first(), peer_id)));
                }
                i = i + 1;
            }
        }
        proof {
            assert(self.unack_packets@.subrange(i as int, self.unack_packets@.len() as int)
                =~= Seq::<UnAckPacket>::empty());
            assert(self.unack_packets@.subrange(0, i as int) =~= self.unack_packets@);
            assert(self.unack_packets@ + Seq::<UnAckPacket>::empty() =~= self.unack_packets@);
        }
    }

    /// Remove a peer: drop its in-flight entries, send it a best-effort
    /// reliable `Disconnect` notice (tracked by no retransmission, since
    /// the record it would need is going away), free its slot, and close
    /// its mailbox with a final `Disconnect` delivery. Afterwards the peer
    /// is gone and nothing in flight refers to it, even when the id was
    /// unknown and the call reports that.
    pub fn disconnect_peer(&mut self, id: PeerID, now: u64, out: &mut HostOutputs) -> (r: Result<
        (),
        ENetError,
    >)
        requires
            old(self).wf(),
        ensures
            final(self).wf(),
            final(self).config == old(self).config,
            final(self).next_peer == old(self).next_peer,
            final(self).unack_packets@ == spec_remove_peer_entries(old(self).unack_packets@, id),
            forall|k: int|
                0 <= k < final(self).unack_packets@.len() ==> (#[trigger] final(self).unack_packets@[k]).peer_id != id,
            !final(self).spec_has_peer(id),
            !old(self).spec_has_peer(id) ==> final(self).peers@ =~= old(self).peers@ && final(out).datagrams@ == old(out).datagrams@ && final(out).deliveries@ == old(out).deliveries@
                && r == Err::<(), ENetError>(ENetError::InvalidPeerId(id)),
            old(self).spec_has_peer(id) ==> ({
                let p = old(self).spec_peer(id)->Some_0;
                &&& final(self).peers@ =~= old(self).peers@.update(id.0 as int, None)
                &&& final(out).datagrams@ == old(out).datagrams@.push(
                    spec_disconnect_command(p, id, now),
                )
                &&& final(out).deliveries@ == old(out).deliveries@.push(
                    Delivery {
                        peer_id: id,
                        message: HostSendEvent {
                            event: PeerRecvEvent::Disconnect,
                            channel_id: 0xFF,
                        },
                    },
                )
                &&& r == Ok::<(), ENetError>(())
            }),
    {
        self.remove_peer_entries(id);
        proof {
            lemma_remove_peer_entries_absent(old(self).unack_packets@, id);
        }

        let idx = id.0 as usize;
        if idx >= self.peers.len() {
            return Err(ENetError::InvalidPeerId(id));
        }
        if self.peers[idx].is_none() {
            return Err(ENetError::InvalidPeerId(id));
        }

        let seqno = match &self.peers[idx] {
            Some(p) => wrapping_inc(p.outgoing_reliable_sequence_number),
            None => 0,
        };
        let notice = match &self.peers[idx] {
            Some(p) => Command {
                info: CommandInfo {
                    addr: p.address,
                    flags: PacketFlags::reliable(),
                    peer_id: PeerID(p.outgoing_peer_id.0),
                    internal_peer_id: id,
                    channel_id: 0xFF,
                    session_id: 0,
                    reliable_sequence_number: seqno,
                    sent_time: now,
                },
                command: ProtocolCommand::Disconnect(DisconnectCommand { data: 0 }),
            },
            None => {
                return Err(ENetError::InvalidPeerId(id));
            },
        };
        out.datagrams.push(notice);

        self.peers[idx] = None;

        out.deliveries.push(
            Delivery {
                peer_id: id,
                message: HostSendEvent { event: PeerRecvEvent::Disconnect, channel_id: 0xFF },
            },
        );
        Ok(())
    }
}

} // verus!
verus! {

impl Host {
    /// Dispatch one decoded incoming command. A `Connect` registers a new
    /// peer and answers with a reliable `VerifyConnect` on the system
    /// channel, yielding a connect event. Everything else passes through
    /// `preprocess_packet` (activity refresh, acknowledgement, sequence
    /// gate) and is then applied: `Disconnect` removes the sender,
    /// accepted data is delivered to the peer's mailbox, an `Ack` settles
    /// the in-flight entry and the round-trip estimate, `BandwidthLimit`
    /// updates the stored limits, and the remaining commands are accepted
    /// without further effect.
    pub fn handle_incoming_command(
        &mut self,
        command: &Command,
        now: u64,
        out: &mut HostOutputs,
    ) -> (r: Result<HostPollEvent, ENetError>)
        requires
            old(self).wf(),
            old(self).next_peer < 0xFFFF,
        ensures
            final(self).wf(),
            final(self).config == old(self).config,
            // A connect accepts the new peer and replies.
            command.command matches ProtocolCommand::Connect(c) ==> ({
                let pid = PeerID(old(self).next_peer);
                let reply = Command {
                    info: CommandInfo {
                        addr: command.info.addr,
                        flags: PacketFlags { reliable: true, ..PacketFlags::spec_default() },
                        peer_id: PeerID(c.outgoing_peer_id),
                        internal_peer_id: pid,
                        channel_id: 0xFF,
                        session_id: 0,
                        reliable_sequence_number: 1,
                        sent_time: now,
                    },
                    command: ProtocolCommand::VerifyConnect(
                        spec_verify_reply(old(self).config, c, old(self).next_peer),
                    ),
                };
                &&& final(self).next_peer == old(self).next_peer + 1
                &&& final(self).peers@.len() == old(self).peers@.len() + 1
                &&& (forall|i: int|
                    0 <= i < old(self).peers@.len() ==> final(self).peers@[i] == old(self).peers@[i])
                &&& final(self).peers@[pid.0 as int] matches Some(p)
                    && p.outgoing_reliable_sequence_number == 1 && spec_fresh_peer(
                    PeerInfo { outgoing_reliable_sequence_number: 0, ..p },
                    command.info.addr,
                    c,
                    old(self).next_peer,
                    old(self).config.peer_count,
                    now,
                )
                &&& final(out).datagrams@.len() == old(out).datagrams@.len() + 1
                &&& cmd_like(final(out).datagrams@.last(), reply)
                &&& final(self).unack_packets@ == old(self).unack_packets@.push(
                    UnAckPacket { last_sent: now, peer_id: pid, retries: 0, command: reply },
                )
                &&& final(out).deliveries@ == old(out).deliveries@
                &&& r == Ok::<HostPollEvent, ENetError>(HostPollEvent::Connect(pid))
            }),
            // Any other command for an unknown peer is rejected unchanged.
            !(command.command matches ProtocolCommand::Connect(_)) && !old(self).spec_has_peer(
                command.info.peer_id,
            ) ==> final(self).peers@ =~= old(self).peers@ && final(self).unack_packets == old(self).unack_packets && final(out).datagrams@ == old(out).datagrams@ && final(out).deliveries@ == old(out).deliveries@ && r == Err::<HostPollEvent, ENetError>(
                ENetError::InvalidPeerId(command.info.peer_id),
            ),
            // A disconnect removes the sender and closes its mailbox.
            command.command matches ProtocolCommand::Disconnect(_) && old(self).spec_has_peer(
                command.info.peer_id,
            ) ==> ({
                &&& !final(self).spec_has_peer(command.info.peer_id)
                &&& final(self).peers@ =~= old(self).peers@.update(
                    command.info.peer_id.0 as int,
                    None,
                )
                &&& final(self).unack_packets@ == spec_remove_peer_entries(
                    old(self).unack_packets@,
                    command.info.peer_id,
                )
                &&& final(out).deliveries@ == old(out).deliveries@.push(
                    Delivery {
                        peer_id: command.info.peer_id,
                        message: HostSendEvent {
                            event: PeerRecvEvent::Disconnect,
                            channel_id: 0xFF,
                        },
                    },
                )
                &&& r == Ok::<HostPollEvent, ENetError>(
                    HostPollEvent::Disconnect(command.info.peer_id),
                )
            }),
            // An ack leaves nothing in flight under its key.
            command.command matches ProtocolCommand::Ack(a) ==> (old(self).spec_has_peer(
                command.info.peer_id,
            ) ==> ({
                &&& final(self).unack_packets@ == spec_remove_acked(
                    old(self).unack_packets@,
                    command.info.peer_id,
                    command.info.channel_id as u16,
                    a.received_reliable_sequence_number,
                )
                &&& !final(self).spec_has_unack(
                    command.info.peer_id,
                    command.info.channel_id as u16,
                    a.received_reliable_sequence_number,
                )
                &&& final(out).deliveries@ == old(out).deliveries@
                &&& (r == Ok::<HostPollEvent, ENetError>(HostPollEvent::NoEvent) <==> crate::time::spec_expand_packet_time(
                    a.received_sent_time.0,
                    now,
                ) is Some)
                &&& (crate::time::spec_expand_packet_time(a.received_sent_time.0, now) is None
                    ==> r == Err::<HostPollEvent, ENetError>(ENetError::InvalidPacket))
            })),
            // A data command is delivered exactly when its sequence number
            // is the expected successor.
            (command.command matches ProtocolCommand::SendReliable(_) || command.command
                matches ProtocolCommand::SendUnreliable(_)) && old(self).spec_has_peer(
                command.info.peer_id,
            ) ==> ({
                let p0 = old(self).spec_peer(command.info.peer_id)->Some_0;
                let accepted = spec_data_accepted(p0, *command);
                &&& (accepted ==> final(out).deliveries@.len() == old(out).deliveries@.len() + 1
                    && final(out).deliveries@.last().peer_id == command.info.peer_id && (final(out).deliveries@.last().message.event matches PeerRecvEvent::Recv(pk) && pk.data@
                    == spec_send_data(command.command@)) && r == Ok::<HostPollEvent, ENetError>(
                    HostPollEvent::NoEvent,
                ))
                &&& (!accepted ==> final(out).deliveries@ == old(out).deliveries@ && r is Err)
                &&& final(self).unack_packets == old(self).unack_packets
                &&& (command.command matches ProtocolCommand::SendReliable(_) && accepted ==> ({
                    let pf = final(self).spec_peer(command.info.peer_id)->Some_0;
                    &&& final(self).spec_has_peer(command.info.peer_id)
                    &&& (if command.info.channel_id == 0xFF {
                        pf.incoming_reliable_sequence_number
                            == command.info.reliable_sequence_number
                    } else {
                        pf.channels@[command.info.channel_id as int].incoming_reliable_sequence_number
                            == command.info.reliable_sequence_number
                    })
                }))
            }),
            // Everything else is accepted without effect beyond the
            // activity refresh and acknowledgement.
            !(command.command matches ProtocolCommand::Connect(_)) && !(command.command
                matches ProtocolCommand::Disconnect(_)) && !(command.command
                matches ProtocolCommand::Ack(_)) && !(command.command
                matches ProtocolCommand::SendReliable(_)) && !(command.command
                matches ProtocolCommand::SendUnreliable(_)) && old(self).spec_has_peer(
                command.info.peer_id,
            ) ==> final(out).deliveries@ == old(out).deliveries@ && final(self).unack_packets
                == old(self).unack_packets && r == Ok::<HostPollEvent, ENetError>(
                HostPollEvent::NoEvent,
            ),
    {
        self.preprocess_packet(command, now, out)?;

        match &command.command {
            ProtocolCommand::Connect(c) => {
                let addr = command.info.addr;
                let (peer_id, verify) = self.handle_connect(addr, c, now)?;
                let info = self.new_command_info(peer_id, 0xFF, PacketFlags::reliable(), now)?;
                let reply = Command { info, command: ProtocolCommand::VerifyConnect(verify) };
                self.send(reply, out);
                Ok(HostPollEvent::Connect(peer_id))
            },
            ProtocolCommand::Disconnect(_) => {
                self.disconnect_peer(command.info.peer_id, now, out)?;
                Ok(HostPollEvent::Disconnect(command.info.peer_id))
            },
            ProtocolCommand::BandwidthLimit(b) => {
                let idx = command.info.peer_id.0 as usize;
                if idx >= self.peers.len() {
                    return Err(ENetError::InvalidPeerId(command.info.peer_id));
                }
                let slot = &mut self.peers[idx];
                match slot.as_mut() {
                    Some(p) => {
                        p.incoming_bandwidth = b.incoming_bandwidth;
                        p.outgoing_bandwidth = b.outgoing_bandwidth;
                        Ok(HostPollEvent::NoEvent)
                    },
                    None => Err(ENetError::InvalidPeerId(command.info.peer_id)),
                }
            },
            ProtocolCommand::SendReliable(_) => {
                self.forward_to_peer(command, out)?;
                Ok(HostPollEvent::NoEvent)
            },
            ProtocolCommand::SendUnreliable(_) => {
                self.forward_to_peer(command, out)?;
                Ok(HostPollEvent::NoEvent)
            },
            ProtocolCommand::Ack(a) => {
                self.handle_ack(command.info.peer_id, command.info.channel_id as u16, a, now)?;
                Ok(HostPollEvent::NoEvent)
            },
            ProtocolCommand::Ping(_) => Ok(HostPollEvent::NoEvent),
            _ => Ok(HostPollEvent::NoEvent),
        }
    }
}

/// Whether a reliable command numbered `seq` is the one the peer's
/// sequencing state expects next on this channel: the successor of the
/// incoming reliable counter (the peer-level counter on channel 0xFF, the
/// channel's own otherwise).
pub open spec fn spec_accepts_reliable_seq(p: PeerInfo, channel_id: u8, seq: u16) -> bool {
    if channel_id == 0xFF {
        seq == seq_next(p.incoming_reliable_sequence_number)
    } else {
        (channel_id as int) < p.channels@.len() && seq == seq_next(
            p.channels@[channel_id as int].incoming_reliable_sequence_number,
        )
    }
}

/// Whether a data command clears the sequence gate of `preprocess_packet`
/// against peer state `p`: its channel exists (the peer-level counter
/// stands in on the system channel) and it carries exactly the expected
/// next sequence number.
pub open spec fn spec_data_accepted(p: PeerInfo, command: Command) -> bool {
    match command.command {
        ProtocolCommand::SendReliable(_) => spec_accepts_reliable_seq(
            p,
            command.info.channel_id,
            command.info.reliable_sequence_number,
        ),
        ProtocolCommand::SendUnreliable(u) => {
            (command.info.channel_id as int) < p.channels@.len() && u.unreliable_sequence_number
                == seq_next(
                p.channels@[command.info.channel_id as int].incoming_unreliable_sequence_number,
            )
        },
        _ => false,
    }
}

} // verus!
verus! {

/// Whether an in-flight entry has waited past the retransmission timeout.
pub open spec fn spec_entry_stale(e: UnAckPacket, cfg: HostConfig, now: u64) -> bool {
    now >= e.last_sent && now - e.last_sent > cfg.packet_timeout
}

/// Whether an in-flight entry has exhausted its retries: stale, with at
/// least `retry_count` retransmissions already spent.
pub open spec fn spec_entry_dead(e: UnAckPacket, cfg: HostConfig, now: u64) -> bool {
    spec_entry_stale(e, cfg, now) && e.retries >= cfg.retry_count
}

/// The peers whose entries have exhausted their retries, in table order.
pub open spec fn spec_timed_out_peers(s: Seq<UnAckPacket>, cfg: HostConfig, now: u64) -> Seq<
    PeerID,
>
    decreases s.len(),
{
    if s.len() == 0 {
        Seq::<PeerID>::empty()
    } else {
        let rest = spec_timed_out_peers(s.drop_first(), cfg, now);
        if spec_entry_dead(s[0], cfg, now) {
            seq![s[0].peer_id] + rest
        } else {
            rest
        }
    }
}

/// The commands to retransmit: those of stale entries that still have a
/// retry left, in table order.
pub open spec fn spec_resends(s: Seq<UnAckPacket>, cfg: HostConfig, now: u64) -> Seq<Command>
    decreases s.len(),
{
    if s.len() == 0 {
        Seq::<Command>::empty()
    } else {
        let rest = spec_resends(s.drop_first(), cfg, now);
        if spec_entry_stale(s[0], cfg, now) && !spec_entry_dead(s[0], cfg, now) {
            seq![s[0].command] + rest
        } else {
            rest
        }
    }
}

/// Pairwise `cmd_like`: equal lengths, equal metadata and payload views.
pub open spec fn cmds_like(a: Seq<Command>, b: Seq<Command>) -> bool {
    a.len() == b.len() && forall|i: int| 0 <= i < a.len() ==> cmd_like(#[trigger] a[i], b[i])
}

/// An in-flight entry after one retransmission at `now`.
pub open spec fn spec_entry_resent(e: UnAckPacket, now: u64) -> UnAckPacket {
    UnAckPacket { last_sent: now, retries: (e.retries + 1) as usize, ..e }
}

/// An in-flight entry as one timer sweep leaves it: retransmitted (and
/// freshly timestamped) when it is stale with a retry left, untouched
/// otherwise.
pub open spec fn spec_entry_swept(e: UnAckPacket, cfg: HostConfig, now: u64) -> UnAckPacket {
    if spec_entry_stale(e, cfg, now) && !spec_entry_dead(e, cfg, now) {
        spec_entry_resent(e, now)
    } else {
        e
    }
}

/// Every dead entry's peer appears in the timed-out list.
pub proof fn lemma_timed_out_covers(s: Seq<UnAckPacket>, cfg: HostConfig, now: u64, k: int)
    requires
        0 <= k < s.len(),
        spec_entry_dead(s[k], cfg, now),
    ensures
        spec_timed_out_peers(s, cfg, now).contains(s[k].peer_id),
    decreases s.len(),
{
    let rest = spec_timed_out_peers(s.drop_first(), cfg, now);
    if k == 0 {
        assert((seq![s[0].peer_id] + rest)[0] == s[0].peer_id);
    } else {
        lemma_timed_out_covers(s.drop_first(), cfg, now, k - 1);
        let j = choose|j: int| 0 <= j < rest.len() && rest[j] == s[k].peer_id;
        if spec_entry_dead(s[0], cfg, now) {
            assert((seq![s[0].peer_id] + rest)[j + 1] == rest[j]);
        }
    }
}

/// One disconnection's effect on the in-flight table: everything of the
/// removed peer is gone, everything else survives as the same value.
#[verifier::spinoff_prover]
proof fn lemma_disconnect_step_table(
    pre_un: Seq<UnAckPacket>,
    post_un: Seq<UnAckPacket>,
    id: PeerID,
    upd: Seq<UnAckPacket>,
    timed_out: Seq<PeerID>,
    i: int,
)
    requires
        post_un == spec_remove_peer_entries(pre_un, id),
        0 <= i < timed_out.len(),
        timed_out[i] == id,
        forall|k2: int|
            0 <= k2 < pre_un.len() ==> (exists|k: int|
                0 <= k < upd.len() && upd[k] == #[trigger] pre_un[k2]),
        forall|j: int, k2: int|
            #![trigger timed_out[j], pre_un[k2]]
            0 <= j < i && 0 <= k2 < pre_un.len() ==> pre_un[k2].peer_id != timed_out[j],
        forall|k: int|
            0 <= k < upd.len() && !timed_out.contains((#[trigger] upd[k]).peer_id) ==> (exists|
                k2: int,
            | 0 <= k2 < pre_un.len() && pre_un[k2] == upd[k]),
    ensures
        forall|k2: int|
            0 <= k2 < post_un.len() ==> (exists|k: int|
                0 <= k < upd.len() && upd[k] == #[trigger] post_un[k2]),
        forall|j: int, k2: int|
            #![trigger timed_out[j], post_un[k2]]
            0 <= j < i + 1 && 0 <= k2 < post_un.len() ==> post_un[k2].peer_id != timed_out[j],
        forall|k: int|
            0 <= k < upd.len() && !timed_out.contains((#[trigger] upd[k]).peer_id) ==> (exists|
                k2: int,
            | 0 <= k2 < post_un.len() && post_un[k2] == upd[k]),
{
    assert forall|k2: int| 0 <= k2 < post_un.len() implies (exists|k: int|
        0 <= k < upd.len() && upd[k] == #[trigger] post_un[k2]) by {
        lemma_remove_peer_subset(pre_un, id, k2);
        let kp = choose|kp: int|
            0 <= kp < pre_un.len() && pre_un[kp] == spec_remove_peer_entries(pre_un, id)[k2];
    }
    assert forall|j: int, k2: int|
        0 <= j < i + 1 && 0 <= k2 < post_un.len() implies (#[trigger] post_un[k2]).peer_id != (
    #[trigger] timed_out[j]) by {
        if j == i {
            lemma_remove_peer_entries_absent(pre_un, id);
        } else {
            lemma_remove_peer_subset(pre_un, id, k2);
            let kp = choose|kp: int|
                0 <= kp < pre_un.len() && pre_un[kp] == spec_remove_peer_entries(pre_un, id)[k2];
            assert(pre_un[kp].peer_id != timed_out[j]);
        }
    }
    assert forall|k: int|
        0 <= k < upd.len() && !timed_out.contains((#[trigger] upd[k]).peer_id) implies (exists|
        k2: int,
    | 0 <= k2 < post_un.len() && post_un[k2] == upd[k]) by {
        let k2p = choose|k2p: int| 0 <= k2p < pre_un.len() && pre_un[k2p] == upd[k];
        assert(upd[k].peer_id != id) by {
            if upd[k].peer_id == id {
                assert(timed_out[i] == upd[k].peer_id);
            }
        }
        lemma_remove_peer_keeps_others(pre_un, id, k2p);
        let k2n = choose|k2n: int|
            0 <= k2n < spec_remove_peer_entries(pre_un, id).len() && spec_remove_peer_entries(
                pre_un,
                id,
            )[k2n] == pre_un[k2p];
        assert(post_un[k2n] == upd[k]);
    }
}

/// What the whole tick leaves in the in-flight table, assembled from the
/// sweep's update, the per-peer removals and the appended keep-alives:
/// no entry of a timed-out peer remains, entries of the other peers
/// survive as their sweep update, and everything present is such an
/// update or a fresh ping.
#[verifier::spinoff_prover]
proof fn lemma_tick_final_table(
    ounack: Seq<UnAckPacket>,
    cfg: HostConfig,
    now: u64,
    timed_out: Seq<PeerID>,
    upd: Seq<UnAckPacket>,
    mid: Host,
    mid_un: Seq<UnAckPacket>,
    fin_un: Seq<UnAckPacket>,
)
    requires
        timed_out == spec_timed_out_peers(ounack, cfg, now),
        upd.len() == ounack.len(),
        forall|k: int|
            0 <= k < ounack.len() ==> upd[k] == spec_entry_swept(#[trigger] ounack[k], cfg, now),
        forall|k2: int|
            0 <= k2 < mid_un.len() ==> (exists|k: int|
                0 <= k < upd.len() && upd[k] == #[trigger] mid_un[k2]),
        forall|k2: int|
            0 <= k2 < mid_un.len() ==> !timed_out.contains((#[trigger] mid_un[k2]).peer_id),
        forall|k: int|
            0 <= k < upd.len() && !timed_out.contains((#[trigger] upd[k]).peer_id) ==> (exists|
                k2: int,
            | 0 <= k2 < mid_un.len() && mid_un[k2] == upd[k]),
        forall|j: int| 0 <= j < timed_out.len() ==> !mid.spec_has_peer(#[trigger] timed_out[j]),
        mid_un.len() <= fin_un.len(),
        forall|j: int| 0 <= j < mid_un.len() ==> #[trigger] fin_un[j] == mid_un[j],
        forall|j: int|
            mid_un.len() <= j < fin_un.len() ==> {
                let e = #[trigger] fin_un[j];
                mid.spec_has_peer(e.peer_id) && e == (UnAckPacket {
                    last_sent: now,
                    peer_id: e.peer_id,
                    retries: 0,
                    command: spec_ping_command(mid.spec_peer(e.peer_id)->Some_0, e.peer_id, now),
                })
            },
    ensures
        forall|k2: int|
            0 <= k2 < fin_un.len() ==> !spec_timed_out_peers(ounack, cfg, now).contains(
                (#[trigger] fin_un[k2]).peer_id,
            ),
        forall|k: int|
            0 <= k < ounack.len() && !spec_timed_out_peers(ounack, cfg, now).contains(
                (#[trigger] ounack[k]).peer_id,
            ) ==> (exists|k2: int|
                0 <= k2 < fin_un.len() && fin_un[k2] == spec_entry_swept(ounack[k], cfg, now)),
        forall|k2: int|
            0 <= k2 < fin_un.len() ==> ((exists|k: int|
                0 <= k < ounack.len() && (#[trigger] fin_un[k2]) == spec_entry_swept(
                    ounack[k],
                    cfg,
                    now,
                )) || (fin_un[k2].retries == 0 && fin_un[k2].last_sent == now && (
            fin_un[k2].command.command matches ProtocolCommand::Ping(_))
                && fin_un[k2].command.info.flags.reliable && fin_un[k2].command.info.channel_id
                == 0xFF)),
{
    assert forall|k2: int| 0 <= k2 < fin_un.len() implies !spec_timed_out_peers(
        ounack,
        cfg,
        now,
    ).contains((#[trigger] fin_un[k2]).peer_id) by {
        if k2 < mid_un.len() {
            assert(fin_un[k2] == mid_un[k2]);
        } else {
            let e = fin_un[k2];
            assert(mid.spec_has_peer(e.peer_id));
            if spec_timed_out_peers(ounack, cfg, now).contains(e.peer_id) {
                let j = choose|j: int| 0 <= j < timed_out.len() && timed_out[j] == e.peer_id;
                assert(!mid.spec_has_peer(timed_out[j]));
            }
        }
    }
    assert forall|k: int|
        0 <= k < ounack.len() && !spec_timed_out_peers(ounack, cfg, now).contains(
            (#[trigger] ounack[k]).peer_id,
        ) implies (exists|k2: int|
        0 <= k2 < fin_un.len() && fin_un[k2] == spec_entry_swept(ounack[k], cfg, now)) by {
        assert(upd[k] == spec_entry_swept(ounack[k], cfg, now));
        assert(upd[k].peer_id == ounack[k].peer_id);
        let k2m = choose|k2m: int| 0 <= k2m < mid_un.len() && mid_un[k2m] == upd[k];
        assert(fin_un[k2m] == upd[k]);
    }
    assert forall|k2: int| 0 <= k2 < fin_un.len() implies ((exists|k: int|
        0 <= k < ounack.len() && (#[trigger] fin_un[k2]) == spec_entry_swept(
            ounack[k],
            cfg,
            now,
        )) || (fin_un[k2].retries == 0 && fin_un[k2].last_sent == now && (
    fin_un[k2].command.command matches ProtocolCommand::Ping(_))
        && fin_un[k2].command.info.flags.reliable && fin_un[k2].command.info.channel_id
        == 0xFF)) by {
        if k2 < mid_un.len() {
            assert(fin_un[k2] == mid_un[k2]);
            let k = choose|k: int| 0 <= k < upd.len() && upd[k] == mid_un[k2];
            assert(upd[k] == spec_entry_swept(ounack[k], cfg, now));
        } else {
            let e = fin_un[k2];
            assert(e == (UnAckPacket {
                last_sent: now,
                peer_id: e.peer_id,
                retries: 0,
                command: spec_ping_command(mid.spec_peer(e.peer_id)->Some_0, e.peer_id, now),
            }));
        }
    }
}

impl Host {
    /// Disconnect every peer the retransmission sweep reported, in order:
    /// each present one is removed with its closing delivery, and every
    /// reported peer's in-flight entries leave the table, whether or not
    /// the peer was still registered. `upd` names the table as the sweep
    /// left it.
    #[verifier::spinoff_prover]
    fn disconnect_timed_out(
        &mut self,
        timed_out: &Vec<PeerID>,
        now: u64,
        out: &mut HostOutputs,
        Ghost(ounack): Ghost<Seq<UnAckPacket>>,
        Ghost(cfg): Ghost<HostConfig>,
        Ghost(upd): Ghost<Seq<UnAckPacket>>,
    )
        requires
            old(self).wf(),
            cfg == old(self).config,
            timed_out@ == spec_timed_out_peers(ounack, cfg, now),
            upd == old(self).unack_packets@,
            upd.len() == ounack.len(),
            forall|k: int|
                0 <= k < ounack.len() ==> upd[k] == spec_entry_swept(
                    #[trigger] ounack[k],
                    cfg,
                    now,
                ),
        ensures
            final(self).wf(),
            final(self).config == old(self).config,
            final(self).next_peer == old(self).next_peer,
            old(out).deliveries@.is_prefix_of(final(out).deliveries@),
            old(out).datagrams@.is_prefix_of(final(out).datagrams@),
            final(self).peers@.len() == old(self).peers@.len(),
            forall|q: int|
                0 <= q < old(self).peers@.len() ==> ((#[trigger] final(self).peers@[q]) is Some
                    ==> final(self).peers@[q] == old(self).peers@[q]),
            forall|q: int|
                0 <= q < old(self).peers@.len() && old(self).peers@[q] is Some && !(
                #[trigger] final(self).peers@[q] is Some) ==> (exists|d: int|
                    old(out).deliveries@.len() <= d < final(out).deliveries@.len()
                        && (#[trigger] final(out).deliveries@[d]) == (Delivery {
                        peer_id: PeerID(q as u16),
                        message: HostSendEvent {
                            event: PeerRecvEvent::Disconnect,
                            channel_id: 0xFF,
                        },
                    })),
            forall|j: int|
                0 <= j < timed_out@.len() ==> !final(self).spec_has_peer(#[trigger] timed_out@[j]),
            forall|k2: int|
                0 <= k2 < final(self).unack_packets@.len() ==> (exists|k: int|
                    0 <= k < upd.len() && upd[k] == #[trigger] final(self).unack_packets@[k2]),
            forall|j: int, k2: int|
                #![trigger timed_out@[j], final(self).unack_packets@[k2]]
                0 <= j < timed_out@.len() && 0 <= k2 < final(self).unack_packets@.len()
                    ==> final(self).unack_packets@[k2].peer_id != timed_out@[j],
            forall|k: int|
                0 <= k < upd.len() && !timed_out@.contains((#[trigger] upd[k]).peer_id) ==> (
                exists|k2: int|
                    0 <= k2 < final(self).unack_packets@.len() && final(self).unack_packets@[k2]
                        == upd[k]),
    {
        let ghost odel = old(out).deliveries@;
        proof {
            assert forall|k2: int| 0 <= k2 < self.unack_packets@.len() implies (exists|k: int|
                0 <= k < upd.len() && upd[k] == #[trigger] self.unack_packets@[k2]) by {
                assert(upd[k2] == self.unack_packets@[k2]);
            }
            assert forall|k: int|
                0 <= k < upd.len() && !timed_out@.contains((#[trigger] upd[k]).peer_id) implies (
            exists|k2: int|
                0 <= k2 < self.unack_packets@.len() && self.unack_packets@[k2] == upd[k]) by {
                assert(self.unack_packets@[k] == upd[k]);
            }
        }

        let mut i: usize = 0;
        while i < timed_out.len()
            invariant
                self.wf(),
                cfg == old(self).config,
                odel == old(out).deliveries@,
                self.config == cfg,
                self.next_peer == old(self).next_peer,
                timed_out@ == spec_timed_out_peers(ounack, cfg, now),
                odel.is_prefix_of(out.deliveries@),
                old(out).datagrams@.is_prefix_of(out.datagrams@),
                i <= timed_out@.len(),
                self.peers@.len() == old(self).peers@.len(),
                forall|j: int| 0 <= j < i as int ==> !self.spec_has_peer(#[trigger] timed_out@[j]),
                forall|q: int|
                    0 <= q < old(self).peers@.len() ==> ((#[trigger] self.peers@[q]) is Some
                        ==> self.peers@[q] == old(self).peers@[q]),
                forall|q: int|
                    0 <= q < old(self).peers@.len() && old(self).peers@[q] is Some && !(
                    #[trigger] self.peers@[q] is Some) ==> (exists|d: int|
                        odel.len() <= d < out.deliveries@.len()
                            && (#[trigger] out.deliveries@[d]) == (Delivery {
                            peer_id: PeerID(q as u16),
                            message: HostSendEvent {
                                event: PeerRecvEvent::Disconnect,
                                channel_id: 0xFF,
                            },
                        })),
                forall|k2: int|
                    0 <= k2 < self.unack_packets@.len() ==> (exists|k: int|
                        0 <= k < upd.len() && upd[k] == #[trigger] self.unack_packets@[k2]),
                forall|j: int, k2: int|
                    #![trigger timed_out@[j], self.unack_packets@[k2]]
                    0 <= j < i as int && 0 <= k2 < self.unack_packets@.len()
                        ==> self.unack_packets@[k2].peer_id != timed_out@[j],
                forall|k: int|
                    0 <= k < upd.len() && !timed_out@.contains((#[trigger] upd[k]).peer_id) ==> (
                    exists|k2: int|
                        0 <= k2 < self.unack_packets@.len() && self.unack_packets@[k2]
                            == upd[k]),
            decreases timed_out@.len() - i,
        {
            let id = timed_out[i];
            let was_present = (id.0 as usize) < self.peers.len() && self.peers[id.0
                as usize].is_some();
            let ghost pre = *self;
            let ghost pre_del = out.deliveries@;
            let ghost pre_dgx = out.datagrams@;
            let _ = self.disconnect_peer(id, now, out);
            proof {
                assert forall|j: int| 0 <= j < pre_dgx.len() implies out.datagrams@[j]
                    == pre_dgx[j] by {
                    assert(out.datagrams@.subrange(0, pre_dgx.len() as int)[j]
                        == out.datagrams@[j]);
                }
                assert(old(out).datagrams@.is_prefix_of(out.datagrams@)) by {
                    assert(out.datagrams@.subrange(0, old(out).datagrams@.len() as int)
                        =~= old(out).datagrams@);
                }
                if was_present {
                    assert(out.deliveries@.last() == (Delivery {
                        peer_id: id,
                        message: HostSendEvent {
                            event: PeerRecvEvent::Disconnect,
                            channel_id: 0xFF,
                        },
                    }));
                    assert(out.deliveries@.len() == pre_del.len() + 1);
                    assert forall|d: int| 0 <= d < pre_del.len() implies out.deliveries@[d]
                        == pre_del[d] by {
                        assert(pre_del.is_prefix_of(out.deliveries@));
                    }
                    assert forall|q: int|
                        0 <= q < old(self).peers@.len() && old(self).peers@[q] is Some && !(
                        #[trigger] self.peers@[q] is Some) implies (exists|d: int|
                        odel.len() <= d < out.deliveries@.len()
                            && (#[trigger] out.deliveries@[d]) == (Delivery {
                            peer_id: PeerID(q as u16),
                            message: HostSendEvent {
                                event: PeerRecvEvent::Disconnect,
                                channel_id: 0xFF,
                            },
                        })) by {
                        if q == id.0 as int {
                            assert(out.deliveries@[out.deliveries@.len() - 1] == (Delivery {
                                peer_id: id,
                                message: HostSendEvent {
                                    event: PeerRecvEvent::Disconnect,
                                    channel_id: 0xFF,
                                },
                            }));
                            assert(id == PeerID(q as u16));
                        } else {
                            assert(self.peers@[q] == pre.peers@[q]);
                        }
                    }
                } else {
                    assert(out.deliveries@ == pre_del);
                    assert(self.peers@ =~= pre.peers@);
                }
                assert(timed_out@[i as int] == id);
                lemma_disconnect_step_table(
                    pre.unack_packets@,
                    self.unack_packets@,
                    id,
                    upd,
                    timed_out@,
                    i as int,
                );
            }
            i = i + 1;
        }
    }

    /// Sweep the unacked table: every entry past the retransmission
    /// timeout is either resent (one more retry, freshly timestamped) or —
    /// when its retries are exhausted — left alone while its peer is
    /// reported for disconnection. Returns the peers to disconnect, one
    /// per exhausted entry, in table order.
    pub fn resend_missing_packets(&mut self, now: u64, out: &mut HostOutputs) -> (timed_out: Vec<
        PeerID,
    >)
        requires
            old(self).wf(),
        ensures
            final(self).wf(),
            final(self).peers == old(self).peers,
            final(self).config == old(self).config,
            final(self).next_peer == old(self).next_peer,
            final(out).deliveries@ == old(out).deliveries@,
            timed_out@ == spec_timed_out_peers(old(self).unack_packets@, old(self).config, now),
            final(self).unack_packets@.len() == old(self).unack_packets@.len(),
            forall|k: int|
                0 <= k < old(self).unack_packets@.len() ==> final(self).unack_packets@[k] == (
                if spec_entry_stale(#[trigger] old(self).unack_packets@[k], old(self).config, now)
                    && !spec_entry_dead(old(self).unack_packets@[k], old(self).config, now) {
                    spec_entry_resent(old(self).unack_packets@[k], now)
                } else {
                    old(self).unack_packets@[k]
                }),
            final(out).datagrams@.len() == old(out).datagrams@.len() + spec_resends(
                old(self).unack_packets@,
                old(self).config,
                now,
            ).len(),
            final(out).datagrams@.subrange(0, old(out).datagrams@.len() as int) == old(out).datagrams@,
            cmds_like(
                final(out).datagrams@.subrange(
                    old(out).datagrams@.len() as int,
                    final(out).datagrams@.len() as int,
                ),
                spec_resends(old(self).unack_packets@, old(self).config, now),
            ),
    {
        let ghost whole = old(self).unack_packets@;
        let ghost cfg = old(self).config;
        let mut timed_out: Vec<PeerID> = Vec::new();
        let mut i: usize = 0;
        proof {
            assert(whole.subrange(0, 0) =~= Seq::<UnAckPacket>::empty());
        }
        while i < self.unack_packets.len()
            invariant
                old(self).wf(),
                self.wf(),
                i <= self.unack_packets@.len(),
                self.peers == old(self).peers,
                self.config == old(self).config,
                cfg == old(self).config,
                whole == old(self).unack_packets@,
                self.next_peer == old(self).next_peer,
                out.deliveries@ == old(out).deliveries@,
                self.unack_packets@.len() == whole.len(),
                forall|k: int| i as int <= k < whole.len() ==> self.unack_packets@[k] == whole[k],
                forall|k: int|
                    0 <= k < i as int ==> self.unack_packets@[k] == (if spec_entry_stale(
                        #[trigger] whole[k],
                        cfg,
                        now,
                    ) && !spec_entry_dead(whole[k], cfg, now) {
                        spec_entry_resent(whole[k], now)
                    } else {
                        whole[k]
                    }),
                timed_out@ == spec_timed_out_peers(whole.subrange(0, i as int), cfg, now),
                out.datagrams@.len() == old(out).datagrams@.len() + spec_resends(
                    whole.subrange(0, i as int),
                    cfg,
                    now,
                ).len(),
                out.datagrams@.subrange(0, old(out).datagrams@.len() as int) == old(out).datagrams@,
                cmds_like(
                    out.datagrams@.subrange(
                        old(out).datagrams@.len() as int,
                        out.datagrams@.len() as int,
                    ),
                    spec_resends(whole.subrange(0, i as int), cfg, now),
                ),
            decreases self.unack_packets@.len() - i,
        {
            proof {
                lemma_prefix_step_timers(whole, i as int, cfg, now);
            }
            let ghost pre_timed = timed_out@;
            let ghost pre_dgrams = out.datagrams@;
            let stale = now >= self.unack_packets[i].last_sent && now
                - self.unack_packets[i].last_sent > self.config.packet_timeout;
            proof {
                assert(stale == spec_entry_stale(whole[i as int], cfg, now));
            }
            if stale {
                if self.unack_packets[i].retries >= self.config.retry_count {
                    timed_out.push(self.unack_packets[i].peer_id);
                } else {
                    let copy = clone_command(&self.unack_packets[i].command);
                    out.datagrams.push(copy);
                    let e = &mut self.unack_packets[i];
                    e.retries = e.retries + 1;
                    e.last_sent = now;
                }
            }
            proof {
                let base = old(out).datagrams@.len() as int;
                let pre = whole.subrange(0, i as int);
                let cur = whole.subrange(0, i + 1 as int);
                let e = whole[i as int];
                assert(out.datagrams@.subrange(0, base) =~= old(out).datagrams@);
                if spec_entry_dead(e, cfg, now) {
                    assert(timed_out@ =~= spec_timed_out_peers(pre, cfg, now) + seq![e.peer_id]);
                    assert(spec_resends(cur, cfg, now) =~= spec_resends(pre, cfg, now));
                } else if spec_entry_stale(e, cfg, now) {
                    assert(spec_timed_out_peers(cur, cfg, now) =~= spec_timed_out_peers(
                        pre,
                        cfg,
                        now,
                    ));
                    let suffix = out.datagrams@.subrange(base, out.datagrams@.len() as int);
                    let old_suffix = pre_dgrams.subrange(base, pre_dgrams.len() as int);
                    assert(suffix =~= old_suffix.push(out.datagrams@.last()));
                    assert(cmd_like(out.datagrams@.last(), e.command));
                    assert(spec_resends(cur, cfg, now) =~= spec_resends(pre, cfg, now).push(
                        e.command,
                    ));
                    assert forall|j: int| 0 <= j < suffix.len() implies cmd_like(
                        #[trigger] suffix[j],
                        spec_resends(cur, cfg, now)[j],
                    ) by {
                        if j < old_suffix.len() {
                            assert(suffix[j] == old_suffix[j]);
                            assert(spec_resends(cur, cfg, now)[j] == spec_resends(pre, cfg, now)[j]);
                        }
                    }
                } else {
                    assert(timed_out@ =~= spec_timed_out_peers(cur, cfg, now));
                    assert(spec_resends(cur, cfg, now) =~= spec_resends(pre, cfg, now));
                }
                assert(timed_out@ =~= spec_timed_out_peers(cur, cfg, now));
                assert(cmds_like(
                    out.datagrams@.subrange(base, out.datagrams@.len() as int),
                    spec_resends(cur, cfg, now),
                ));
            }
            i = i + 1;
        }
        proof {
            assert(whole.subrange(0, whole.len() as int) =~= whole);
        }
        timed_out
    }
}

/// One step of the timer sweep's bookkeeping: extending a prefix by one
/// entry extends its timed-out list and resend list by that entry's
/// contribution.
proof fn lemma_prefix_step_timers(whole: Seq<UnAckPacket>, i: int, cfg: HostConfig, now: u64)
    requires
        0 <= i < whole.len(),
    ensures
        spec_timed_out_peers(whole.subrange(0, i + 1), cfg, now) == spec_timed_out_peers(
            whole.subrange(0, i),
            cfg,
            now,
        ) + (if spec_entry_dead(whole[i], cfg, now) {
            seq![whole[i].peer_id]
        } else {
            Seq::<PeerID>::empty()
        }),
        spec_resends(whole.subrange(0, i + 1), cfg, now) == spec_resends(
            whole.subrange(0, i),
            cfg,
            now,
        ) + (if spec_entry_stale(whole[i], cfg, now) && !spec_entry_dead(whole[i], cfg, now) {
            seq![whole[i].command]
        } else {
            Seq::<Command>::empty()
        }),
{
    reveal_with_fuel(spec_timed_out_peers, 2);
    reveal_with_fuel(spec_resends, 2);
    lemma_timers_concat(whole.subrange(0, i), seq![whole[i]], cfg, now);
    assert(whole.subrange(0, i + 1) =~= whole.subrange(0, i) + seq![whole[i]]);
    assert(seq![whole[i]].drop_first() =~= Seq::<UnAckPacket>::empty());
    if spec_entry_dead(whole[i], cfg, now) {
        assert(spec_timed_out_peers(seq![whole[i]], cfg, now) =~= seq![whole[i].peer_id]);
    } else {
        assert(spec_timed_out_peers(seq![whole[i]], cfg, now) =~= Seq::<PeerID>::empty());
    }
    if spec_entry_stale(whole[i], cfg, now) && !spec_entry_dead(whole[i], cfg, now) {
        assert(spec_resends(seq![whole[i]], cfg, now) =~= seq![whole[i].command]);
    } else {
        assert(spec_resends(seq![whole[i]], cfg, now) =~= Seq::<Command>::empty());
    }
    assert(spec_timed_out_peers(whole.subrange(0, i + 1), cfg, now) =~= spec_timed_out_peers(
        whole.subrange(0, i),
        cfg,
        now,
    ) + spec_timed_out_peers(seq![whole[i]], cfg, now));
    assert(spec_resends(whole.subrange(0, i + 1), cfg, now) =~= spec_resends(
        whole.subrange(0, i),
        cfg,
        now,
    ) + spec_resends(seq![whole[i]], cfg, now));
}

/// The timer lists distribute over concatenation.
proof fn lemma_timers_concat(a: Seq<UnAckPacket>, b: Seq<UnAckPacket>, cfg: HostConfig, now: u64)
    ensures
        spec_timed_out_peers(a + b, cfg, now) == spec_timed_out_peers(a, cfg, now)
            + spec_timed_out_peers(b, cfg, now),
        spec_resends(a + b, cfg, now) == spec_resends(a, cfg, now) + spec_resends(b, cfg, now),
    decreases a.len(),
{
    if a.len() == 0 {
        assert(a + b =~= b);
        assert(spec_timed_out_peers(a, cfg, now) + spec_timed_out_peers(b, cfg, now)
            =~= spec_timed_out_peers(b, cfg, now));
        assert(spec_resends(a, cfg, now) + spec_resends(b, cfg, now) =~= spec_resends(
            b,
            cfg,
            now,
        ));
    } else {
        assert((a + b)[0] == a[0]);
        assert((a + b).drop_first() =~= a.drop_first() + b);
        lemma_timers_concat(a.drop_first(), b, cfg, now);
        assert(seq![a[0].peer_id] + (spec_timed_out_peers(a.drop_first(), cfg, now)
            + spec_timed_out_peers(b, cfg, now)) =~= (seq![a[0].peer_id] + spec_timed_out_peers(
            a.drop_first(),
            cfg,
            now,
        )) + spec_timed_out_peers(b, cfg, now));
        assert(seq![a[0].command] + (spec_resends(a.drop_first(), cfg, now) + spec_resends(
            b,
            cfg,
            now,
        )) =~= (seq![a[0].command] + spec_resends(a.drop_first(), cfg, now)) + spec_resends(
            b,
            cfg,
            now,
        ));
    }
}

} // verus!
verus! {

/// Whether a peer has been idle past the keep-alive interval.
pub open spec fn spec_peer_idle(p: PeerInfo, cfg: HostConfig, now: u64) -> bool {
    now >= p.last_msg_time && now - p.last_msg_time > cfg.ping_interval
}

/// How many peer slots below `upto` hold a peer idle past the ping
/// interval: the recipients of one keep-alive sweep.
pub open spec fn spec_idle_count(
    peers: Seq<Option<PeerInfo>>,
    cfg: HostConfig,
    now: u64,
    upto: int,
) -> int
    decreases upto,
{
    if upto <= 0 {
        0
    } else {
        spec_idle_count(peers, cfg, now, upto - 1) + (match peers[upto - 1] {
            Some(p) => if spec_peer_idle(p, cfg, now) {
                1int
            } else {
                0int
            },
            None => 0int,
        })
    }
}

/// The keep-alive ping sent to an idle peer: reliable, on the system
/// channel, carrying the peer-level counter's next value.
pub open spec fn spec_ping_command(p: PeerInfo, id: PeerID, now: u64) -> Command {
    Command {
        info: spec_command_info(
            p,
            id,
            0xFF,
            PacketFlags { reliable: true, ..PacketFlags::spec_default() },
            seq_next(p.outgoing_reliable_sequence_number),
            now,
        ),
        command: ProtocolCommand::Ping(PingCommand {  }),
    }
}

impl Host {
    /// Send a reliable keep-alive `Ping` to every peer that has been idle
    /// past the ping interval, refreshing its activity time and advancing
    /// its system-channel counter. Exactly one ping per idle peer goes
    /// through the unified send path, so it lands in the unacked table and
    /// a dead peer's silence is eventually noticed by the retransmission
    /// sweep.
    #[verifier::rlimit(100)]
    pub fn send_pings(&mut self, now: u64, out: &mut HostOutputs)
        requires
            old(self).wf(),
        ensures
            final(self).wf(),
            final(self).config == old(self).config,
            final(self).next_peer == old(self).next_peer,
            final(out).deliveries@ == old(out).deliveries@,
            final(self).peers@.len() == old(self).peers@.len(),
            forall|i: int|
                0 <= i < old(self).peers@.len() ==> final(self).peers@[i] == (
                match old(self).peers@[i] {
                    Some(p) => if spec_peer_idle(p, old(self).config, now) {
                        Some(
                            PeerInfo {
                                last_msg_time: now,
                                outgoing_reliable_sequence_number: seq_next(
                                    p.outgoing_reliable_sequence_number,
                                ),
                                ..p
                            },
                        )
                    } else {
                        Some(p)
                    },
                    None => None,
                }),
            old(self).unack_packets@.is_prefix_of(final(self).unack_packets@),
            old(out).datagrams@.is_prefix_of(final(out).datagrams@),
            final(out).datagrams@.len() - old(out).datagrams@.len() == final(self).unack_packets@.len() - old(self).unack_packets@.len(),
            // One fresh in-flight ping per idle peer, no more and no fewer,
            // each mirrored by an outgoing datagram.
            final(self).unack_packets@.len() - old(self).unack_packets@.len() == spec_idle_count(
                old(self).peers@,
                old(self).config,
                now,
                old(self).peers@.len() as int,
            ),
            forall|j: int|
                old(self).unack_packets@.len() <= j < final(self).unack_packets@.len() ==> {
                    let e = #[trigger] final(self).unack_packets@[j];
                    &&& old(self).spec_has_peer(e.peer_id)
                    &&& (old(self).spec_peer(e.peer_id) matches Some(p) && spec_peer_idle(
                        p,
                        old(self).config,
                        now,
                    ) && e == (UnAckPacket {
                        last_sent: now,
                        peer_id: e.peer_id,
                        retries: 0,
                        command: spec_ping_command(p, e.peer_id, now),
                    }))
                    &&& cmd_like(
                        final(out).datagrams@[old(out).datagrams@.len() + (j - old(self).unack_packets@.len())],
                        e.command,
                    )
                },
            forall|q: int|
                0 <= q < old(self).peers@.len() ==> (((#[trigger] old(self).peers@[q])
                    matches Some(p) && spec_peer_idle(p, old(self).config, now)) ==> (exists|
                    j: int,
                |
                    old(self).unack_packets@.len() <= j < final(self).unack_packets@.len()
                        && (#[trigger] final(self).unack_packets@[j]).peer_id == PeerID(
                        q as u16,
                    ))),
    {
        let ghost cfg = old(self).config;
        let ghost opeers = old(self).peers@;
        let ghost ounack = old(self).unack_packets@;
        let ghost odgrams = old(out).datagrams@;
        let mut i: usize = 0;
        let n = self.peers.len();
        while i < n
            invariant
                old(self).wf(),
                self.wf(),
                i <= n,
                n as int == opeers.len(),
                cfg == old(self).config,
                opeers == old(self).peers@,
                ounack == old(self).unack_packets@,
                odgrams == old(out).datagrams@,
                self.config == cfg,
                self.next_peer == old(self).next_peer,
                out.deliveries@ == old(out).deliveries@,
                self.peers@.len() == opeers.len(),
                forall|k: int| i as int <= k < opeers.len() ==> self.peers@[k] == opeers[k],
                forall|k: int|
                    0 <= k < i as int ==> self.peers@[k] == (match opeers[k] {
                        Some(p) => if spec_peer_idle(p, cfg, now) {
                            Some(
                                PeerInfo {
                                    last_msg_time: now,
                                    outgoing_reliable_sequence_number: seq_next(
                                        p.outgoing_reliable_sequence_number,
                                    ),
                                    ..p
                                },
                            )
                        } else {
                            Some(p)
                        },
                        None => None,
                    }),
                ounack.is_prefix_of(self.unack_packets@),
                odgrams.is_prefix_of(out.datagrams@),
                out.datagrams@.len() - odgrams.len() == self.unack_packets@.len() - ounack.len(),
                self.unack_packets@.len() - ounack.len() == spec_idle_count(
                    opeers,
                    cfg,
                    now,
                    i as int,
                ),
                forall|j: int|
                    ounack.len() <= j < self.unack_packets@.len() ==> {
                        let e = #[trigger] self.unack_packets@[j];
                        &&& (e.peer_id.0 as int) < opeers.len()
                        &&& (opeers[e.peer_id.0 as int] matches Some(p) && spec_peer_idle(
                            p,
                            cfg,
                            now,
                        ) && e == (UnAckPacket {
                            last_sent: now,
                            peer_id: e.peer_id,
                            retries: 0,
                            command: spec_ping_command(p, e.peer_id, now),
                        }))
                        &&& cmd_like(
                            out.datagrams@[odgrams.len() + (j - ounack.len())],
                            e.command,
                        )
                    },
                forall|q: int|
                    0 <= q < i as int ==> (((#[trigger] opeers[q]) matches Some(p)
                        && spec_peer_idle(p, cfg, now)) ==> (exists|j: int|
                        ounack.len() <= j < self.unack_packets@.len()
                            && (#[trigger] self.unack_packets@[j]).peer_id == PeerID(q as u16))),
            decreases n - i,
        {
            let idle = match &self.peers[i] {
                Some(p) => now >= p.last_msg_time && now - p.last_msg_time
                    > self.config.ping_interval,
                None => false,
            };
            if idle {
                let (address, out_pid, seqno) = {
                    let slot = &mut self.peers[i];
                    match slot.as_mut() {
                        Some(p) => {
                            p.last_msg_time = now;
                            p.outgoing_reliable_sequence_number = wrapping_inc(
                                p.outgoing_reliable_sequence_number,
                            );
                            (p.address, p.outgoing_peer_id.0, p.outgoing_reliable_sequence_number)
                        },
                        None => (PeerAddress { is_ipv6: false, ip: 0, port: 0 }, 0, 0),
                    }
                };
                let ping = Command {
                    info: CommandInfo {
                        addr: address,
                        flags: PacketFlags::reliable(),
                        peer_id: PeerID(out_pid),
                        internal_peer_id: PeerID(i as u16),
                        channel_id: 0xFF,
                        session_id: 0,
                        reliable_sequence_number: seqno,
                        sent_time: now,
                    },
                    command: ProtocolCommand::Ping(PingCommand {  }),
                };
                let ghost entry_un = self.unack_packets@;
                let ghost entry_dg = out.datagrams@;
                self.send(ping, out);
                proof {
                    assert forall|j: int| 0 <= j < entry_dg.len() implies out.datagrams@[j]
                        == entry_dg[j] by {
                        assert(out.datagrams@.subrange(0, entry_dg.len() as int)[j]
                            == out.datagrams@[j]);
                    }
                    assert(self.unack_packets@.subrange(0, entry_un.len() as int) =~= entry_un);
                    assert forall|j: int| 0 <= j < entry_un.len() implies self.unack_packets@[j]
                        == entry_un[j] by {
                        assert(self.unack_packets@.subrange(0, entry_un.len() as int)[j]
                            == self.unack_packets@[j]);
                    }
                    assert(self.unack_packets@.last().peer_id == PeerID(i as u16));
                    assert(self.unack_packets@.len() == entry_un.len() + 1);
                    assert(cmd_like(out.datagrams@.last(), self.unack_packets@.last().command));
                }
            }
            proof {
                assert(i < 0x10000);
                assert(spec_idle_count(opeers, cfg, now, i + 1 as int) == spec_idle_count(
                    opeers,
                    cfg,
                    now,
                    i as int,
                ) + (match opeers[i as int] {
                    Some(p) => if spec_peer_idle(p, cfg, now) {
                        1int
                    } else {
                        0int
                    },
                    None => 0int,
                }));
            }
            i = i + 1;
        }
        proof {
            assert(self.unack_packets@.subrange(0, ounack.len() as int) =~= ounack);
            assert(out.datagrams@.subrange(0, odgrams.len() as int) =~= odgrams);
        }
    }
}

} // verus!
verus! {

impl Host {
    /// The time-driven part of one poll tick: retransmit what has waited
    /// too long, disconnect every peer with an entry whose retries are
    /// exhausted, then ping the idle survivors. Any peer holding an
    /// exhausted in-flight entry when the tick starts is gone when it
    /// ends, and a closing `Disconnect` has been delivered to its mailbox
    /// within this same tick.
    #[verifier::spinoff_prover]
    pub fn tick_timers(&mut self, now: u64, out: &mut HostOutputs)
        requires
            old(self).wf(),
        ensures
            final(self).wf(),
            final(self).config == old(self).config,
            final(self).next_peer == old(self).next_peer,
            old(out).deliveries@.is_prefix_of(final(out).deliveries@),
            old(out).datagrams@.is_prefix_of(final(out).datagrams@),
            // The retransmissions of the sweep stand first among the
            // datagrams this tick emits, in table order.
            final(out).datagrams@.len() >= old(out).datagrams@.len() + spec_resends(
                old(self).unack_packets@,
                old(self).config,
                now,
            ).len(),
            cmds_like(
                final(out).datagrams@.subrange(
                    old(out).datagrams@.len() as int,
                    (old(out).datagrams@.len() + spec_resends(
                        old(self).unack_packets@,
                        old(self).config,
                        now,
                    ).len()) as int,
                ),
                spec_resends(old(self).unack_packets@, old(self).config, now),
            ),
            forall|k: int|
                0 <= k < old(self).unack_packets@.len() && spec_entry_dead(
                    #[trigger] old(self).unack_packets@[k],
                    old(self).config,
                    now,
                ) ==> !final(self).spec_has_peer(old(self).unack_packets@[k].peer_id),
            forall|k: int|
                0 <= k < old(self).unack_packets@.len() && spec_entry_dead(
                    #[trigger] old(self).unack_packets@[k],
                    old(self).config,
                    now,
                ) && old(self).spec_has_peer(old(self).unack_packets@[k].peer_id)
                    ==> (exists|d: int|
                    old(out).deliveries@.len() <= d < final(out).deliveries@.len()
                        && (#[trigger] final(out).deliveries@[d]) == (Delivery {
                        peer_id: old(self).unack_packets@[k].peer_id,
                        message: HostSendEvent {
                            event: PeerRecvEvent::Disconnect,
                            channel_id: 0xFF,
                        },
                    })),
            // Afterwards nothing in flight refers to a timed-out peer;
            // every entry of a peer the sweep did not time out is still
            // there, as the sweep's per-entry update; and everything in
            // the final table is such an update or a fresh keep-alive
            // ping.
            forall|k2: int|
                0 <= k2 < final(self).unack_packets@.len() ==> !spec_timed_out_peers(
                    old(self).unack_packets@,
                    old(self).config,
                    now,
                ).contains((#[trigger] final(self).unack_packets@[k2]).peer_id),
            forall|k: int|
                0 <= k < old(self).unack_packets@.len() && !spec_timed_out_peers(
                    old(self).unack_packets@,
                    old(self).config,
                    now,
                ).contains((#[trigger] old(self).unack_packets@[k]).peer_id) ==> (exists|k2: int|
                    0 <= k2 < final(self).unack_packets@.len() && final(self).unack_packets@[k2]
                        == spec_entry_swept(old(self).unack_packets@[k], old(self).config, now)),
            forall|k2: int|
                0 <= k2 < final(self).unack_packets@.len() ==> ((exists|k: int|
                    0 <= k < old(self).unack_packets@.len()
                        && (#[trigger] final(self).unack_packets@[k2]) == spec_entry_swept(
                        old(self).unack_packets@[k],
                        old(self).config,
                        now,
                    )) || (final(self).unack_packets@[k2].retries == 0 && final(self).unack_packets@[k2].last_sent == now && (final(self).unack_packets@[k2].command.command matches ProtocolCommand::Ping(_)) && final(self).unack_packets@[k2].command.info.flags.reliable && final(self).unack_packets@[k2].command.info.channel_id == 0xFF)),
    {
        let ghost cfg = old(self).config;
        let ghost ounack = old(self).unack_packets@;
        let ghost odel = old(out).deliveries@;
        let timed_out = self.resend_missing_packets(now, out);
        let ghost base_dg = out.datagrams@;
        let ghost upd = self.unack_packets@;
        let ghost pre_disc_del = out.deliveries@;

        self.disconnect_timed_out(&timed_out, now, out, Ghost(ounack), Ghost(cfg), Ghost(upd));

        proof {
            assert forall|j: int| 0 <= j < base_dg.len() implies out.datagrams@[j]
                == base_dg[j] by {
                assert(out.datagrams@.subrange(0, base_dg.len() as int)[j] == out.datagrams@[j]);
            }
            assert forall|d: int| 0 <= d < odel.len() implies out.deliveries@[d] == odel[d] by {
                assert(out.deliveries@.subrange(0, pre_disc_del.len() as int)[d]
                    == out.deliveries@[d]);
                assert(pre_disc_del[d] == odel[d]);
            }
            assert(odel.is_prefix_of(out.deliveries@)) by {
                assert(out.deliveries@.subrange(0, odel.len() as int) =~= odel);
            }
        }
        proof {
            assert forall|k: int|
                0 <= k < ounack.len() && spec_entry_dead(#[trigger] ounack[k], cfg, now) implies !self.spec_has_peer(
                ounack[k].peer_id,
            ) by {
                lemma_timed_out_covers(ounack, cfg, now, k);
                let j = choose|j: int|
                    0 <= j < timed_out@.len() && timed_out@[j] == ounack[k].peer_id;
            }
            assert forall|k2: int| 0 <= k2 < self.unack_packets@.len() implies !timed_out@.contains(
                (#[trigger] self.unack_packets@[k2]).peer_id,
            ) by {
                if timed_out@.contains(self.unack_packets@[k2].peer_id) {
                    let j = choose|j: int|
                        0 <= j < timed_out@.len() && timed_out@[j]
                            == self.unack_packets@[k2].peer_id;
                    assert(self.unack_packets@[k2].peer_id != timed_out@[j]);
                }
            }
        }
        let ghost mid = *self;
        let ghost mid_del = out.deliveries@;
        let ghost mid_dg = out.datagrams@;
        let ghost mid_un = self.unack_packets@;

        self.send_pings(now, out);

        proof {
            assert forall|j: int| 0 <= j < mid_dg.len() implies out.datagrams@[j] == mid_dg[j] by {
                assert(out.datagrams@.subrange(0, mid_dg.len() as int)[j] == out.datagrams@[j]);
            }
            assert forall|j: int| 0 <= j < base_dg.len() implies out.datagrams@[j]
                == base_dg[j] by {
                assert(mid_dg.subrange(0, base_dg.len() as int)[j] == mid_dg[j]);
            }
            assert(out.datagrams@.subrange(
                old(out).datagrams@.len() as int,
                (old(out).datagrams@.len() + spec_resends(ounack, cfg, now).len()) as int,
            ) =~= base_dg.subrange(old(out).datagrams@.len() as int, base_dg.len() as int));
            assert(out.datagrams@.subrange(0, old(out).datagrams@.len() as int) =~= old(out).datagrams@);
        }
        proof {
            assert forall|j: int| 0 <= j < mid_un.len() implies self.unack_packets@[j]
                == mid_un[j] by {
                assert(self.unack_packets@.subrange(0, mid_un.len() as int)[j]
                    == self.unack_packets@[j]);
            }
            lemma_tick_final_table(
                ounack,
                cfg,
                now,
                timed_out@,
                upd,
                mid,
                mid_un,
                self.unack_packets@,
            );
            assert forall|p: PeerID| !mid.spec_has_peer(p) implies !(#[trigger] self.spec_has_peer(
                p,
            )) by {
                if (p.0 as int) < self.peers@.len() {
                    assert(self.peers@[p.0 as int] == (match mid.peers@[p.0 as int] {
                        Some(q) => if spec_peer_idle(q, mid.config, now) {
                            Some(
                                PeerInfo {
                                    last_msg_time: now,
                                    outgoing_reliable_sequence_number: seq_next(
                                        q.outgoing_reliable_sequence_number,
                                    ),
                                    ..q
                                },
                            )
                        } else {
                            Some(q)
                        },
                        None => None,
                    }));
                }
            }
        }
    }
}

} // verus!
verus! {

/// The command a well-formed application request translates to: data rides
/// the request's channel with the packet's own flags, keep-alives and
/// disconnects ride the system channel reliably, and the metadata is
/// stamped for the request's peer at the given time. Stated over the
/// command's abstract view, so it carries across copies.
pub open spec fn spec_request_shape(
    ev: HostRecvEvent,
    info: CommandInfo,
    cv: crate::codec::ProtocolCommandV,
    now: u64,
) -> bool {
    &&& info.internal_peer_id == ev.peer_id
    &&& info.sent_time == now
    &&& match ev.event {
        PeerSendEvent::Send(p) => {
            &&& (p.flags.reliable ==> (cv matches crate::codec::ProtocolCommandV::SendReliable {
                data,
            } && data == p.data@))
            &&& (!p.flags.reliable ==> (cv
                matches crate::codec::ProtocolCommandV::SendUnreliable { data, .. } && data
                == p.data@))
            &&& info.flags == p.flags
            &&& info.channel_id as u16 == ev.channel_id
        },
        PeerSendEvent::Ping => (cv matches crate::codec::ProtocolCommandV::Ping(_))
            && info.flags.reliable && info.channel_id == 0xFF,
        PeerSendEvent::Disconnect => (cv matches crate::codec::ProtocolCommandV::Disconnect(d)
            && d.data == 0) && info.flags.reliable && info.channel_id == 0xFF,
        PeerSendEvent::Broadcast(_) => false,
    }
}

/// The metadata a well-formed request's command is stamped with, and the
/// requester's state after stamping — exactly `new_command_info`'s work:
/// the command is addressed to the peer, carries the id the remote knows
/// us by, and takes the next number of the matching outgoing counter,
/// which advances.
pub open spec fn spec_request_stamped(
    peers_old: Seq<Option<PeerInfo>>,
    peers_new: Seq<Option<PeerInfo>>,
    ev: HostRecvEvent,
    info: CommandInfo,
    now: u64,
) -> bool {
    let pr = peers_old[ev.peer_id.0 as int]->Some_0;
    match ev.event {
        PeerSendEvent::Send(p) => {
            if ev.channel_id == 0xFF {
                let ns = seq_next(pr.outgoing_reliable_sequence_number);
                &&& info == spec_command_info(pr, ev.peer_id, 0xFF, p.flags, ns, now)
                &&& peers_new =~= peers_old.update(
                    ev.peer_id.0 as int,
                    Some(PeerInfo { outgoing_reliable_sequence_number: ns, ..pr }),
                )
            } else {
                let ch = pr.channels@[ev.channel_id as int];
                let ns = if p.flags.reliable {
                    seq_next(ch.outgoing_reliable_sequence_number)
                } else {
                    1u16
                };
                &&& info == spec_command_info(pr, ev.peer_id, ev.channel_id as u8, p.flags, ns, now)
                &&& (peers_new[ev.peer_id.0 as int] matches Some(p2) && p2 == (PeerInfo {
                    channels: p2.channels,
                    ..pr
                }) && p2.channels@ =~= pr.channels@.update(
                    ev.channel_id as int,
                    spec_channel_bumped(ch, p.flags.reliable),
                ))
            }
        },
        PeerSendEvent::Ping => {
            let ns = seq_next(pr.outgoing_reliable_sequence_number);
            &&& info == spec_command_info(
                pr,
                ev.peer_id,
                0xFF,
                PacketFlags { reliable: true, ..PacketFlags::spec_default() },
                ns,
                now,
            )
            &&& peers_new =~= peers_old.update(
                ev.peer_id.0 as int,
                Some(PeerInfo { outgoing_reliable_sequence_number: ns, ..pr }),
            )
        },
        PeerSendEvent::Disconnect => {
            let ns = seq_next(pr.outgoing_reliable_sequence_number);
            &&& info == spec_command_info(
                pr,
                ev.peer_id,
                0xFF,
                PacketFlags { reliable: true, ..PacketFlags::spec_default() },
                ns,
                now,
            )
            &&& peers_new =~= peers_old.update(
                ev.peer_id.0 as int,
                Some(PeerInfo { outgoing_reliable_sequence_number: ns, ..pr }),
            )
        },
        PeerSendEvent::Broadcast(_) => false,
    }
}

/// One datagram of a fan-out: a data command for a registered peer,
/// carrying the packet's bytes and flags on the requested channel.
pub open spec fn spec_fanout_item(
    d: Command,
    peers: Seq<Option<PeerInfo>>,
    channel_id: u16,
    flags: PacketFlags,
    data: Seq<u8>,
    now: u64,
) -> bool {
    &&& (d.info.internal_peer_id.0 as int) < peers.len()
    &&& peers[d.info.internal_peer_id.0 as int] is Some
    &&& d.info.channel_id as u16 == channel_id
    &&& d.info.flags == flags
    &&& d.info.sent_time == now
    &&& (flags.reliable ==> (d.command@ matches crate::codec::ProtocolCommandV::SendReliable {
        data: dd,
    } && dd == data))
    &&& (!flags.reliable ==> (d.command@ matches crate::codec::ProtocolCommandV::SendUnreliable {
        data: dd,
        ..
    } && dd == data))
}

/// What a host-level fan-out leaves behind in the outgoing datagrams when
/// `ok`: one data command per registered peer, every one carrying the
/// packet's bytes and flags on the requested channel.
pub open spec fn spec_fanout_post(
    peers: Seq<Option<PeerInfo>>,
    odg: Seq<Command>,
    fdg: Seq<Command>,
    channel_id: u16,
    flags: PacketFlags,
    data: Seq<u8>,
    now: u64,
    ok: bool,
) -> bool {
    &&& (ok ==> fdg.len() - odg.len() == spec_registered_count(peers, peers.len() as int))
    &&& (forall|j: int|
        odg.len() <= j < fdg.len() ==> spec_fanout_item(
            #[trigger] fdg[j],
            peers,
            channel_id,
            flags,
            data,
            now,
        ))
    &&& (ok ==> (forall|q: int|
        0 <= q < peers.len() && peers[q] is Some ==> (exists|j: int|
            odg.len() <= j < fdg.len() && (#[trigger] fdg[j]).info.internal_peer_id == PeerID(
                q as u16,
            ))))
}

/// How many peer slots below `upto` are occupied by a peer other than
/// `requester`: the recipients of a broadcast.
pub open spec fn spec_other_peer_count(
    peers: Seq<Option<PeerInfo>>,
    requester: PeerID,
    upto: int,
) -> int
    decreases upto,
{
    if upto <= 0 {
        0
    } else {
        spec_other_peer_count(peers, requester, upto - 1) + (
        if peers[upto - 1] is Some && upto - 1 != requester.0 as int {
            1int
        } else {
            0int
        })
    }
}

/// How many peer slots below `upto` are occupied at all.
pub open spec fn spec_registered_count(peers: Seq<Option<PeerInfo>>, upto: int) -> int
    decreases upto,
{
    if upto <= 0 {
        0
    } else {
        spec_registered_count(peers, upto - 1) + (if peers[upto - 1] is Some {
            1int
        } else {
            0int
        })
    }
}

impl HostRecvEvent {
    /// Translate an application request into the wire command to send:
    /// data goes out as `SendReliable` or `SendUnreliable` with the
    /// packet's own flags, keep-alives and disconnects as reliable system
    /// commands on channel 0xFF; the metadata is stamped (and the matching
    /// outgoing counter advanced) by `new_command_info`. A send whose
    /// channel the peer does not have fails, leaving the peer untouched.
    /// A `Broadcast` request has no single command and is refused; the
    /// host fans it out itself.
    pub fn to_command(&self, host: &mut Host, now: u64) -> (r: Result<Command, ENetError>)
        requires
            old(host).wf(),
        ensures
            final(host).wf(),
            final(host).config == old(host).config,
            final(host).next_peer == old(host).next_peer,
            final(host).unack_packets == old(host).unack_packets,
            final(host).peers@.len() == old(host).peers@.len(),
            forall|i: int|
                0 <= i < old(host).peers@.len() && i != self.peer_id.0 as int ==> final(host).peers@[i] == old(host).peers@[i],
            forall|i: int|
                0 <= i < old(host).peers@.len() ==> ((#[trigger] final(host).peers@[i]) is Some
                    <==> old(host).peers@[i] is Some),
            self.event matches PeerSendEvent::Broadcast(_) ==> final(host).peers@ =~= old(host).peers@ && r == Err::<Command, ENetError>(ENetError::UnexpectedPacketType),
            !(self.event matches PeerSendEvent::Broadcast(_)) && !old(host).spec_has_peer(
                self.peer_id,
            ) ==> final(host).peers@ =~= old(host).peers@ && r == Err::<Command, ENetError>(
                ENetError::InvalidPeerId(self.peer_id),
            ),
            // Success is owed on every well-formed request; a send's
            // channel must exist and fit the 8-bit wire field.
            old(host).spec_has_peer(self.peer_id) ==> ({
                let pr = old(host).spec_peer(self.peer_id)->Some_0;
                match self.event {
                    PeerSendEvent::Send(p) => {
                        &&& ((self.channel_id as int) < pr.channels@.len() && self.channel_id
                            <= 0xFF ==> r is Ok)
                        &&& ((self.channel_id as int) >= pr.channels@.len() ==> (final(host).peers@ =~= old(host).peers@ && r == Err::<Command, ENetError>(
                            ENetError::InvalidChannelId(self.channel_id),
                        )))
                        &&& ((self.channel_id as int) < pr.channels@.len() && self.channel_id
                            > 0xFF ==> (final(host).peers@ =~= old(host).peers@ && r == Err::<
                            Command,
                            ENetError,
                        >(ENetError::IntConversion)))
                        &&& (!p.flags.reliable && r is Ok ==> (r->Ok_0.command
                            matches ProtocolCommand::SendUnreliable(u)
                            && u.unreliable_sequence_number == (if self.channel_id == 0xFF {
                            1u16
                        } else {
                            seq_next(
                                pr.channels@[self.channel_id as int].outgoing_unreliable_sequence_number,
                            )
                        })))
                    },
                    PeerSendEvent::Ping => r is Ok,
                    PeerSendEvent::Disconnect => r is Ok,
                    PeerSendEvent::Broadcast(_) => true,
                }
            }),
            r matches Ok(cmd) ==> spec_request_shape(*self, cmd.info, cmd.command@, now),
            r is Ok && old(host).spec_has_peer(self.peer_id) ==> spec_request_stamped(
                old(host).peers@,
                final(host).peers@,
                *self,
                r->Ok_0.info,
                now,
            ),
    {
        match &self.event {
            PeerSendEvent::Broadcast(_) => Err(ENetError::UnexpectedPacketType),
            PeerSendEvent::Send(p) => {
                let idx = self.peer_id.0 as usize;
                if idx >= host.peers.len() {
                    return Err(ENetError::InvalidPeerId(self.peer_id));
                }
                let unreliable_seq = match &host.peers[idx] {
                    Some(peer) => {
                        if (self.channel_id as usize) >= peer.channels.len() {
                            return Err(ENetError::InvalidChannelId(self.channel_id));
                        }
                        if self.channel_id == 0xFF {
                            // System-channel sends use the peer-level
                            // reliable counter; the unreliable counter has
                            // no channel to live on.
                            1
                        } else {
                            wrapping_inc(
                                peer.channels[self.channel_id as usize].outgoing_unreliable_sequence_number,
                            )
                        }
                    },
                    None => {
                        return Err(ENetError::InvalidPeerId(self.peer_id));
                    },
                };
                let command = if p.flags.reliable {
                    ProtocolCommand::SendReliable(
                        SendReliableCommand { data: clone_bytes(&p.data) },
                    )
                } else {
                    ProtocolCommand::SendUnreliable(
                        SendUnreliableCommand {
                            unreliable_sequence_number: unreliable_seq,
                            data: clone_bytes(&p.data),
                        },
                    )
                };
                let info = host.new_command_info(self.peer_id, self.channel_id, p.flags, now)?;
                Ok(Command { info, command })
            },
            PeerSendEvent::Ping => {
                let info = host.new_command_info(
                    self.peer_id,
                    0xFF,
                    PacketFlags::reliable(),
                    now,
                )?;
                Ok(Command { info, command: ProtocolCommand::Ping(PingCommand {  }) })
            },
            PeerSendEvent::Disconnect => {
                let info = host.new_command_info(
                    self.peer_id,
                    0xFF,
                    PacketFlags::reliable(),
                    now,
                )?;
                Ok(
                    Command {
                        info,
                        command: ProtocolCommand::Disconnect(DisconnectCommand { data: 0 }),
                    },
                )
            },
        }
    }
}

impl Host {
    /// Serve one application request: translate it to a wire command and
    /// send it; success is owed whenever the request names a registered
    /// peer and, for data, a channel the peer has. A `Broadcast` is
    /// expanded into one `Send` per registered peer other than the
    /// requester, each carrying the packet's bytes.
    pub fn handle_outgoing_command(
        &mut self,
        event: &HostRecvEvent,
        now: u64,
        out: &mut HostOutputs,
    ) -> (r: Result<HostPollEvent, ENetError>)
        requires
            old(self).wf(),
        ensures
            final(self).wf(),
            final(self).config == old(self).config,
            final(self).next_peer == old(self).next_peer,
            final(out).deliveries@ == old(out).deliveries@,
            old(out).datagrams@.is_prefix_of(final(out).datagrams@),
            r matches Ok(ev) ==> ev == HostPollEvent::NoEvent,
            !(event.event matches PeerSendEvent::Broadcast(_)) ==> ({
                &&& (r is Ok ==> final(out).datagrams@.len() == old(out).datagrams@.len() + 1
                    && spec_request_shape(
                    *event,
                    final(out).datagrams@.last().info,
                    final(out).datagrams@.last().command@,
                    now,
                ))
                &&& (r is Err ==> final(out).datagrams@ == old(out).datagrams@)
                &&& (!old(self).spec_has_peer(event.peer_id) ==> r == Err::<
                    HostPollEvent,
                    ENetError,
                >(ENetError::InvalidPeerId(event.peer_id)))
                &&& (old(self).spec_has_peer(event.peer_id) ==> ({
                    let pr = old(self).spec_peer(event.peer_id)->Some_0;
                    match event.event {
                        PeerSendEvent::Send(_) => (event.channel_id as int) < pr.channels@.len()
                            && event.channel_id <= 0xFF ==> r is Ok,
                        PeerSendEvent::Ping => r is Ok,
                        PeerSendEvent::Disconnect => r is Ok,
                        PeerSendEvent::Broadcast(_) => true,
                    }
                }))
                // The one datagram is stamped exactly as `new_command_info`
                // stamps it, and a reliable one is recorded in flight.
                &&& (r is Ok && old(self).spec_has_peer(event.peer_id) ==> ({
                    let d = final(out).datagrams@.last();
                    &&& spec_request_stamped(
                        old(self).peers@,
                        final(self).peers@,
                        *event,
                        d.info,
                        now,
                    )
                    &&& (d.info.flags.reliable ==> final(self).unack_packets@.len() == old(self).unack_packets@.len() + 1 && final(self).unack_packets@.last() == (
                    UnAckPacket {
                        last_sent: now,
                        peer_id: event.peer_id,
                        retries: 0,
                        command: final(self).unack_packets@.last().command,
                    }) && final(self).unack_packets@.last().command.info == d.info && final(self).unack_packets@.last().command.command@ == d.command@)
                    &&& (!d.info.flags.reliable ==> final(self).unack_packets@ == old(self).unack_packets@)
                }))
            }),
            // A broadcast is owed success when every other registered
            // peer has the requested channel.
            event.event matches PeerSendEvent::Broadcast(_) && event.channel_id <= 0xFF && (
            forall|q: int|
                0 <= q < old(self).peers@.len() && (#[trigger] old(self).peers@[q]) is Some && q
                    != event.peer_id.0 as int ==> (event.channel_id as int) < old(self).peers@[q]->Some_0.channels@.len()) ==> r is Ok,
            // A broadcast reaches exactly the other registered peers.
            event.event matches PeerSendEvent::Broadcast(p) ==> ({
                &&& (r is Ok ==> final(out).datagrams@.len() - old(out).datagrams@.len()
                    == spec_other_peer_count(
                    old(self).peers@,
                    event.peer_id,
                    old(self).peers@.len() as int,
                ))
                &&& (forall|j: int|
                    old(out).datagrams@.len() <= j < final(out).datagrams@.len()
                        ==> spec_fanout_item(
                        #[trigger] final(out).datagrams@[j],
                        old(self).peers@,
                        event.channel_id,
                        p.flags,
                        p.data@,
                        now,
                    ) && final(out).datagrams@[j].info.internal_peer_id != event.peer_id)
                &&& (r is Ok ==> (forall|q: int|
                    0 <= q < old(self).peers@.len() && old(self).peers@[q] is Some && q
                        != event.peer_id.0 as int ==> (exists|j: int|
                        old(out).datagrams@.len() <= j < final(out).datagrams@.len()
                            && (#[trigger] final(out).datagrams@[j]).info.internal_peer_id
                            == PeerID(q as u16))))
            }),
    {
        match &event.event {
            PeerSendEvent::Broadcast(p) => {
                let ghost opeers = old(self).peers@;
                let ghost odgrams = old(out).datagrams@;
                let n = self.peers.len();
                let mut i: usize = 0;
                while i < n
                    invariant
                        self.wf(),
                        opeers == old(self).peers@,
                        odgrams == old(out).datagrams@,
                        n as int == opeers.len(),
                        i <= n,
                        self.config == old(self).config,
                        self.next_peer == old(self).next_peer,
                        out.deliveries@ == old(out).deliveries@,
                        odgrams.is_prefix_of(out.datagrams@),
                        self.peers@.len() == opeers.len(),
                        forall|k: int|
                            0 <= k < opeers.len() ==> ((#[trigger] self.peers@[k]) is Some
                                <==> opeers[k] is Some),
                        forall|k: int|
                            0 <= k < opeers.len() && (#[trigger] self.peers@[k]) is Some
                                ==> self.peers@[k]->Some_0.channels@.len()
                                == opeers[k]->Some_0.channels@.len(),
                        event.event matches PeerSendEvent::Broadcast(pp) && pp == *p,
                        out.datagrams@.len() == odgrams.len() + spec_other_peer_count(
                            opeers,
                            event.peer_id,
                            i as int,
                        ),
                        forall|j: int|
                            odgrams.len() <= j < out.datagrams@.len() ==> spec_fanout_item(
                                #[trigger] out.datagrams@[j],
                                opeers,
                                event.channel_id,
                                p.flags,
                                p.data@,
                                now,
                            ) && out.datagrams@[j].info.internal_peer_id != event.peer_id,
                        forall|q: int|
                            0 <= q < i as int && opeers[q] is Some && q != event.peer_id.0 as int
                                ==> (exists|j: int|
                                odgrams.len() <= j < out.datagrams@.len()
                                    && (#[trigger] out.datagrams@[j]).info.internal_peer_id
                                    == PeerID(q as u16)),
                    decreases n - i,
                {
                    let ghost entry_dg = out.datagrams@;
                    let present = self.peers[i].is_some();
                    if present && i as u16 != event.peer_id.0 {
                        let forwarded = HostRecvEvent {
                            event: PeerSendEvent::Send(
                                Packet {
                                    data: clone_bytes(&p.data),
                                    channel: p.channel,
                                    flags: p.flags,
                                },
                            ),
                            peer_id: PeerID(i as u16),
                            channel_id: event.channel_id,
                        };
                        let command = forwarded.to_command(self, now)?;
                        self.send(command, out);
                        proof {
                            assert forall|j: int| 0 <= j < entry_dg.len() implies out.datagrams@[j]
                                == entry_dg[j] by {
                                assert(out.datagrams@.subrange(0, entry_dg.len() as int)[j]
                                    == out.datagrams@[j]);
                            }
                            assert(spec_request_shape(
                                forwarded,
                                out.datagrams@.last().info,
                                out.datagrams@.last().command@,
                                now,
                            ));
                            assert(i < 0x10000);
                            assert(spec_fanout_item(
                                out.datagrams@.last(),
                                opeers,
                                event.channel_id,
                                p.flags,
                                p.data@,
                                now,
                            ));
                            assert(out.datagrams@.last().info.internal_peer_id
                                != event.peer_id);
                            assert(out.datagrams@.len() == entry_dg.len() + 1);
                        }
                    }
                    proof {
                        assert(out.datagrams@.subrange(0, odgrams.len() as int) =~= odgrams);
                        assert forall|j: int|
                            odgrams.len() <= j < out.datagrams@.len() implies spec_fanout_item(
                            #[trigger] out.datagrams@[j],
                            opeers,
                            event.channel_id,
                            p.flags,
                            p.data@,
                            now,
                        ) && out.datagrams@[j].info.internal_peer_id != event.peer_id by {
                            if j < entry_dg.len() {
                                assert(out.datagrams@[j] == entry_dg[j]);
                                assert(spec_fanout_item(
                                    entry_dg[j],
                                    opeers,
                                    event.channel_id,
                                    p.flags,
                                    p.data@,
                                    now,
                                ) && entry_dg[j].info.internal_peer_id != event.peer_id);
                            } else {
                                assert(j == out.datagrams@.len() - 1);
                                assert(out.datagrams@[j] == out.datagrams@.last());
                            }
                        }
                        assert(i < 0x10000);
                        assert(spec_other_peer_count(opeers, event.peer_id, i + 1 as int)
                            == spec_other_peer_count(opeers, event.peer_id, i as int) + (
                        if opeers[i as int] is Some && i as int != event.peer_id.0 as int {
                            1int
                        } else {
                            0int
                        }));
                    }
                    i = i + 1;
                }
                proof {
                    assert(out.datagrams@.subrange(0, odgrams.len() as int) =~= odgrams);
                }
                Ok(HostPollEvent::NoEvent)
            },
            _ => {
                let command = event.to_command(self, now)?;
                let ghost cinfo = command.info;
                let ghost ccv = command.command@;
                let ghost mid_peers = self.peers@;
                let ghost pre_un = self.unack_packets@;
                self.send(command, out);
                proof {
                    assert(out.datagrams@.subrange(0, old(out).datagrams@.len() as int) =~= old(out).datagrams@);
                    assert(out.datagrams@.last().info == cinfo);
                    assert(out.datagrams@.last().command@ == ccv);
                    assert(self.peers@ == mid_peers);
                    if cinfo.flags.reliable {
                        assert(self.unack_packets@.len() == pre_un.len() + 1);
                        assert(self.unack_packets@.last().last_sent == cinfo.sent_time);
                        assert(self.unack_packets@.last().peer_id == cinfo.internal_peer_id);
                        assert(self.unack_packets@.last().retries == 0);
                        assert(self.unack_packets@.last().command.info == cinfo);
                        assert(self.unack_packets@.last().command.command@ == ccv);
                    }
                }
                Ok(HostPollEvent::NoEvent)
            },
        }
    }

    /// Serve one request for every registered peer: the host-level fan-out
    /// behind a broadcast handle call. Carries only data requests; every
    /// registered peer — the requester included — receives the packet.
    #[verifier::rlimit(100)]
    pub fn broadcast(&mut self, event: &HostRecvEvent, now: u64, out: &mut HostOutputs) -> (r:
        Result<(), ENetError>)
        requires
            old(self).wf(),
        ensures
            final(self).wf(),
            final(self).config == old(self).config,
            final(self).next_peer == old(self).next_peer,
            final(out).deliveries@ == old(out).deliveries@,
            old(out).datagrams@.is_prefix_of(final(out).datagrams@),
            !(event.event matches PeerSendEvent::Send(_)) && !(event.event
                matches PeerSendEvent::Broadcast(_)) ==> final(out).datagrams@ == old(out).datagrams@ && r == Err::<(), ENetError>(ENetError::UnexpectedPacketType),
            // Success is owed when every registered peer has the channel.
            (event.event matches PeerSendEvent::Send(_) || event.event
                matches PeerSendEvent::Broadcast(_)) && event.channel_id <= 0xFF && (forall|
                q: int,
            |
                0 <= q < old(self).peers@.len() && (#[trigger] old(self).peers@[q]) is Some
                    ==> (event.channel_id as int) < old(self).peers@[q]->Some_0.channels@.len())
                ==> r is Ok,
            event.event matches PeerSendEvent::Send(p) ==> spec_fanout_post(
                old(self).peers@,
                old(out).datagrams@,
                final(out).datagrams@,
                event.channel_id,
                p.flags,
                p.data@,
                now,
                r is Ok,
            ),
            event.event matches PeerSendEvent::Broadcast(p) ==> spec_fanout_post(
                old(self).peers@,
                old(out).datagrams@,
                final(out).datagrams@,
                event.channel_id,
                p.flags,
                p.data@,
                now,
                r is Ok,
            ),
    {
        let packet = match &event.event {
            PeerSendEvent::Send(p) => Packet {
                data: clone_bytes(&p.data),
                channel: p.channel,
                flags: p.flags,
            },
            PeerSendEvent::Broadcast(p) => Packet {
                data: clone_bytes(&p.data),
                channel: p.channel,
                flags: p.flags,
            },
            _ => {
                return Err(ENetError::UnexpectedPacketType);
            },
        };
        let ghost opeers = old(self).peers@;
        let ghost odgrams = old(out).datagrams@;
        let ghost pdata = packet.data@;
        let n = self.peers.len();
        let mut i: usize = 0;
        while i < n
            invariant
                self.wf(),
                opeers == old(self).peers@,
                odgrams == old(out).datagrams@,
                n as int == opeers.len(),
                i <= n,
                self.config == old(self).config,
                self.next_peer == old(self).next_peer,
                out.deliveries@ == old(out).deliveries@,
                odgrams.is_prefix_of(out.datagrams@),
                self.peers@.len() == opeers.len(),
                forall|k: int|
                    0 <= k < opeers.len() ==> ((#[trigger] self.peers@[k]) is Some <==> opeers[k]
                        is Some),
                forall|k: int|
                    0 <= k < opeers.len() && (#[trigger] self.peers@[k]) is Some
                        ==> self.peers@[k]->Some_0.channels@.len()
                        == opeers[k]->Some_0.channels@.len(),
                packet.data@ == pdata,
                (event.event matches PeerSendEvent::Send(p) && p.data@ == pdata && packet.flags
                    == p.flags) || (event.event matches PeerSendEvent::Broadcast(p) && p.data@
                    == pdata && packet.flags == p.flags),
                out.datagrams@.len() == odgrams.len() + spec_registered_count(opeers, i as int),
                forall|j: int|
                    odgrams.len() <= j < out.datagrams@.len() ==> spec_fanout_item(
                        #[trigger] out.datagrams@[j],
                        opeers,
                        event.channel_id,
                        packet.flags,
                        pdata,
                        now,
                    ),
                forall|q: int|
                    0 <= q < i as int && opeers[q] is Some ==> (exists|j: int|
                        odgrams.len() <= j < out.datagrams@.len()
                            && (#[trigger] out.datagrams@[j]).info.internal_peer_id == PeerID(
                            q as u16,
                        )),
            decreases n - i,
        {
            let ghost entry_dg = out.datagrams@;
            let present = self.peers[i].is_some();
            if present {
                let forwarded = HostRecvEvent {
                    event: PeerSendEvent::Send(
                        Packet {
                            data: clone_bytes(&packet.data),
                            channel: packet.channel,
                            flags: packet.flags,
                        },
                    ),
                    peer_id: PeerID(i as u16),
                    channel_id: event.channel_id,
                };
                let command = forwarded.to_command(self, now)?;
                self.send(command, out);
                proof {
                    assert forall|j: int| 0 <= j < entry_dg.len() implies out.datagrams@[j]
                        == entry_dg[j] by {
                        assert(out.datagrams@.subrange(0, entry_dg.len() as int)[j]
                            == out.datagrams@[j]);
                    }
                    assert(spec_request_shape(
                        forwarded,
                        out.datagrams@.last().info,
                        out.datagrams@.last().command@,
                        now,
                    ));
                    assert(i < 0x10000);
                    assert(spec_fanout_item(
                        out.datagrams@.last(),
                        opeers,
                        event.channel_id,
                        packet.flags,
                        pdata,
                        now,
                    ));
                    assert(out.datagrams@.len() == entry_dg.len() + 1);
                }
            }
            proof {
                assert(out.datagrams@.subrange(0, odgrams.len() as int) =~= odgrams);
                assert forall|j: int|
                    odgrams.len() <= j < out.datagrams@.len() implies spec_fanout_item(
                    #[trigger] out.datagrams@[j],
                    opeers,
                    event.channel_id,
                    packet.flags,
                    pdata,
                    now,
                ) by {
                    if j < entry_dg.len() {
                        assert(out.datagrams@[j] == entry_dg[j]);
                        assert(spec_fanout_item(
                            entry_dg[j],
                            opeers,
                            event.channel_id,
                            packet.flags,
                            pdata,
                            now,
                        ));
                    } else {
                        assert(j == out.datagrams@.len() - 1);
                        assert(out.datagrams@[j] == out.datagrams@.last());
                    }
                }
                assert(spec_registered_count(opeers, i + 1 as int) == spec_registered_count(
                    opeers,
                    i as int,
                ) + (if opeers[i as int] is Some {
                    1int
                } else {
                    0int
                }));
            }
            i = i + 1;
        }
        proof {
            assert(out.datagrams@.subrange(0, odgrams.len() as int) =~= odgrams);
        }
        Ok(())
    }
}

/// Accepted reliable deliveries carry strictly consecutive sequence
/// numbers: if a peer's channel accepts a reliable command numbered
/// `seq1` — advancing its incoming counter there, as `preprocess_packet`
/// ensures — then whatever reliable command that channel accepts next is
/// numbered exactly `seq1 + 1` modulo 2^16.
pub proof fn lemma_reliable_delivery_monotonic(
    before: Host,
    after: Host,
    peer: PeerID,
    channel_id: u8,
    seq1: u16,
    seq2: u16,
)
    requires
        before.spec_has_peer(peer),
        after.spec_has_peer(peer),
        spec_accepts_reliable_seq(before.spec_peer(peer)->Some_0, channel_id, seq1),
        // The state after the first acceptance: the matching incoming
        // counter stands at the accepted number.
        (if channel_id == 0xFF {
            after.spec_peer(peer)->Some_0.incoming_reliable_sequence_number == seq1
        } else {
            (channel_id as int) < after.spec_peer(peer)->Some_0.channels@.len() && after.spec_peer(
                peer,
            )->Some_0.channels@[channel_id as int].incoming_reliable_sequence_number == seq1
        }),
        spec_accepts_reliable_seq(after.spec_peer(peer)->Some_0, channel_id, seq2),
    ensures
        seq2 == seq_next(seq1),
{
}

} // verus!
