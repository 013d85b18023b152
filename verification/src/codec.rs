use vstd::prelude::*;
use crate::error::{ENetError, EncodingError};
use crate::peer::PeerID;
use crate::protocol::{
    AcknowledgeCommand, BandwidthLimitCommand, Command, CommandInfo, ConnectCommand,
    DisconnectCommand, PacketFlags, PeerAddress, PingCommand, ProtocolCommand,
    SendFragmentCommand, SendReliableCommand, SendUnreliableCommand,
    SendUnreliableFragmentCommand, SendUnsequencedCommand, ThrottleConfigureCommand,
    VerifyConnectCommand,
};
use crate::time::PacketTime;

verus! {

// ============================================================================
// The abstract form of a command: payload bytes as mathematical sequences.
// ============================================================================

/// The mathematical form of a `ProtocolCommand`: identical in shape, with
/// variable-length payloads abstracted to byte sequences.
pub enum ProtocolCommandV {
    NoCommand,
    Ack(AcknowledgeCommand),
    Connect(ConnectCommand),
    VerifyConnect(VerifyConnectCommand),
    Disconnect(DisconnectCommand),
    Ping(PingCommand),
    SendReliable { data: Seq<u8> },
    SendUnreliable { unreliable_sequence_number: u16, data: Seq<u8> },
    SendFragment {
        start_sequence_number: u16,
        data_length: u16,
        fragment_count: u32,
        fragment_number: u32,
        total_length: u32,
        fragment_offset: u32,
        data: Seq<u8>,
    },
    SendUnsequenced { unsequenced_group: u16, data: Seq<u8> },
    BandwidthLimit(BandwidthLimitCommand),
    ThrottleConfigure(ThrottleConfigureCommand),
    SendUnreliableFragment {
        start_sequence_number: u16,
        data_length: u16,
        fragment_count: u32,
        fragment_number: u32,
        total_length: u32,
        fragment_offset: u32,
        data: Seq<u8>,
    },
    Count,
}

/// The mathematical form of a `Command`.
pub struct CommandV {
    pub info: CommandInfo,
    pub command: ProtocolCommandV,
}

impl View for ProtocolCommand {
    type V = ProtocolCommandV;

    open spec fn view(&self) -> ProtocolCommandV {
        match self {
            ProtocolCommand::NoCommand => ProtocolCommandV::NoCommand,
            ProtocolCommand::Ack(a) => ProtocolCommandV::Ack(*a),
            ProtocolCommand::Connect(c) => ProtocolCommandV::Connect(*c),
            ProtocolCommand::VerifyConnect(c) => ProtocolCommandV::VerifyConnect(*c),
            ProtocolCommand::Disconnect(d) => ProtocolCommandV::Disconnect(*d),
            ProtocolCommand::Ping(p) => ProtocolCommandV::Ping(*p),
            ProtocolCommand::SendReliable(s) => ProtocolCommandV::SendReliable { data: s.data@ },
            ProtocolCommand::SendUnreliable(s) => ProtocolCommandV::SendUnreliable {
                unreliable_sequence_number: s.unreliable_sequence_number,
                data: s.data@,
            },
            ProtocolCommand::SendFragment(f) => ProtocolCommandV::SendFragment {
                start_sequence_number: f.start_sequence_number,
                data_length: f.data_length,
                fragment_count: f.fragment_count,
                fragment_number: f.fragment_number,
                total_length: f.total_length,
                fragment_offset: f.fragment_offset,
                data: f.data@,
            },
            ProtocolCommand::SendUnsequenced(s) => ProtocolCommandV::SendUnsequenced {
                unsequenced_group: s.unsequenced_group,
                data: s.data@,
            },
            ProtocolCommand::BandwidthLimit(b) => ProtocolCommandV::BandwidthLimit(*b),
            ProtocolCommand::ThrottleConfigure(t) => ProtocolCommandV::ThrottleConfigure(*t),
            ProtocolCommand::SendUnreliableFragment(f) => {
                ProtocolCommandV::SendUnreliableFragment {
                    start_sequence_number: f.start_sequence_number,
                    data_length: f.data_length,
                    fragment_count: f.fragment_count,
                    fragment_number: f.fragment_number,
                    total_length: f.total_length,
                    fragment_offset: f.fragment_offset,
                    data: f.data@,
                }
            },
            ProtocolCommand::Count => ProtocolCommandV::Count,
        }
    }
}

impl View for Command {
    type V = CommandV;

    open spec fn view(&self) -> CommandV {
        CommandV { info: self.info, command: self.command@ }
    }
}

// ============================================================================
// Big-endian byte layout, as spec functions.
// ============================================================================

/// The high byte of a big-endian `u16`.
pub open spec fn b16_0(v: u16) -> u8 {
    ((v >> 8) & 0xFF) as u8
}

/// The low byte of a big-endian `u16`.
pub open spec fn b16_1(v: u16) -> u8 {
    (v & 0xFF) as u8
}

pub open spec fn b32_0(v: u32) -> u8 {
    ((v >> 24) & 0xFF) as u8
}

pub open spec fn b32_1(v: u32) -> u8 {
    ((v >> 16) & 0xFF) as u8
}

pub open spec fn b32_2(v: u32) -> u8 {
    ((v >> 8) & 0xFF) as u8
}

pub open spec fn b32_3(v: u32) -> u8 {
    (v & 0xFF) as u8
}

/// A `u16` laid out big-endian.
pub open spec fn be16(v: u16) -> Seq<u8> {
    seq![b16_0(v), b16_1(v)]
}

/// A `u32` laid out big-endian.
pub open spec fn be32(v: u32) -> Seq<u8> {
    seq![b32_0(v), b32_1(v), b32_2(v), b32_3(v)]
}

/// The big-endian `u16` read back from two adjacent bytes.
pub open spec fn r16(b: Seq<u8>, i: int) -> u16 {
    (((b[i] as u16) << 8) | (b[i + 1] as u16)) as u16
}

/// The big-endian `u32` read back from four adjacent bytes.
pub open spec fn r32(b: Seq<u8>, i: int) -> u32 {
    ((((b[i] as u32) << 24) | ((b[i + 1] as u32) << 16) | ((b[i + 2] as u32) << 8) | (b[i
        + 3] as u32)) as u32)
}

/// A length-prefixed byte block: a 16-bit length, then the bytes.
pub open spec fn spec_block(data: Seq<u8>) -> Seq<u8> {
    be16(data.len() as u16) + data
}

// ============================================================================
// Payload layout per command.
// ============================================================================

/// The wire id of each command variant.
pub open spec fn spec_command_id(c: ProtocolCommandV) -> u8 {
    match c {
        ProtocolCommandV::NoCommand => 0,
        ProtocolCommandV::Ack(_) => 1,
        ProtocolCommandV::Connect(_) => 2,
        ProtocolCommandV::VerifyConnect(_) => 3,
        ProtocolCommandV::Disconnect(_) => 4,
        ProtocolCommandV::Ping(_) => 5,
        ProtocolCommandV::SendReliable { .. } => 6,
        ProtocolCommandV::SendUnreliable { .. } => 7,
        ProtocolCommandV::SendFragment { .. } => 8,
        ProtocolCommandV::SendUnsequenced { .. } => 9,
        ProtocolCommandV::BandwidthLimit(_) => 10,
        ProtocolCommandV::ThrottleConfigure(_) => 11,
        ProtocolCommandV::SendUnreliableFragment { .. } => 12,
        ProtocolCommandV::Count => 13,
    }
}

/// Whether a command's variable-length payloads fit their 16-bit wire
/// length fields.
pub open spec fn spec_payload_encodable(c: ProtocolCommandV) -> bool {
    match c {
        ProtocolCommandV::SendReliable { data } => data.len() <= 0xFFFF,
        ProtocolCommandV::SendUnreliable { data, .. } => data.len() <= 0xFFFF,
        ProtocolCommandV::SendFragment { data, .. } => data.len() <= 0xFFFF,
        ProtocolCommandV::SendUnsequenced { data, .. } => data.len() <= 0xFFFF,
        ProtocolCommandV::SendUnreliableFragment { data, .. } => data.len() <= 0xFFFF,
        _ => true,
    }
}

/// The payload bytes of a command, after its 4-byte command header.
pub open spec fn spec_payload(c: ProtocolCommandV) -> Seq<u8> {
    match c {
        ProtocolCommandV::NoCommand => Seq::<u8>::empty(),
        ProtocolCommandV::Ack(a) => seq![
            b16_0(a.received_reliable_sequence_number),
            b16_1(a.received_reliable_sequence_number),
            b16_0(a.received_sent_time.0),
            b16_1(a.received_sent_time.0),
        ],
        ProtocolCommandV::Connect(c) => seq![
            b16_0(c.outgoing_peer_id), b16_1(c.outgoing_peer_id),
            c.incoming_session_id, c.outgoing_session_id,
            b32_0(c.mtu), b32_1(c.mtu), b32_2(c.mtu), b32_3(c.mtu),
            b32_0(c.window_size), b32_1(c.window_size), b32_2(c.window_size), b32_3(c.window_size),
            b32_0(c.channel_count), b32_1(c.channel_count), b32_2(c.channel_count), b32_3(c.channel_count),
            b32_0(c.incoming_bandwidth), b32_1(c.incoming_bandwidth), b32_2(c.incoming_bandwidth), b32_3(c.incoming_bandwidth),
            b32_0(c.outgoing_bandwidth), b32_1(c.outgoing_bandwidth), b32_2(c.outgoing_bandwidth), b32_3(c.outgoing_bandwidth),
            b32_0(c.packet_throttle_interval), b32_1(c.packet_throttle_interval), b32_2(c.packet_throttle_interval), b32_3(c.packet_throttle_interval),
            b32_0(c.packet_throttle_acceleration), b32_1(c.packet_throttle_acceleration), b32_2(c.packet_throttle_acceleration), b32_3(c.packet_throttle_acceleration),
            b32_0(c.packet_throttle_deceleration), b32_1(c.packet_throttle_deceleration), b32_2(c.packet_throttle_deceleration), b32_3(c.packet_throttle_deceleration),
            b32_0(c.connect_id), b32_1(c.connect_id), b32_2(c.connect_id), b32_3(c.connect_id),
            b32_0(c.data), b32_1(c.data), b32_2(c.data), b32_3(c.data),
        ],
        ProtocolCommandV::VerifyConnect(c) => seq![
            b16_0(c.outgoing_peer_id), b16_1(c.outgoing_peer_id),
            c.incoming_session_id, c.outgoing_session_id,
            b32_0(c.mtu), b32_1(c.mtu), b32_2(c.mtu), b32_3(c.mtu),
            b32_0(c.window_size), b32_1(c.window_size), b32_2(c.window_size), b32_3(c.window_size),
            b32_0(c.channel_count), b32_1(c.channel_count), b32_2(c.channel_count), b32_3(c.channel_count),
            b32_0(c.incoming_bandwidth), b32_1(c.incoming_bandwidth), b32_2(c.incoming_bandwidth), b32_3(c.incoming_bandwidth),
            b32_0(c.outgoing_bandwidth), b32_1(c.outgoing_bandwidth), b32_2(c.outgoing_bandwidth), b32_3(c.outgoing_bandwidth),
            b32_0(c.packet_throttle_interval), b32_1(c.packet_throttle_interval), b32_2(c.packet_throttle_interval), b32_3(c.packet_throttle_interval),
            b32_0(c.packet_throttle_acceleration), b32_1(c.packet_throttle_acceleration), b32_2(c.packet_throttle_acceleration), b32_3(c.packet_throttle_acceleration),
            b32_0(c.packet_throttle_deceleration), b32_1(c.packet_throttle_deceleration), b32_2(c.packet_throttle_deceleration), b32_3(c.packet_throttle_deceleration),
            b32_0(c.connect_id), b32_1(c.connect_id), b32_2(c.connect_id), b32_3(c.connect_id),
        ],
        ProtocolCommandV::Disconnect(d) => seq![
            b32_0(d.data), b32_1(d.data), b32_2(d.data), b32_3(d.data),
        ],
        ProtocolCommandV::Ping(_) => Seq::<u8>::empty(),
        ProtocolCommandV::SendReliable { data } => spec_block(data),
        ProtocolCommandV::SendUnreliable { unreliable_sequence_number, data } => seq![
            b16_0(unreliable_sequence_number), b16_1(unreliable_sequence_number),
        ] + spec_block(data),
        ProtocolCommandV::SendFragment {
            start_sequence_number, data_length, fragment_count, fragment_number,
            total_length, fragment_offset, data,
        } => seq![
            b16_0(start_sequence_number), b16_1(start_sequence_number),
            b16_0(data_length), b16_1(data_length),
            b32_0(fragment_count), b32_1(fragment_count), b32_2(fragment_count), b32_3(fragment_count),
            b32_0(fragment_number), b32_1(fragment_number), b32_2(fragment_number), b32_3(fragment_number),
            b32_0(total_length), b32_1(total_length), b32_2(total_length), b32_3(total_length),
            b32_0(fragment_offset), b32_1(fragment_offset), b32_2(fragment_offset), b32_3(fragment_offset),
        ] + spec_block(data),
        ProtocolCommandV::SendUnsequenced { unsequenced_group, data } => seq![
            b16_0(unsequenced_group), b16_1(unsequenced_group),
        ] + spec_block(data),
        ProtocolCommandV::BandwidthLimit(b) => seq![
            b32_0(b.incoming_bandwidth), b32_1(b.incoming_bandwidth), b32_2(b.incoming_bandwidth), b32_3(b.incoming_bandwidth),
            b32_0(b.outgoing_bandwidth), b32_1(b.outgoing_bandwidth), b32_2(b.outgoing_bandwidth), b32_3(b.outgoing_bandwidth),
        ],
        ProtocolCommandV::ThrottleConfigure(t) => seq![
            b32_0(t.packet_throttle_interval), b32_1(t.packet_throttle_interval), b32_2(t.packet_throttle_interval), b32_3(t.packet_throttle_interval),
            b32_0(t.packet_throttle_acceleration), b32_1(t.packet_throttle_acceleration), b32_2(t.packet_throttle_acceleration), b32_3(t.packet_throttle_acceleration),
            b32_0(t.packet_throttle_deceleration), b32_1(t.packet_throttle_deceleration), b32_2(t.packet_throttle_deceleration), b32_3(t.packet_throttle_deceleration),
        ],
        ProtocolCommandV::SendUnreliableFragment {
            start_sequence_number, data_length, fragment_count, fragment_number,
            total_length, fragment_offset, data,
        } => seq![
            b16_0(start_sequence_number), b16_1(start_sequence_number),
            b16_0(data_length), b16_1(data_length),
            b32_0(fragment_count), b32_1(fragment_count), b32_2(fragment_count), b32_3(fragment_count),
            b32_0(fragment_number), b32_1(fragment_number), b32_2(fragment_number), b32_3(fragment_number),
            b32_0(total_length), b32_1(total_length), b32_2(total_length), b32_3(total_length),
            b32_0(fragment_offset), b32_1(fragment_offset), b32_2(fragment_offset), b32_3(fragment_offset),
        ] + spec_block(data),
        ProtocolCommandV::Count => Seq::<u8>::empty(),
    }
}

// ============================================================================
// Header layout.
// ============================================================================

/// The first header word: the send-time and compression flags, the 2-bit
/// session id, and the low 12 bits of the wire peer id.
pub open spec fn spec_peer_id_and_flags(info: CommandInfo) -> u16 {
    (((if info.flags.send_time { 0x8000u16 } else { 0u16 }) | (
    if info.flags.is_compressed { 0x4000u16 } else { 0u16 }) | (((info.session_id & 3)
        << 12) as u16) | (info.peer_id.0 & 0xFFF)) as u16)
}

/// The per-datagram protocol header: the header word, then the low 16 bits
/// of the send time in milliseconds — the latter present exactly when the
/// send-time flag is set.
pub open spec fn spec_protocol_header_bytes(info: CommandInfo) -> Seq<u8> {
    let pif = spec_peer_id_and_flags(info);
    if info.flags.send_time {
        seq![b16_0(pif), b16_1(pif), b16_0((info.sent_time % 0x10000) as u16), b16_1(
            (info.sent_time % 0x10000) as u16,
        )]
    } else {
        seq![b16_0(pif), b16_1(pif)]
    }
}

/// The command byte: the wire command id with the reliable and unsequenced
/// flag bits folded in.
pub open spec fn spec_command_byte(c: ProtocolCommandV, flags: PacketFlags) -> u8 {
    ((spec_command_id(c) | (if flags.reliable { 0x80u8 } else { 0u8 }) | (
    if flags.unsequenced { 0x40u8 } else { 0u8 })) as u8)
}

/// The 4-byte per-command header, followed by the command's payload.
pub open spec fn spec_command_bytes(info: CommandInfo, c: ProtocolCommandV) -> Seq<u8> {
    seq![
        spec_command_byte(c, info.flags),
        info.channel_id,
        b16_0(info.reliable_sequence_number),
        b16_1(info.reliable_sequence_number),
    ] + spec_payload(c)
}

/// A whole datagram carrying one command.
pub open spec fn spec_datagram_bytes(cmd: CommandV) -> Seq<u8> {
    spec_protocol_header_bytes(cmd.info) + spec_command_bytes(cmd.info, cmd.command)
}

// ============================================================================
// The verified encoder.
// ============================================================================

/// Append a `u16` big-endian.
fn push_u16(out: &mut Vec<u8>, v: u16)
    ensures
        final(out)@ == old(out)@ + be16(v),
{
    out.push(((v >> 8) & 0xFF) as u8);
    out.push((v & 0xFF) as u8);
    proof {
        assert(out@ =~= old(out)@ + be16(v));
    }
}

/// Append a `u32` big-endian.
fn push_u32(out: &mut Vec<u8>, v: u32)
    ensures
        final(out)@ == old(out)@ + be32(v),
{
    out.push(((v >> 24) & 0xFF) as u8);
    out.push(((v >> 16) & 0xFF) as u8);
    out.push(((v >> 8) & 0xFF) as u8);
    out.push((v & 0xFF) as u8);
    proof {
        assert(out@ =~= old(out)@ + be32(v));
    }
}

/// Append a length-prefixed byte block; fails exactly when the length does
/// not fit 16 bits.
fn push_block(out: &mut Vec<u8>, data: &Vec<u8>) -> (r: Result<(), ENetError>)
    ensures
        data@.len() <= 0xFFFF ==> (r matches Ok(_) && final(out)@ == old(out)@ + spec_block(
            data@,
        )),
        data@.len() > 0xFFFF ==> r == Err::<(), ENetError>(
            ENetError::Encoding(EncodingError::IntConversion),
        ) && final(out)@ == old(out)@,
{
    if data.len() > 0xFFFF {
        return Err(ENetError::Encoding(EncodingError::IntConversion));
    }
    push_u16(out, data.len() as u16);
    let ghost mid = out@;
    let mut j: usize = 0;
    while j < data.len()
        invariant
            j <= data@.len(),
            out@ == mid + data@.subrange(0, j as int),
            mid == old(out)@ + be16(data@.len() as u16),
        decreases data@.len() - j,
    {
        out.push(data[j]);
        proof {
            assert(out@ =~= mid + data@.subrange(0, j + 1 as int));
        }
        j = j + 1;
    }
    proof {
        assert(data@.subrange(0, data@.len() as int) =~= data@);
        assert(out@ =~= old(out)@ + spec_block(data@));
    }
    Ok(())
}

/// Encode one command into the datagram that carries it: protocol header,
/// command header, payload. Fails exactly when a variable-length payload
/// does not fit its 16-bit wire length field.
#[verifier::rlimit(50)]
pub fn serialize_command(p: &Command) -> (r: Result<Vec<u8>, ENetError>)
    ensures
        spec_payload_encodable(p.command@) ==> (r matches Ok(v) && v@ == spec_datagram_bytes(
            p@,
        )),
        !spec_payload_encodable(p.command@) ==> r == Err::<Vec<u8>, ENetError>(
            ENetError::Encoding(EncodingError::IntConversion),
        ),
{
    let mut out: Vec<u8> = Vec::new();
    let info = &p.info;

    let st_flag: u16 = if info.flags.send_time { 0x8000 } else { 0 };
    let cm_flag: u16 = if info.flags.is_compressed { 0x4000 } else { 0 };
    let pif: u16 = st_flag | cm_flag | ((info.session_id & 3) << 12) | (info.peer_id.0 & 0xFFF);

    push_u16(&mut out, pif);
    if info.flags.send_time {
        push_u16(&mut out, (info.sent_time % 0x10000) as u16);
    }

    let id: u8 = match &p.command {
        ProtocolCommand::NoCommand => 0,
        ProtocolCommand::Ack(_) => 1,
        ProtocolCommand::Connect(_) => 2,
        ProtocolCommand::VerifyConnect(_) => 3,
        ProtocolCommand::Disconnect(_) => 4,
        ProtocolCommand::Ping(_) => 5,
        ProtocolCommand::SendReliable(_) => 6,
        ProtocolCommand::SendUnreliable(_) => 7,
        ProtocolCommand::SendFragment(_) => 8,
        ProtocolCommand::SendUnsequenced(_) => 9,
        ProtocolCommand::BandwidthLimit(_) => 10,
        ProtocolCommand::ThrottleConfigure(_) => 11,
        ProtocolCommand::SendUnreliableFragment(_) => 12,
        ProtocolCommand::Count => 13,
    };
    let rel_bit: u8 = if info.flags.reliable { 0x80 } else { 0 };
    let unseq_bit: u8 = if info.flags.unsequenced { 0x40 } else { 0 };
    let cbyte: u8 = id | rel_bit | unseq_bit;
    out.push(cbyte);
    out.push(info.channel_id);
    push_u16(&mut out, info.reliable_sequence_number);

    let ghost before_payload = out@;

    match &p.command {
        ProtocolCommand::NoCommand => {},
        ProtocolCommand::Ack(a) => {
            push_u16(&mut out, a.received_reliable_sequence_number);
            push_u16(&mut out, a.received_sent_time.0);
        },
        ProtocolCommand::Connect(c) => {
            push_u16(&mut out, c.outgoing_peer_id);
            out.push(c.incoming_session_id);
            out.push(c.outgoing_session_id);
            push_u32(&mut out, c.mtu);
            push_u32(&mut out, c.window_size);
            push_u32(&mut out, c.channel_count);
            push_u32(&mut out, c.incoming_bandwidth);
            push_u32(&mut out, c.outgoing_bandwidth);
            push_u32(&mut out, c.packet_throttle_interval);
            push_u32(&mut out, c.packet_throttle_acceleration);
            push_u32(&mut out, c.packet_throttle_deceleration);
            push_u32(&mut out, c.connect_id);
            push_u32(&mut out, c.data);
        },
        ProtocolCommand::VerifyConnect(c) => {
            push_u16(&mut out, c.outgoing_peer_id);
            out.push(c.incoming_session_id);
            out.push(c.outgoing_session_id);
            push_u32(&mut out, c.mtu);
            push_u32(&mut out, c.window_size);
            push_u32(&mut out, c.channel_count);
            push_u32(&mut out, c.incoming_bandwidth);
            push_u32(&mut out, c.outgoing_bandwidth);
            push_u32(&mut out, c.packet_throttle_interval);
            push_u32(&mut out, c.packet_throttle_acceleration);
            push_u32(&mut out, c.packet_throttle_deceleration);
            push_u32(&mut out, c.connect_id);
        },
        ProtocolCommand::Disconnect(d) => {
            push_u32(&mut out, d.data);
        },
        ProtocolCommand::Ping(_) => {},
        ProtocolCommand::SendReliable(s) => {
            push_block(&mut out, &s.data)?;
        },
        ProtocolCommand::SendUnreliable(s) => {
            push_u16(&mut out, s.unreliable_sequence_number);
            push_block(&mut out, &s.data)?;
        },
        ProtocolCommand::SendFragment(f) => {
            push_u16(&mut out, f.start_sequence_number);
            push_u16(&mut out, f.data_length);
            push_u32(&mut out, f.fragment_count);
            push_u32(&mut out, f.fragment_number);
            push_u32(&mut out, f.total_length);
            push_u32(&mut out, f.fragment_offset);
            push_block(&mut out, &f.data)?;
        },
        ProtocolCommand::SendUnsequenced(s) => {
            push_u16(&mut out, s.unsequenced_group);
            push_block(&mut out, &s.data)?;
        },
        ProtocolCommand::BandwidthLimit(b) => {
            push_u32(&mut out, b.incoming_bandwidth);
            push_u32(&mut out, b.outgoing_bandwidth);
        },
        ProtocolCommand::ThrottleConfigure(t) => {
            push_u32(&mut out, t.packet_throttle_interval);
            push_u32(&mut out, t.packet_throttle_acceleration);
            push_u32(&mut out, t.packet_throttle_deceleration);
        },
        ProtocolCommand::SendUnreliableFragment(f) => {
            push_u16(&mut out, f.start_sequence_number);
            push_u16(&mut out, f.data_length);
            push_u32(&mut out, f.fragment_count);
            push_u32(&mut out, f.fragment_number);
            push_u32(&mut out, f.total_length);
            push_u32(&mut out, f.fragment_offset);
            push_block(&mut out, &f.data)?;
        },
        ProtocolCommand::Count => {},
    }

    proof {
        assert(out@ =~= before_payload + spec_payload(p.command@));
        assert(before_payload =~= spec_protocol_header_bytes(p.info) + seq![
            spec_command_byte(p.command@, p.info.flags),
            p.info.channel_id,
            b16_0(p.info.reliable_sequence_number),
            b16_1(p.info.reliable_sequence_number),
        ]);
        assert(out@ =~= spec_datagram_bytes(p@));
    }
    Ok(out)
}

} // verus!
use vstd::slice::{slice_subrange, slice_to_vec};

verus! {

// ============================================================================
// Parsing: the abstract parser.
// ============================================================================

/// The fields recovered from a datagram's protocol header, shared by every
/// command the datagram carries.
#[derive(Debug, Clone, Copy, PartialEq, Eq, Structural)]
pub struct DatagramHeader {
    pub addr: PeerAddress,
    pub peer_id: u16,
    pub session_id: u16,
    pub send_time: bool,
    pub is_compressed: bool,
    pub sent_time: u16,
}

/// Shorthand for a wire-decoding failure.
pub open spec fn spec_short(avail: int, need: int) -> ENetError {
    ENetError::Encoding(EncodingError::NotEnoughData(avail as usize, need as usize))
}

/// Parse the protocol header: the header word, then — exactly when its
/// send-time bit is set — the 16-bit send time. Returns the header fields
/// and the offset where commands begin.
pub open spec fn spec_parse_header(addr: PeerAddress, b: Seq<u8>) -> Result<
    (DatagramHeader, int),
    ENetError,
> {
    let len = b.len() as int;
    if len < 2 {
        Err(spec_short(len, 2))
    } else {
        let pif = r16(b, 0);
        let send_time = (pif >> 15) > 0;
        let is_compressed = ((pif >> 14) & 1) == 1;
        let session_id = (pif >> 12) & 3;
        let peer_id = pif & 0xFFF;
        if send_time {
            if len < 4 {
                Err(spec_short(len - 2, 2))
            } else {
                Ok(
                    (
                        DatagramHeader {
                            addr,
                            peer_id,
                            session_id,
                            send_time,
                            is_compressed,
                            sent_time: r16(b, 2),
                        },
                        4,
                    ),
                )
            }
        } else {
            Ok(
                (
                    DatagramHeader {
                        addr,
                        peer_id,
                        session_id,
                        send_time,
                        is_compressed,
                        sent_time: 0,
                    },
                    2,
                ),
            )
        }
    }
}

/// Parse a length-prefixed byte block at offset `i`: a 16-bit length, then
/// that many bytes. Returns the bytes and the offset after them.
pub open spec fn spec_parse_block(b: Seq<u8>, i: int) -> Result<(Seq<u8>, int), ENetError> {
    let len = b.len() as int;
    if len - i < 2 {
        Err(spec_short(len - i, 2))
    } else {
        let l = r16(b, i) as int;
        if len - (i + 2) < l {
            Err(spec_short(len - (i + 2), l))
        } else {
            Ok((b.subrange(i + 2, i + 2 + l), i + 2 + l))
        }
    }
}

/// Parse the payload of the command with wire id `id` at offset `i`.
/// Returns the command and the offset after the payload.
#[verifier::opaque]
pub open spec fn spec_parse_payload(id: u8, b: Seq<u8>, i: int) -> Result<
    (ProtocolCommandV, int),
    ENetError,
> {
    let len = b.len() as int;
    if id == 0 {
        Ok((ProtocolCommandV::NoCommand, i))
    } else if id == 1 {
        if len - i < 4 {
            Err(spec_short(len - i, 4))
        } else {
            Ok(
                (
                    ProtocolCommandV::Ack(
                        AcknowledgeCommand {
                            received_reliable_sequence_number: r16(b, i),
                            received_sent_time: PacketTime(r16(b, i + 2)),
                        },
                    ),
                    i + 4,
                ),
            )
        }
    } else if id == 2 {
        if len - i < 44 {
            Err(spec_short(len - i, 44))
        } else {
            Ok(
                (
                    ProtocolCommandV::Connect(
                        ConnectCommand {
                            outgoing_peer_id: r16(b, i),
                            incoming_session_id: b[i + 2],
                            outgoing_session_id: b[i + 3],
                            mtu: r32(b, i + 4),
                            window_size: r32(b, i + 8),
                            channel_count: r32(b, i + 12),
                            incoming_bandwidth: r32(b, i + 16),
                            outgoing_bandwidth: r32(b, i + 20),
                            packet_throttle_interval: r32(b, i + 24),
                            packet_throttle_acceleration: r32(b, i + 28),
                            packet_throttle_deceleration: r32(b, i + 32),
                            connect_id: r32(b, i + 36),
                            data: r32(b, i + 40),
                        },
                    ),
                    i + 44,
                ),
            )
        }
    } else if id == 3 {
        if len - i < 40 {
            Err(spec_short(len - i, 40))
        } else {
            Ok(
                (
                    ProtocolCommandV::VerifyConnect(
                        VerifyConnectCommand {
                            outgoing_peer_id: r16(b, i),
                            incoming_session_id: b[i + 2],
                            outgoing_session_id: b[i + 3],
                            mtu: r32(b, i + 4),
                            window_size: r32(b, i + 8),
                            channel_count: r32(b, i + 12),
                            incoming_bandwidth: r32(b, i + 16),
                            outgoing_bandwidth: r32(b, i + 20),
                            packet_throttle_interval: r32(b, i + 24),
                            packet_throttle_acceleration: r32(b, i + 28),
                            packet_throttle_deceleration: r32(b, i + 32),
                            connect_id: r32(b, i + 36),
                        },
                    ),
                    i + 40,
                ),
            )
        }
    } else if id == 4 {
        if len - i < 4 {
            Err(spec_short(len - i, 4))
        } else {
            Ok((ProtocolCommandV::Disconnect(DisconnectCommand { data: r32(b, i) }), i + 4))
        }
    } else if id == 5 {
        Ok((ProtocolCommandV::Ping(PingCommand {}), i))
    } else if id == 6 {
        match spec_parse_block(b, i) {
            Err(e) => Err(e),
            Ok((data, j)) => Ok((ProtocolCommandV::SendReliable { data }, j)),
        }
    } else if id == 7 {
        if len - i < 2 {
            Err(spec_short(len - i, 2))
        } else {
            match spec_parse_block(b, i + 2) {
                Err(e) => Err(e),
                Ok(
                    (data, j),
                ) => Ok(
                    (
                        ProtocolCommandV::SendUnreliable {
                            unreliable_sequence_number: r16(b, i),
                            data,
                        },
                        j,
                    ),
                ),
            }
        }
    } else if id == 8 || id == 12 {
        if len - i < 20 {
            Err(spec_short(len - i, 20))
        } else {
            match spec_parse_block(b, i + 20) {
                Err(e) => Err(e),
                Ok((data, j)) => {
                    let start_sequence_number = r16(b, i);
                    let data_length = r16(b, i + 2);
                    let fragment_count = r32(b, i + 4);
                    let fragment_number = r32(b, i + 8);
                    let total_length = r32(b, i + 12);
                    let fragment_offset = r32(b, i + 16);
                    if id == 8 {
                        Ok(
                            (
                                ProtocolCommandV::SendFragment {
                                    start_sequence_number,
                                    data_length,
                                    fragment_count,
                                    fragment_number,
                                    total_length,
                                    fragment_offset,
                                    data,
                                },
                                j,
                            ),
                        )
                    } else {
                        Ok(
                            (
                                ProtocolCommandV::SendUnreliableFragment {
                                    start_sequence_number,
                                    data_length,
                                    fragment_count,
                                    fragment_number,
                                    total_length,
                                    fragment_offset,
                                    data,
                                },
                                j,
                            ),
                        )
                    }
                },
            }
        }
    } else if id == 9 {
        if len - i < 2 {
            Err(spec_short(len - i, 2))
        } else {
            match spec_parse_block(b, i + 2) {
                Err(e) => Err(e),
                Ok(
                    (data, j),
                ) => Ok(
                    (ProtocolCommandV::SendUnsequenced { unsequenced_group: r16(b, i), data }, j),
                ),
            }
        }
    } else if id == 10 {
        if len - i < 8 {
            Err(spec_short(len - i, 8))
        } else {
            Ok(
                (
                    ProtocolCommandV::BandwidthLimit(
                        BandwidthLimitCommand {
                            incoming_bandwidth: r32(b, i),
                            outgoing_bandwidth: r32(b, i + 4),
                        },
                    ),
                    i + 8,
                ),
            )
        }
    } else if id == 11 {
        if len - i < 12 {
            Err(spec_short(len - i, 12))
        } else {
            Ok(
                (
                    ProtocolCommandV::ThrottleConfigure(
                        ThrottleConfigureCommand {
                            packet_throttle_interval: r32(b, i),
                            packet_throttle_acceleration: r32(b, i + 4),
                            packet_throttle_deceleration: r32(b, i + 8),
                        },
                    ),
                    i + 12,
                ),
            )
        }
    } else if id == 13 {
        Ok((ProtocolCommandV::Count, i))
    } else {
        Err(ENetError::InvalidPacket)
    }
}

/// The metadata of a parsed command: the datagram header's fields combined
/// with the command header's. The three purely local flags decode as false;
/// both peer id fields take the wire peer id.
pub open spec fn spec_info_from(hdr: DatagramHeader, cbyte: u8, channel: u8, rseq: u16) -> CommandInfo {
    CommandInfo {
        addr: hdr.addr,
        flags: PacketFlags {
            reliable: ((cbyte >> 7) & 1) == 1,
            unsequenced: ((cbyte >> 6) & 1) == 1,
            no_allocate: false,
            unreliable_fragment: false,
            sent: false,
            send_time: hdr.send_time,
            is_compressed: hdr.is_compressed,
        },
        internal_peer_id: PeerID(hdr.peer_id),
        peer_id: PeerID(hdr.peer_id),
        channel_id: channel,
        session_id: hdr.session_id,
        reliable_sequence_number: rseq,
        sent_time: hdr.sent_time as u64,
    }
}

/// Parse one command (header and payload) at offset `i`.
#[verifier::opaque]
pub open spec fn spec_parse_one(b: Seq<u8>, i: int, hdr: DatagramHeader) -> Result<
    (CommandV, int),
    ENetError,
> {
    let len = b.len() as int;
    if len - i < 4 {
        Err(spec_short(len - i, 4))
    } else {
        let cbyte = b[i];
        let id = cbyte & 0x0F;
        match spec_parse_payload(id, b, i + 4) {
            Err(e) => Err(e),
            Ok(
                (pc, j),
            ) => Ok((CommandV { info: spec_info_from(hdr, cbyte, b[i + 1], r16(b, i + 2)), command: pc }, j)),
        }
    }
}

/// Parse commands one after the other from offset `i` until the datagram is
/// exhausted.
pub open spec fn spec_parse_commands(b: Seq<u8>, i: int, hdr: DatagramHeader) -> Result<
    Seq<CommandV>,
    ENetError,
> 
    decreases b.len() - i,
{
    if i < 0 || i >= b.len() {
        Ok(Seq::<CommandV>::empty())
    } else {
        match spec_parse_one(b, i, hdr) {
            Err(e) => Err(e),
            Ok((cv, j)) => if i < j <= b.len() {
                match spec_parse_commands(b, j, hdr) {
                    Err(e) => Err(e),
                    Ok(rest) => Ok(seq![cv] + rest),
                }
            } else {
                Err(ENetError::InvalidPacket)
            },
        }
    }
}

/// Parse a whole datagram: the protocol header, then every command it
/// carries, in order.
pub open spec fn spec_parse_datagram(addr: PeerAddress, b: Seq<u8>) -> Result<
    Seq<CommandV>,
    ENetError,
> {
    match spec_parse_header(addr, b) {
        Err(e) => Err(e),
        Ok((hdr, start)) => spec_parse_commands(b, start, hdr),
    }
}

} // verus!
verus! {

// ============================================================================
// Parsing: the verified executable parser.
// ============================================================================

/// Read a big-endian `u16` at offset `i`.
fn read_u16(buf: &Vec<u8>, i: usize) -> (r: u16)
    requires
        i + 2 <= buf.len(),
    ensures
        r == r16(buf@, i as int),
{
    ((buf[i] as u16) << 8) | (buf[i + 1] as u16)
}

/// Read a big-endian `u32` at offset `i`.
fn read_u32(buf: &Vec<u8>, i: usize) -> (r: u32)
    requires
        i + 4 <= buf.len(),
    ensures
        r == r32(buf@, i as int),
{
    ((buf[i] as u32) << 24) | ((buf[i + 1] as u32) << 16) | ((buf[i + 2] as u32) << 8) | (buf[i
        + 3] as u32)
}

/// Read a length-prefixed byte block at offset `i`.
fn parse_block(buf: &Vec<u8>, i: usize) -> (r: Result<(Vec<u8>, usize), ENetError>)
    requires
        i <= buf.len(),
    ensures
        ({
            match spec_parse_block(buf@, i as int) {
                Ok((d, j)) => r matches Ok(p) && p.0@ == d && p.1 == j,
                Err(e) => r matches Err(e2) && e2 == e,
            }
        }),
        r matches Ok(p) ==> i + 2 <= p.1 <= buf.len(),
{
    if buf.len() - i < 2 {
        return Err(ENetError::Encoding(EncodingError::NotEnoughData(buf.len() - i, 2)));
    }
    let l = read_u16(buf, i) as usize;
    if buf.len() - (i + 2) < l {
        return Err(ENetError::Encoding(EncodingError::NotEnoughData(buf.len() - (i + 2), l)));
    }
    let data = slice_to_vec(slice_subrange(buf.as_slice(), i + 2, i + 2 + l));
    Ok((data, i + 2 + l))
}

/// Parse the payload of the command with wire id `id` at offset `i`.
fn parse_payload(buf: &Vec<u8>, i: usize, id: u8) -> (r: Result<(ProtocolCommand, usize), ENetError>)
    requires
        i <= buf.len(),
    ensures
        ({
            match spec_parse_payload(id, buf@, i as int) {
                Ok((cv, j)) => r matches Ok(p) && p.0@ == cv && p.1 == j,
                Err(e) => r matches Err(e2) && e2 == e,
            }
        }),
        r matches Ok(p) ==> i <= p.1 <= buf.len(),
{
    proof {
        reveal(spec_parse_payload);
    }
    let len = buf.len();
    if id == 0 {
        Ok((ProtocolCommand::NoCommand, i))
    } else if id == 1 {
        if len - i < 4 {
            Err(ENetError::Encoding(EncodingError::NotEnoughData(len - i, 4)))
        } else {
            Ok((
                ProtocolCommand::Ack(AcknowledgeCommand {
                    received_reliable_sequence_number: read_u16(buf, i),
                    received_sent_time: PacketTime(read_u16(buf, i + 2)),
                }),
                i + 4,
            ))
        }
    } else if id == 2 {
        if len - i < 44 {
            Err(ENetError::Encoding(EncodingError::NotEnoughData(len - i, 44)))
        } else {
            Ok((
                ProtocolCommand::Connect(ConnectCommand {
                    outgoing_peer_id: read_u16(buf, i),
                    incoming_session_id: buf[i + 2],
                    outgoing_session_id: buf[i + 3],
                    mtu: read_u32(buf, i + 4),
                    window_size: read_u32(buf, i + 8),
                    channel_count: read_u32(buf, i + 12),
                    incoming_bandwidth: read_u32(buf, i + 16),
                    outgoing_bandwidth: read_u32(buf, i + 20),
                    packet_throttle_interval: read_u32(buf, i + 24),
                    packet_throttle_acceleration: read_u32(buf, i + 28),
                    packet_throttle_deceleration: read_u32(buf, i + 32),
                    connect_id: read_u32(buf, i + 36),
                    data: read_u32(buf, i + 40),
                }),
                i + 44,
            ))
        }
    } else if id == 3 {
        if len - i < 40 {
            Err(ENetError::Encoding(EncodingError::NotEnoughData(len - i, 40)))
        } else {
            Ok((
                ProtocolCommand::VerifyConnect(VerifyConnectCommand {
                    outgoing_peer_id: read_u16(buf, i),
                    incoming_session_id: buf[i + 2],
                    outgoing_session_id: buf[i + 3],
                    mtu: read_u32(buf, i + 4),
                    window_size: read_u32(buf, i + 8),
                    channel_count: read_u32(buf, i + 12),
                    incoming_bandwidth: read_u32(buf, i + 16),
                    outgoing_bandwidth: read_u32(buf, i + 20),
                    packet_throttle_interval: read_u32(buf, i + 24),
                    packet_throttle_acceleration: read_u32(buf, i + 28),
                    packet_throttle_deceleration: read_u32(buf, i + 32),
                    connect_id: read_u32(buf, i + 36),
                }),
                i + 40,
            ))
        }
    } else if id == 4 {
        if len - i < 4 {
            Err(ENetError::Encoding(EncodingError::NotEnoughData(len - i, 4)))
        } else {
            Ok((ProtocolCommand::Disconnect(DisconnectCommand { data: read_u32(buf, i) }), i + 4))
        }
    } else if id == 5 {
        Ok((ProtocolCommand::Ping(PingCommand {}), i))
    } else if id == 6 {
        let (data, j) = parse_block(buf, i)?;
        Ok((ProtocolCommand::SendReliable(SendReliableCommand { data }), j))
    } else if id == 7 {
        if len - i < 2 {
            Err(ENetError::Encoding(EncodingError::NotEnoughData(len - i, 2)))
        } else {
            let unreliable_sequence_number = read_u16(buf, i);
            let (data, j) = parse_block(buf, i + 2)?;
            Ok((
                ProtocolCommand::SendUnreliable(SendUnreliableCommand {
                    unreliable_sequence_number,
                    data,
                }),
                j,
            ))
        }
    } else if id == 8 || id == 12 {
        if len - i < 20 {
            Err(ENetError::Encoding(EncodingError::NotEnoughData(len - i, 20)))
        } else {
            let start_sequence_number = read_u16(buf, i);
            let data_length = read_u16(buf, i + 2);
            let fragment_count = read_u32(buf, i + 4);
            let fragment_number = read_u32(buf, i + 8);
            let total_length = read_u32(buf, i + 12);
            let fragment_offset = read_u32(buf, i + 16);
            let (data, j) = parse_block(buf, i + 20)?;
            if id == 8 {
                Ok((
                    ProtocolCommand::SendFragment(SendFragmentCommand {
                        start_sequence_number,
                        data_length,
                        fragment_count,
                        fragment_number,
                        total_length,
                        fragment_offset,
                        data,
                    }),
                    j,
                ))
            } else {
                Ok((
                    ProtocolCommand::SendUnreliableFragment(SendUnreliableFragmentCommand {
                        start_sequence_number,
                        data_length,
                        fragment_count,
                        fragment_number,
                        total_length,
                        fragment_offset,
                        data,
                    }),
                    j,
                ))
            }
        }
    } else if id == 9 {
        if len - i < 2 {
            Err(ENetError::Encoding(EncodingError::NotEnoughData(len - i, 2)))
        } else {
            let unsequenced_group = read_u16(buf, i);
            let (data, j) = parse_block(buf, i + 2)?;
            Ok((
                ProtocolCommand::SendUnsequenced(SendUnsequencedCommand { unsequenced_group, data }),
                j,
            ))
        }
    } else if id == 10 {
        if len - i < 8 {
            Err(ENetError::Encoding(EncodingError::NotEnoughData(len - i, 8)))
        } else {
            Ok((
                ProtocolCommand::BandwidthLimit(BandwidthLimitCommand {
                    incoming_bandwidth: read_u32(buf, i),
                    outgoing_bandwidth: read_u32(buf, i + 4),
                }),
                i + 8,
            ))
        }
    } else if id == 11 {
        if len - i < 12 {
            Err(ENetError::Encoding(EncodingError::NotEnoughData(len - i, 12)))
        } else {
            Ok((
                ProtocolCommand::ThrottleConfigure(ThrottleConfigureCommand {
                    packet_throttle_interval: read_u32(buf, i),
                    packet_throttle_acceleration: read_u32(buf, i + 4),
                    packet_throttle_deceleration: read_u32(buf, i + 8),
                }),
                i + 12,
            ))
        }
    } else if id == 13 {
        Ok((ProtocolCommand::Count, i))
    } else {
        Err(ENetError::InvalidPacket)
    }
}

/// Parse one command (header and payload) at offset `i`.
fn parse_one(buf: &Vec<u8>, i: usize, hdr: &DatagramHeader) -> (r: Result<(Command, usize), ENetError>)
    requires
        i <= buf.len(),
    ensures
        ({
            match spec_parse_one(buf@, i as int, *hdr) {
                Ok((cv, j)) => r matches Ok(p) && p.0@ == cv && p.1 == j,
                Err(e) => r matches Err(e2) && e2 == e,
            }
        }),
        r matches Ok(p) ==> i + 4 <= p.1 <= buf.len(),
{
    proof {
        reveal(spec_parse_one);
    }
    if buf.len() - i < 4 {
        return Err(ENetError::Encoding(EncodingError::NotEnoughData(buf.len() - i, 4)));
    }
    let cbyte = buf[i];
    let id = cbyte & 0x0F;
    let channel_id = buf[i + 1];
    let reliable_sequence_number = read_u16(buf, i + 2);
    let (command, j) = parse_payload(buf, i + 4, id)?;

    let info = CommandInfo {
        addr: hdr.addr,
        flags: PacketFlags {
            reliable: ((cbyte >> 7) & 1) == 1,
            unsequenced: ((cbyte >> 6) & 1) == 1,
            no_allocate: false,
            unreliable_fragment: false,
            sent: false,
            send_time: hdr.send_time,
            is_compressed: hdr.is_compressed,
        },
        internal_peer_id: PeerID(hdr.peer_id),
        peer_id: PeerID(hdr.peer_id),
        channel_id,
        session_id: hdr.session_id,
        reliable_sequence_number,
        sent_time: hdr.sent_time as u64,
    };
    Ok((Command { info, command }, j))
}

/// Decode one datagram received from `addr` into the commands it carries,
/// in wire order. The result is exactly what the abstract parser
/// `spec_parse_datagram` describes.
#[verifier::rlimit(100)]
pub fn deserialize_datagram(addr: PeerAddress, buf: &Vec<u8>) -> (r: Result<Vec<Command>, ENetError>)
    ensures
        ({
            match spec_parse_datagram(addr, buf@) {
                Ok(cmds) => r matches Ok(v) && v@.map_values(|c: Command| c@) == cmds,
                Err(e) => r matches Err(e2) && e2 == e,
            }
        }),
{
    let len = buf.len();
    if len < 2 {
        return Err(ENetError::Encoding(EncodingError::NotEnoughData(len, 2)));
    }
    let pif = read_u16(buf, 0);
    let send_time = (pif >> 15) > 0;
    let is_compressed = ((pif >> 14) & 1) == 1;
    let session_id = (pif >> 12) & 3;
    let peer_id = pif & 0xFFF;

    let mut start: usize = 2;
    let mut sent_time: u16 = 0;
    if send_time {
        if len < 4 {
            return Err(ENetError::Encoding(EncodingError::NotEnoughData(len - 2, 2)));
        }
        sent_time = read_u16(buf, 2);
        start = 4;
    }
    let hdr = DatagramHeader { addr, peer_id, session_id, send_time, is_compressed, sent_time };
    proof {
        assert(spec_parse_header(addr, buf@) == Ok::<(DatagramHeader, int), ENetError>(
            (hdr, start as int),
        ));
    }

    let mut res: Vec<Command> = Vec::new();
    let mut i: usize = start;
    loop
        invariant
            start <= i <= buf.len(),
            spec_parse_datagram(addr, buf@) == spec_parse_commands(buf@, start as int, hdr),
            spec_parse_commands(buf@, start as int, hdr) == (match spec_parse_commands(
                buf@,
                i as int,
                hdr,
            ) {
                Ok(rest) => Ok::<Seq<CommandV>, ENetError>(
                    res@.map_values(|c: Command| c@) + rest,
                ),
                Err(e) => Err::<Seq<CommandV>, ENetError>(e),
            }),
        decreases buf@.len() - i,
    {
        if i >= buf.len() {
            proof {
                assert(res@.map_values(|c: Command| c@) + Seq::<CommandV>::empty() =~= res@.map_values(
                    |c: Command| c@,
                ));
            }
            return Ok(res);
        }
        match parse_one(buf, i, &hdr) {
            Err(e) => {
                return Err(e);
            },
            Ok((cmd, j)) => {
                proof {
                    let prev = res@.map_values(|c: Command| c@);
                    let cv = cmd@;
                    assert(res@.push(cmd).map_values(|c: Command| c@) =~= prev + seq![cv]);
                    if spec_parse_commands(buf@, j as int, hdr) is Ok {
                        let rest = spec_parse_commands(buf@, j as int, hdr)->Ok_0;
                        assert((prev + seq![cv]) + rest =~= prev + (seq![cv] + rest));
                    }
                }
                res.push(cmd);
                i = j;
            },
        }
    }
}

} // verus!
verus! {

// ============================================================================
// Round-trip laws: what the parser makes of encoded bytes.
// ============================================================================

/// Pointwise view of a subrange equality.
proof fn lemma_seq_at(b: Seq<u8>, i: int, p: Seq<u8>)
    requires
        0 <= i,
        i + p.len() <= b.len(),
        b.subrange(i, i + p.len()) == p,
    ensures
        forall|k: int| 0 <= k < p.len() ==> b[i + k] == #[trigger] p[k],
{
    assert forall|k: int| 0 <= k < p.len() implies b[i + k] == #[trigger] p[k] by {
        assert(p[k] == b.subrange(i, i + p.len() as int)[k]);
    }
}

/// A big-endian `u16` reads back as itself.
proof fn lemma_r16_of(b: Seq<u8>, i: int, v: u16)
    requires
        0 <= i,
        i + 2 <= b.len(),
        b[i] == b16_0(v),
        b[i + 1] == b16_1(v),
    ensures
        r16(b, i) == v,
{
    assert((((((v >> 8) & 0xFF) as u8) as u16) << 8 | (((v & 0xFF) as u8) as u16)) == v)
        by (bit_vector);
}

/// A big-endian `u32` reads back as itself.
proof fn lemma_r32_of(b: Seq<u8>, i: int, v: u32)
    requires
        0 <= i,
        i + 4 <= b.len(),
        b[i] == b32_0(v),
        b[i + 1] == b32_1(v),
        b[i + 2] == b32_2(v),
        b[i + 3] == b32_3(v),
    ensures
        r32(b, i) == v,
{
    assert(((((((v >> 24) & 0xFF) as u8) as u32) << 24) | (((((v >> 16) & 0xFF) as u8) as u32)
        << 16) | (((((v >> 8) & 0xFF) as u8) as u32) << 8) | (((v & 0xFF) as u8) as u32)) == v)
        by (bit_vector);
}

proof fn lemma_pp_ack(a: AcknowledgeCommand, b: Seq<u8>, i: int)
    requires
        0 <= i,
        i + 4 <= b.len(),
        b.subrange(i, i + 4) == spec_payload(ProtocolCommandV::Ack(a)),
    ensures
        spec_parse_payload(1, b, i) == Ok::<(ProtocolCommandV, int), ENetError>(
            (ProtocolCommandV::Ack(a), i + 4),
        ),
{
    reveal(spec_parse_payload);
    let p = spec_payload(ProtocolCommandV::Ack(a));
    assert(p.len() == 4);
    lemma_seq_at(b, i, p);
    assert(p[0] == b16_0(a.received_reliable_sequence_number) && p[1] == b16_1(a.received_reliable_sequence_number));
    assert(b[i] == p[0] && b[i + 1] == p[1]);
    lemma_r16_of(b, i + 0, a.received_reliable_sequence_number);
    assert(p[2] == b16_0(a.received_sent_time.0) && p[3] == b16_1(a.received_sent_time.0));
    assert(b[i + 2] == p[2] && b[i + 3] == p[3]);
    lemma_r16_of(b, i + 2, a.received_sent_time.0);
}

proof fn lemma_pp_connect(c: ConnectCommand, b: Seq<u8>, i: int)
    requires
        0 <= i,
        i + 44 <= b.len(),
        b.subrange(i, i + 44) == spec_payload(ProtocolCommandV::Connect(c)),
    ensures
        spec_parse_payload(2, b, i) == Ok::<(ProtocolCommandV, int), ENetError>(
            (ProtocolCommandV::Connect(c), i + 44),
        ),
{
    reveal(spec_parse_payload);
    let p = spec_payload(ProtocolCommandV::Connect(c));
    assert(p.len() == 44);
    lemma_seq_at(b, i, p);
    assert(p[0] == b16_0(c.outgoing_peer_id) && p[1] == b16_1(c.outgoing_peer_id));
    assert(b[i] == p[0] && b[i + 1] == p[1]);
    lemma_r16_of(b, i + 0, c.outgoing_peer_id);
    assert(b[i + 2] == p[2] && p[2] == c.incoming_session_id);
    assert(b[i + 3] == p[3] && p[3] == c.outgoing_session_id);
    assert(p[4] == b32_0(c.mtu) && p[5] == b32_1(c.mtu) && p[6] == b32_2(c.mtu) && p[7] == b32_3(c.mtu));
    assert(b[i + 4] == p[4] && b[i + 5] == p[5] && b[i + 6] == p[6] && b[i + 7] == p[7]);
    lemma_r32_of(b, i + 4, c.mtu);
    assert(p[8] == b32_0(c.window_size) && p[9] == b32_1(c.window_size) && p[10] == b32_2(c.window_size) && p[11] == b32_3(c.window_size));
    assert(b[i + 8] == p[8] && b[i + 9] == p[9] && b[i + 10] == p[10] && b[i + 11] == p[11]);
    lemma_r32_of(b, i + 8, c.window_size);
    assert(p[12] == b32_0(c.channel_count) && p[13] == b32_1(c.channel_count) && p[14] == b32_2(c.channel_count) && p[15] == b32_3(c.channel_count));
    assert(b[i + 12] == p[12] && b[i + 13] == p[13] && b[i + 14] == p[14] && b[i + 15] == p[15]);
    lemma_r32_of(b, i + 12, c.channel_count);
    assert(p[16] == b32_0(c.incoming_bandwidth) && p[17] == b32_1(c.incoming_bandwidth) && p[18] == b32_2(c.incoming_bandwidth) && p[19] == b32_3(c.incoming_bandwidth));
    assert(b[i + 16] == p[16] && b[i + 17] == p[17] && b[i + 18] == p[18] && b[i + 19] == p[19]);
    lemma_r32_of(b, i + 16, c.incoming_bandwidth);
    assert(p[20] == b32_0(c.outgoing_bandwidth) && p[21] == b32_1(c.outgoing_bandwidth) && p[22] == b32_2(c.outgoing_bandwidth) && p[23] == b32_3(c.outgoing_bandwidth));
    assert(b[i + 20] == p[20] && b[i + 21] == p[21] && b[i + 22] == p[22] && b[i + 23] == p[23]);
    lemma_r32_of(b, i + 20, c.outgoing_bandwidth);
    assert(p[24] == b32_0(c.packet_throttle_interval) && p[25] == b32_1(c.packet_throttle_interval) && p[26] == b32_2(c.packet_throttle_interval) && p[27] == b32_3(c.packet_throttle_interval));
    assert(b[i + 24] == p[24] && b[i + 25] == p[25] && b[i + 26] == p[26] && b[i + 27] == p[27]);
    lemma_r32_of(b, i + 24, c.packet_throttle_interval);
    assert(p[28] == b32_0(c.packet_throttle_acceleration) && p[29] == b32_1(c.packet_throttle_acceleration) && p[30] == b32_2(c.packet_throttle_acceleration) && p[31] == b32_3(c.packet_throttle_acceleration));
    assert(b[i + 28] == p[28] && b[i + 29] == p[29] && b[i + 30] == p[30] && b[i + 31] == p[31]);
    lemma_r32_of(b, i + 28, c.packet_throttle_acceleration);
    assert(p[32] == b32_0(c.packet_throttle_deceleration) && p[33] == b32_1(c.packet_throttle_deceleration) && p[34] == b32_2(c.packet_throttle_deceleration) && p[35] == b32_3(c.packet_throttle_deceleration));
    assert(b[i + 32] == p[32] && b[i + 33] == p[33] && b[i + 34] == p[34] && b[i + 35] == p[35]);
    lemma_r32_of(b, i + 32, c.packet_throttle_deceleration);
    assert(p[36] == b32_0(c.connect_id) && p[37] == b32_1(c.connect_id) && p[38] == b32_2(c.connect_id) && p[39] == b32_3(c.connect_id));
    assert(b[i + 36] == p[36] && b[i + 37] == p[37] && b[i + 38] == p[38] && b[i + 39] == p[39]);
    lemma_r32_of(b, i + 36, c.connect_id);
    assert(p[40] == b32_0(c.data) && p[41] == b32_1(c.data) && p[42] == b32_2(c.data) && p[43] == b32_3(c.data));
    assert(b[i + 40] == p[40] && b[i + 41] == p[41] && b[i + 42] == p[42] && b[i + 43] == p[43]);
    lemma_r32_of(b, i + 40, c.data);
}

proof fn lemma_pp_verify_connect(c: VerifyConnectCommand, b: Seq<u8>, i: int)
    requires
        0 <= i,
        i + 40 <= b.len(),
        b.subrange(i, i + 40) == spec_payload(ProtocolCommandV::VerifyConnect(c)),
    ensures
        spec_parse_payload(3, b, i) == Ok::<(ProtocolCommandV, int), ENetError>(
            (ProtocolCommandV::VerifyConnect(c), i + 40),
        ),
{
    reveal(spec_parse_payload);
    let p = spec_payload(ProtocolCommandV::VerifyConnect(c));
    assert(p.len() == 40);
    lemma_seq_at(b, i, p);
    assert(p[0] == b16_0(c.outgoing_peer_id) && p[1] == b16_1(c.outgoing_peer_id));
    assert(b[i] == p[0] && b[i + 1] == p[1]);
    lemma_r16_of(b, i + 0, c.outgoing_peer_id);
    assert(b[i + 2] == p[2] && p[2] == c.incoming_session_id);
    assert(b[i + 3] == p[3] && p[3] == c.outgoing_session_id);
    assert(p[4] == b32_0(c.mtu) && p[5] == b32_1(c.mtu) && p[6] == b32_2(c.mtu) && p[7] == b32_3(c.mtu));
    assert(b[i + 4] == p[4] && b[i + 5] == p[5] && b[i + 6] == p[6] && b[i + 7] == p[7]);
    lemma_r32_of(b, i + 4, c.mtu);
    assert(p[8] == b32_0(c.window_size) && p[9] == b32_1(c.window_size) && p[10] == b32_2(c.window_size) && p[11] == b32_3(c.window_size));
    assert(b[i + 8] == p[8] && b[i + 9] == p[9] && b[i + 10] == p[10] && b[i + 11] == p[11]);
    lemma_r32_of(b, i + 8, c.window_size);
    assert(p[12] == b32_0(c.channel_count) && p[13] == b32_1(c.channel_count) && p[14] == b32_2(c.channel_count) && p[15] == b32_3(c.channel_count));
    assert(b[i + 12] == p[12] && b[i + 13] == p[13] && b[i + 14] == p[14] && b[i + 15] == p[15]);
    lemma_r32_of(b, i + 12, c.channel_count);
    assert(p[16] == b32_0(c.incoming_bandwidth) && p[17] == b32_1(c.incoming_bandwidth) && p[18] == b32_2(c.incoming_bandwidth) && p[19] == b32_3(c.incoming_bandwidth));
    assert(b[i + 16] == p[16] && b[i + 17] == p[17] && b[i + 18] == p[18] && b[i + 19] == p[19]);
    lemma_r32_of(b, i + 16, c.incoming_bandwidth);
    assert(p[20] == b32_0(c.outgoing_bandwidth) && p[21] == b32_1(c.outgoing_bandwidth) && p[22] == b32_2(c.outgoing_bandwidth) && p[23] == b32_3(c.outgoing_bandwidth));
    assert(b[i + 20] == p[20] && b[i + 21] == p[21] && b[i + 22] == p[22] && b[i + 23] == p[23]);
    lemma_r32_of(b, i + 20, c.outgoing_bandwidth);
    assert(p[24] == b32_0(c.packet_throttle_interval) && p[25] == b32_1(c.packet_throttle_interval) && p[26] == b32_2(c.packet_throttle_interval) && p[27] == b32_3(c.packet_throttle_interval));
    assert(b[i + 24] == p[24] && b[i + 25] == p[25] && b[i + 26] == p[26] && b[i + 27] == p[27]);
    lemma_r32_of(b, i + 24, c.packet_throttle_interval);
    assert(p[28] == b32_0(c.packet_throttle_acceleration) && p[29] == b32_1(c.packet_throttle_acceleration) && p[30] == b32_2(c.packet_throttle_acceleration) && p[31] == b32_3(c.packet_throttle_acceleration));
    assert(b[i + 28] == p[28] && b[i + 29] == p[29] && b[i + 30] == p[30] && b[i + 31] == p[31]);
    lemma_r32_of(b, i + 28, c.packet_throttle_acceleration);
    assert(p[32] == b32_0(c.packet_throttle_deceleration) && p[33] == b32_1(c.packet_throttle_deceleration) && p[34] == b32_2(c.packet_throttle_deceleration) && p[35] == b32_3(c.packet_throttle_deceleration));
    assert(b[i + 32] == p[32] && b[i + 33] == p[33] && b[i + 34] == p[34] && b[i + 35] == p[35]);
    lemma_r32_of(b, i + 32, c.packet_throttle_deceleration);
    assert(p[36] == b32_0(c.connect_id) && p[37] == b32_1(c.connect_id) && p[38] == b32_2(c.connect_id) && p[39] == b32_3(c.connect_id));
    assert(b[i + 36] == p[36] && b[i + 37] == p[37] && b[i + 38] == p[38] && b[i + 39] == p[39]);
    lemma_r32_of(b, i + 36, c.connect_id);
}

proof fn lemma_pp_disconnect(d: DisconnectCommand, b: Seq<u8>, i: int)
    requires
        0 <= i,
        i + 4 <= b.len(),
        b.subrange(i, i + 4) == spec_payload(ProtocolCommandV::Disconnect(d)),
    ensures
        spec_parse_payload(4, b, i) == Ok::<(ProtocolCommandV, int), ENetError>(
            (ProtocolCommandV::Disconnect(d), i + 4),
        ),
{
    reveal(spec_parse_payload);
    let p = spec_payload(ProtocolCommandV::Disconnect(d));
    assert(p.len() == 4);
    lemma_seq_at(b, i, p);
    assert(p[0] == b32_0(d.data) && p[1] == b32_1(d.data) && p[2] == b32_2(d.data) && p[3] == b32_3(d.data));
    assert(b[i] == p[0] && b[i + 1] == p[1] && b[i + 2] == p[2] && b[i + 3] == p[3]);
    lemma_r32_of(b, i + 0, d.data);
}

proof fn lemma_pp_bandwidth(l: BandwidthLimitCommand, b: Seq<u8>, i: int)
    requires
        0 <= i,
        i + 8 <= b.len(),
        b.subrange(i, i + 8) == spec_payload(ProtocolCommandV::BandwidthLimit(l)),
    ensures
        spec_parse_payload(10, b, i) == Ok::<(ProtocolCommandV, int), ENetError>(
            (ProtocolCommandV::BandwidthLimit(l), i + 8),
        ),
{
    reveal(spec_parse_payload);
    let p = spec_payload(ProtocolCommandV::BandwidthLimit(l));
    assert(p.len() == 8);
    lemma_seq_at(b, i, p);
    assert(p[0] == b32_0(l.incoming_bandwidth) && p[1] == b32_1(l.incoming_bandwidth) && p[2] == b32_2(l.incoming_bandwidth) && p[3] == b32_3(l.incoming_bandwidth));
    assert(b[i] == p[0] && b[i + 1] == p[1] && b[i + 2] == p[2] && b[i + 3] == p[3]);
    lemma_r32_of(b, i + 0, l.incoming_bandwidth);
    assert(p[4] == b32_0(l.outgoing_bandwidth) && p[5] == b32_1(l.outgoing_bandwidth) && p[6] == b32_2(l.outgoing_bandwidth) && p[7] == b32_3(l.outgoing_bandwidth));
    assert(b[i + 4] == p[4] && b[i + 5] == p[5] && b[i + 6] == p[6] && b[i + 7] == p[7]);
    lemma_r32_of(b, i + 4, l.outgoing_bandwidth);
}

proof fn lemma_pp_throttle(t: ThrottleConfigureCommand, b: Seq<u8>, i: int)
    requires
        0 <= i,
        i + 12 <= b.len(),
        b.subrange(i, i + 12) == spec_payload(ProtocolCommandV::ThrottleConfigure(t)),
    ensures
        spec_parse_payload(11, b, i) == Ok::<(ProtocolCommandV, int), ENetError>(
            (ProtocolCommandV::ThrottleConfigure(t), i + 12),
        ),
{
    reveal(spec_parse_payload);
    let p = spec_payload(ProtocolCommandV::ThrottleConfigure(t));
    assert(p.len() == 12);
    lemma_seq_at(b, i, p);
    assert(p[0] == b32_0(t.packet_throttle_interval) && p[1] == b32_1(t.packet_throttle_interval) && p[2] == b32_2(t.packet_throttle_interval) && p[3] == b32_3(t.packet_throttle_interval));
    assert(b[i] == p[0] && b[i + 1] == p[1] && b[i + 2] == p[2] && b[i + 3] == p[3]);
    lemma_r32_of(b, i + 0, t.packet_throttle_interval);
    assert(p[4] == b32_0(t.packet_throttle_acceleration) && p[5] == b32_1(t.packet_throttle_acceleration) && p[6] == b32_2(t.packet_throttle_acceleration) && p[7] == b32_3(t.packet_throttle_acceleration));
    assert(b[i + 4] == p[4] && b[i + 5] == p[5] && b[i + 6] == p[6] && b[i + 7] == p[7]);
    lemma_r32_of(b, i + 4, t.packet_throttle_acceleration);
    assert(p[8] == b32_0(t.packet_throttle_deceleration) && p[9] == b32_1(t.packet_throttle_deceleration) && p[10] == b32_2(t.packet_throttle_deceleration) && p[11] == b32_3(t.packet_throttle_deceleration));
    assert(b[i + 8] == p[8] && b[i + 9] == p[9] && b[i + 10] == p[10] && b[i + 11] == p[11]);
    lemma_r32_of(b, i + 8, t.packet_throttle_deceleration);
}

proof fn lemma_pp_send_reliable(data: Seq<u8>, b: Seq<u8>, i: int)
    requires
        data.len() <= 0xFFFF,
        0 <= i,
        i + 2 + data.len() <= b.len(),
        b.subrange(i, i + 2 + data.len()) == spec_block(data),
    ensures
        spec_parse_payload(6, b, i) == Ok::<(ProtocolCommandV, int), ENetError>(
            (ProtocolCommandV::SendReliable { data }, i + 2 + data.len()),
        ),
{
    reveal(spec_parse_payload);
    let p = spec_block(data);
    lemma_seq_at(b, i, p);
    lemma_block_within(p, data, b, i, 0);
}

proof fn lemma_pp_send_unreliable(unreliable_sequence_number: u16, data: Seq<u8>, b: Seq<u8>, i: int)
    requires
        data.len() <= 0xFFFF,
        0 <= i,
        i + 4 + data.len() <= b.len(),
        b.subrange(i, i + 4 + data.len()) == spec_payload(ProtocolCommandV::SendUnreliable { unreliable_sequence_number, data }),
    ensures
        spec_parse_payload(7, b, i) == Ok::<(ProtocolCommandV, int), ENetError>(
            (ProtocolCommandV::SendUnreliable { unreliable_sequence_number, data }, i + 4 + data.len()),
        ),
{
    reveal(spec_parse_payload);
    let p = spec_payload(ProtocolCommandV::SendUnreliable { unreliable_sequence_number, data });
    let fixed = seq![b16_0(unreliable_sequence_number), b16_1(unreliable_sequence_number)];
    assert(p == fixed + spec_block(data));
    assert(p.len() == 4 + data.len());
    lemma_seq_at(b, i, p);
    assert(p[0] == fixed[0] && p[1] == fixed[1]);
    assert(b[i] == p[0] && b[i + 1] == p[1]);
    lemma_r16_of(b, i, unreliable_sequence_number);
    assert forall|k: int| 0 <= k < 2 + data.len() implies p[2 + k] == #[trigger] spec_block(
        data,
    )[k] by {
        assert((fixed + spec_block(data))[2 + k] == spec_block(data)[k]);
    }
    lemma_block_within(p, data, b, i, 2);
}

proof fn lemma_pp_send_unsequenced(unsequenced_group: u16, data: Seq<u8>, b: Seq<u8>, i: int)
    requires
        data.len() <= 0xFFFF,
        0 <= i,
        i + 4 + data.len() <= b.len(),
        b.subrange(i, i + 4 + data.len()) == spec_payload(ProtocolCommandV::SendUnsequenced { unsequenced_group, data }),
    ensures
        spec_parse_payload(9, b, i) == Ok::<(ProtocolCommandV, int), ENetError>(
            (ProtocolCommandV::SendUnsequenced { unsequenced_group, data }, i + 4 + data.len()),
        ),
{
    reveal(spec_parse_payload);
    let p = spec_payload(ProtocolCommandV::SendUnsequenced { unsequenced_group, data });
    let fixed = seq![b16_0(unsequenced_group), b16_1(unsequenced_group)];
    assert(p == fixed + spec_block(data));
    assert(p.len() == 4 + data.len());
    lemma_seq_at(b, i, p);
    assert(p[0] == fixed[0] && p[1] == fixed[1]);
    assert(b[i] == p[0] && b[i + 1] == p[1]);
    lemma_r16_of(b, i, unsequenced_group);
    assert forall|k: int| 0 <= k < 2 + data.len() implies p[2 + k] == #[trigger] spec_block(
        data,
    )[k] by {
        assert((fixed + spec_block(data))[2 + k] == spec_block(data)[k]);
    }
    lemma_block_within(p, data, b, i, 2);
}

#[verifier::rlimit(60)]
proof fn lemma_pp_send_fragment(
    start_sequence_number: u16,
    data_length: u16,
    fragment_count: u32,
    fragment_number: u32,
    total_length: u32,
    fragment_offset: u32,
    data: Seq<u8>,
    b: Seq<u8>,
    i: int,
)
    requires
        data.len() <= 0xFFFF,
        0 <= i,
        i + 22 + data.len() <= b.len(),
        b.subrange(i, i + 22 + data.len()) == spec_payload(ProtocolCommandV::SendFragment {
            start_sequence_number, data_length, fragment_count, fragment_number,
            total_length, fragment_offset, data,
        }),
    ensures
        spec_parse_payload(8, b, i) == Ok::<(ProtocolCommandV, int), ENetError>(
            (ProtocolCommandV::SendFragment {
                start_sequence_number, data_length, fragment_count, fragment_number,
                total_length, fragment_offset, data,
            }, i + 22 + data.len()),
        ),
{
    reveal(spec_parse_payload);
    let p = spec_payload(ProtocolCommandV::SendFragment {
        start_sequence_number, data_length, fragment_count, fragment_number,
        total_length, fragment_offset, data,
    });
    let fixed = seq![
        b16_0(start_sequence_number), b16_1(start_sequence_number),
        b16_0(data_length), b16_1(data_length),
        b32_0(fragment_count), b32_1(fragment_count), b32_2(fragment_count), b32_3(fragment_count),
        b32_0(fragment_number), b32_1(fragment_number), b32_2(fragment_number), b32_3(fragment_number),
        b32_0(total_length), b32_1(total_length), b32_2(total_length), b32_3(total_length),
        b32_0(fragment_offset), b32_1(fragment_offset), b32_2(fragment_offset), b32_3(fragment_offset),
    ];
    assert(p == fixed + spec_block(data));
    assert(p.len() == 22 + data.len());
    lemma_seq_at(b, i, p);
    assert forall|k: int| 0 <= k < 20 implies p[k] == #[trigger] fixed[k] by {
        assert((fixed + spec_block(data))[k] == fixed[k]);
    }
    assert(b[i] == p[0] && b[i + 1] == p[1] && b[i + 2] == p[2] && b[i + 3] == p[3]);
    assert(b[i + 4] == p[4] && b[i + 5] == p[5] && b[i + 6] == p[6] && b[i + 7] == p[7]);
    assert(b[i + 8] == p[8] && b[i + 9] == p[9] && b[i + 10] == p[10] && b[i + 11] == p[11]);
    assert(b[i + 12] == p[12] && b[i + 13] == p[13] && b[i + 14] == p[14] && b[i + 15] == p[15]);
    assert(b[i + 16] == p[16] && b[i + 17] == p[17] && b[i + 18] == p[18] && b[i + 19] == p[19]);
    lemma_r16_of(b, i, start_sequence_number);
    lemma_r16_of(b, i + 2, data_length);
    lemma_r32_of(b, i + 4, fragment_count);
    lemma_r32_of(b, i + 8, fragment_number);
    lemma_r32_of(b, i + 12, total_length);
    lemma_r32_of(b, i + 16, fragment_offset);
    assert forall|k: int| 0 <= k < 2 + data.len() implies p[20 + k] == #[trigger] spec_block(
        data,
    )[k] by {
        assert((fixed + spec_block(data))[20 + k] == spec_block(data)[k]);
    }
    lemma_block_within(p, data, b, i, 20);
}

#[verifier::rlimit(60)]
proof fn lemma_pp_send_unreliable_fragment(
    start_sequence_number: u16,
    data_length: u16,
    fragment_count: u32,
    fragment_number: u32,
    total_length: u32,
    fragment_offset: u32,
    data: Seq<u8>,
    b: Seq<u8>,
    i: int,
)
    requires
        data.len() <= 0xFFFF,
        0 <= i,
        i + 22 + data.len() <= b.len(),
        b.subrange(i, i + 22 + data.len()) == spec_payload(ProtocolCommandV::SendUnreliableFragment {
            start_sequence_number, data_length, fragment_count, fragment_number,
            total_length, fragment_offset, data,
        }),
    ensures
        spec_parse_payload(12, b, i) == Ok::<(ProtocolCommandV, int), ENetError>(
            (ProtocolCommandV::SendUnreliableFragment {
                start_sequence_number, data_length, fragment_count, fragment_number,
                total_length, fragment_offset, data,
            }, i + 22 + data.len()),
        ),
{
    reveal(spec_parse_payload);
    let p = spec_payload(ProtocolCommandV::SendUnreliableFragment {
        start_sequence_number, data_length, fragment_count, fragment_number,
        total_length, fragment_offset, data,
    });
    let fixed = seq![
        b16_0(start_sequence_number), b16_1(start_sequence_number),
        b16_0(data_length), b16_1(data_length),
        b32_0(fragment_count), b32_1(fragment_count), b32_2(fragment_count), b32_3(fragment_count),
        b32_0(fragment_number), b32_1(fragment_number), b32_2(fragment_number), b32_3(fragment_number),
        b32_0(total_length), b32_1(total_length), b32_2(total_length), b32_3(total_length),
        b32_0(fragment_offset), b32_1(fragment_offset), b32_2(fragment_offset), b32_3(fragment_offset),
    ];
    assert(p == fixed + spec_block(data));
    assert(p.len() == 22 + data.len());
    lemma_seq_at(b, i, p);
    assert forall|k: int| 0 <= k < 20 implies p[k] == #[trigger] fixed[k] by {
        assert((fixed + spec_block(data))[k] == fixed[k]);
    }
    assert(b[i] == p[0] && b[i + 1] == p[1] && b[i + 2] == p[2] && b[i + 3] == p[3]);
    assert(b[i + 4] == p[4] && b[i + 5] == p[5] && b[i + 6] == p[6] && b[i + 7] == p[7]);
    assert(b[i + 8] == p[8] && b[i + 9] == p[9] && b[i + 10] == p[10] && b[i + 11] == p[11]);
    assert(b[i + 12] == p[12] && b[i + 13] == p[13] && b[i + 14] == p[14] && b[i + 15] == p[15]);
    assert(b[i + 16] == p[16] && b[i + 17] == p[17] && b[i + 18] == p[18] && b[i + 19] == p[19]);
    lemma_r16_of(b, i, start_sequence_number);
    lemma_r16_of(b, i + 2, data_length);
    lemma_r32_of(b, i + 4, fragment_count);
    lemma_r32_of(b, i + 8, fragment_number);
    lemma_r32_of(b, i + 12, total_length);
    lemma_r32_of(b, i + 16, fragment_offset);
    assert forall|k: int| 0 <= k < 2 + data.len() implies p[20 + k] == #[trigger] spec_block(
        data,
    )[k] by {
        assert((fixed + spec_block(data))[20 + k] == spec_block(data)[k]);
    }
    lemma_block_within(p, data, b, i, 20);
}

/// A payload laid down at offset `i` parses back to the command it encodes,
/// consuming exactly the payload.
proof fn lemma_parse_payload_of_encoding(cv: ProtocolCommandV, b: Seq<u8>, i: int)
    requires
        spec_payload_encodable(cv),
        0 <= i,
        i + spec_payload(cv).len() <= b.len(),
        b.subrange(i, i + spec_payload(cv).len()) == spec_payload(cv),
    ensures
        spec_parse_payload(spec_command_id(cv), b, i) == Ok::<(ProtocolCommandV, int), ENetError>(
            (cv, i + spec_payload(cv).len()),
        ),
{
    match cv {
        ProtocolCommandV::NoCommand => {
            reveal(spec_parse_payload);
        },
        ProtocolCommandV::Ack(a) => lemma_pp_ack(a, b, i),
        ProtocolCommandV::Connect(c) => lemma_pp_connect(c, b, i),
        ProtocolCommandV::VerifyConnect(c) => lemma_pp_verify_connect(c, b, i),
        ProtocolCommandV::Disconnect(d) => lemma_pp_disconnect(d, b, i),
        ProtocolCommandV::Ping(_) => {
            reveal(spec_parse_payload);
        },
        ProtocolCommandV::SendReliable { data } => lemma_pp_send_reliable(data, b, i),
        ProtocolCommandV::SendUnreliable { unreliable_sequence_number, data } => {
            lemma_pp_send_unreliable(unreliable_sequence_number, data, b, i);
        },
        ProtocolCommandV::SendFragment {
            start_sequence_number,
            data_length,
            fragment_count,
            fragment_number,
            total_length,
            fragment_offset,
            data,
        } => {
            lemma_pp_send_fragment(
                start_sequence_number,
                data_length,
                fragment_count,
                fragment_number,
                total_length,
                fragment_offset,
                data,
                b,
                i,
            );
        },
        ProtocolCommandV::SendUnsequenced { unsequenced_group, data } => {
            lemma_pp_send_unsequenced(unsequenced_group, data, b, i);
        },
        ProtocolCommandV::BandwidthLimit(l) => lemma_pp_bandwidth(l, b, i),
        ProtocolCommandV::ThrottleConfigure(t) => lemma_pp_throttle(t, b, i),
        ProtocolCommandV::SendUnreliableFragment {
            start_sequence_number,
            data_length,
            fragment_count,
            fragment_number,
            total_length,
            fragment_offset,
            data,
        } => {
            lemma_pp_send_unreliable_fragment(
                start_sequence_number,
                data_length,
                fragment_count,
                fragment_number,
                total_length,
                fragment_offset,
                data,
                b,
                i,
            );
        },
        ProtocolCommandV::Count => {
            reveal(spec_parse_payload);
        },
    }
}

/// A length-prefixed block laid down at offset `j` parses back to its data.
proof fn lemma_block_at(data: Seq<u8>, b: Seq<u8>, j: int)
    requires
        data.len() <= 0xFFFF,
        0 <= j,
        j + 2 + data.len() <= b.len(),
        forall|k: int| 0 <= k < 2 + data.len() ==> b[j + k] == #[trigger] spec_block(data)[k],
    ensures
        spec_parse_block(b, j) == Ok::<(Seq<u8>, int), ENetError>((data, j + 2 + data.len())),
{
    let p = spec_block(data);
    assert(p.len() == 2 + data.len());
    assert(b[j + 0] == p[0] && b[j + 1] == p[1]);
    assert(p[0] == b16_0(data.len() as u16) && p[1] == b16_1(data.len() as u16));
    lemma_r16_of(b, j, data.len() as u16);
    assert(r16(b, j) as int == data.len());
    assert(b.subrange(j + 2, j + 2 + data.len()) =~= data) by {
        assert forall|k: int| 0 <= k < data.len() implies b[j + 2 + k] == data[k] by {
            assert(b[j + (2 + k)] == p[2 + k]);
            assert(p[2 + k] == data[k]);
        }
    }
}

/// Transfer the pointwise layout of a payload's trailing block from the
/// payload to the datagram bytes it sits in.
proof fn lemma_block_within(p: Seq<u8>, data: Seq<u8>, b: Seq<u8>, i: int, off: int)
    requires
        data.len() <= 0xFFFF,
        0 <= i,
        0 <= off,
        p.len() == off + 2 + data.len(),
        i + p.len() <= b.len(),
        forall|k: int| 0 <= k < p.len() ==> b[i + k] == #[trigger] p[k],
        forall|k: int| 0 <= k < 2 + data.len() ==> p[off + k] == #[trigger] spec_block(data)[k],
    ensures
        spec_parse_block(b, i + off) == Ok::<(Seq<u8>, int), ENetError>(
            (data, i + off + 2 + data.len()),
        ),
{
    assert forall|k: int| 0 <= k < 2 + data.len() implies b[(i + off) + k] == #[trigger] spec_block(
        data,
    )[k] by {
        assert(b[i + (off + k)] == p[off + k]);
    }
    lemma_block_at(data, b, i + off);
}

} // verus!
verus! {

/// Whether a command's metadata can ride in a datagram whose header decodes
/// to `hdr`: the shared header fields agree, and the fields the wire does
/// not carry are already in their decoded form.
pub open spec fn spec_info_wire_compatible(info: CommandInfo, hdr: DatagramHeader) -> bool {
    &&& info.addr == hdr.addr
    &&& info.peer_id.0 == hdr.peer_id
    &&& hdr.peer_id <= 0xFFF
    &&& info.internal_peer_id == info.peer_id
    &&& info.session_id == hdr.session_id
    &&& hdr.session_id <= 3
    &&& info.flags.send_time == hdr.send_time
    &&& info.flags.is_compressed == hdr.is_compressed
    &&& !info.flags.no_allocate
    &&& !info.flags.unreliable_fragment
    &&& !info.flags.sent
    &&& info.sent_time == hdr.sent_time as u64
}

/// The command ids all lie below 14.
proof fn lemma_command_id_bound(c: ProtocolCommandV)
    ensures
        spec_command_id(c) <= 13,
{
    match c {
        ProtocolCommandV::NoCommand => {},
        ProtocolCommandV::Ack(_) => {},
        ProtocolCommandV::Connect(_) => {},
        ProtocolCommandV::VerifyConnect(_) => {},
        ProtocolCommandV::Disconnect(_) => {},
        ProtocolCommandV::Ping(_) => {},
        ProtocolCommandV::SendReliable { .. } => {},
        ProtocolCommandV::SendUnreliable { .. } => {},
        ProtocolCommandV::SendFragment { .. } => {},
        ProtocolCommandV::SendUnsequenced { .. } => {},
        ProtocolCommandV::BandwidthLimit(_) => {},
        ProtocolCommandV::ThrottleConfigure(_) => {},
        ProtocolCommandV::SendUnreliableFragment { .. } => {},
        ProtocolCommandV::Count => {},
    }
}

/// The flag bits of a command byte read back as the flags folded into it.
proof fn lemma_command_byte_bits(id: u8, rel: u8, unseq: u8)
    requires
        id <= 13,
        rel == 0x80 || rel == 0,
        unseq == 0x40 || unseq == 0,
    ensures
        ((id | rel | unseq) & 0x0F) == id,
        (((id | rel | unseq) >> 7) & 1) == 1 <==> rel == 0x80,
        (((id | rel | unseq) >> 6) & 1) == 1 <==> unseq == 0x40,
{
    assert(((id | rel | unseq) & 0x0F) == id) by (bit_vector)
        requires
            id <= 13,
            rel == 0x80 || rel == 0,
            unseq == 0x40 || unseq == 0,
    ;
    assert((((id | rel | unseq) >> 7) & 1) == 1 <==> rel == 0x80) by (bit_vector)
        requires
            id <= 13,
            rel == 0x80 || rel == 0,
            unseq == 0x40 || unseq == 0,
    ;
    assert((((id | rel | unseq) >> 6) & 1) == 1 <==> unseq == 0x40) by (bit_vector)
        requires
            id <= 13,
            rel == 0x80 || rel == 0,
            unseq == 0x40 || unseq == 0,
    ;
}

/// One encoded command (header and payload) laid down at offset `i` parses
/// back to itself, consuming exactly its bytes.
proof fn lemma_parse_one_of_encoding(cv: CommandV, b: Seq<u8>, i: int, hdr: DatagramHeader)
    requires
        spec_payload_encodable(cv.command),
        spec_info_wire_compatible(cv.info, hdr),
        0 <= i,
        i + spec_command_bytes(cv.info, cv.command).len() <= b.len(),
        b.subrange(i, i + spec_command_bytes(cv.info, cv.command).len()) == spec_command_bytes(
            cv.info,
            cv.command,
        ),
    ensures
        spec_parse_one(b, i, hdr) == Ok::<(CommandV, int), ENetError>(
            (cv, i + spec_command_bytes(cv.info, cv.command).len()),
        ),
{
    reveal(spec_parse_one);
    let cb = spec_command_bytes(cv.info, cv.command);
    let p = spec_payload(cv.command);
    let cbyte = spec_command_byte(cv.command, cv.info.flags);
    let hdr4 = seq![
        cbyte,
        cv.info.channel_id,
        b16_0(cv.info.reliable_sequence_number),
        b16_1(cv.info.reliable_sequence_number),
    ];
    assert(cb == hdr4 + p);
    assert(cb.len() == 4 + p.len());
    lemma_seq_at(b, i, cb);
    assert(cb[0] == cbyte && cb[1] == cv.info.channel_id && cb[2] == b16_0(
        cv.info.reliable_sequence_number,
    ) && cb[3] == b16_1(cv.info.reliable_sequence_number));
    assert(b[i] == cb[0] && b[i + 1] == cb[1] && b[i + 2] == cb[2] && b[i + 3] == cb[3]);
    lemma_r16_of(b, i + 2, cv.info.reliable_sequence_number);

    let id = spec_command_id(cv.command);
    let rel: u8 = if cv.info.flags.reliable { 0x80 } else { 0 };
    let unseq: u8 = if cv.info.flags.unsequenced { 0x40 } else { 0 };
    lemma_command_id_bound(cv.command);
    assert(cbyte == id | rel | unseq);
    lemma_command_byte_bits(id, rel, unseq);
    assert((cbyte & 0x0F) == id);

    assert(b.subrange(i + 4, i + 4 + p.len()) =~= p) by {
        assert forall|k: int| 0 <= k < p.len() implies b[i + 4 + k] == p[k] by {
            assert(b[i + (4 + k)] == cb[4 + k]);
            assert(cb[4 + k] == p[k]);
        }
    }
    lemma_parse_payload_of_encoding(cv.command, b, i + 4);

    assert(spec_info_from(hdr, cbyte, cv.info.channel_id, cv.info.reliable_sequence_number)
        == cv.info);
}

/// The bytes of a sequence of commands, one after the other.
pub open spec fn spec_commands_bytes(cmds: Seq<CommandV>) -> Seq<u8>
    decreases cmds.len(),
{
    if cmds.len() == 0 {
        Seq::<u8>::empty()
    } else {
        spec_command_bytes(cmds[0].info, cmds[0].command) + spec_commands_bytes(
            cmds.subrange(1, cmds.len() as int),
        )
    }
}

/// Well-formed commands concatenated after offset `i` parse back as that
/// sequence, in order.
pub proof fn lemma_parse_commands_of_concat(
    b: Seq<u8>,
    i: int,
    hdr: DatagramHeader,
    cmds: Seq<CommandV>,
)
    requires
        0 <= i <= b.len(),
        b.len() - i == spec_commands_bytes(cmds).len(),
        b.subrange(i, b.len() as int) == spec_commands_bytes(cmds),
        forall|k: int| 0 <= k < cmds.len() ==> spec_payload_encodable(#[trigger] cmds[k].command),
        forall|k: int| 0 <= k < cmds.len() ==> spec_info_wire_compatible(
            #[trigger] cmds[k].info,
            hdr,
        ),
    ensures
        spec_parse_commands(b, i, hdr) == Ok::<Seq<CommandV>, ENetError>(cmds),
    decreases cmds.len(),
{
    if cmds.len() == 0 {
        assert(i == b.len());
        assert(cmds =~= Seq::<CommandV>::empty());
    } else {
        let c0 = cmds[0];
        let cb = spec_command_bytes(c0.info, c0.command);
        let rest = cmds.subrange(1, cmds.len() as int);
        let all = spec_commands_bytes(cmds);
        assert(all == cb + spec_commands_bytes(rest));
        lemma_seq_at(b, i, all);
        assert(b.subrange(i, i + cb.len()) =~= cb) by {
            assert forall|k: int| 0 <= k < cb.len() implies b[i + k] == cb[k] by {
                assert(b[i + k] == all[k]);
                assert(all[k] == cb[k]);
            }
        }
        lemma_parse_one_of_encoding(c0, b, i, hdr);
        let j = i + cb.len();
        assert(b.subrange(j, b.len() as int) =~= spec_commands_bytes(rest)) by {
            assert forall|k: int| 0 <= k < spec_commands_bytes(rest).len() implies b[j + k]
                == spec_commands_bytes(rest)[k] by {
                assert(b[i + (cb.len() + k)] == all[cb.len() + k]);
                assert(all[cb.len() + k] == spec_commands_bytes(rest)[k]);
            }
        }
        assert forall|k: int| 0 <= k < rest.len() implies spec_payload_encodable(
            #[trigger] rest[k].command,
        ) by {
            assert(rest[k] == cmds[k + 1]);
        }
        assert forall|k: int| 0 <= k < rest.len() implies spec_info_wire_compatible(
            #[trigger] rest[k].info,
            hdr,
        ) by {
            assert(rest[k] == cmds[k + 1]);
        }
        lemma_parse_commands_of_concat(b, j, hdr, rest);
        assert(cb.len() >= 4);
        assert(seq![c0] + rest =~= cmds);
    }
}

/// The datagram header a command's metadata encodes to, as the parser
/// recovers it.
pub open spec fn spec_header_of(info: CommandInfo, addr: PeerAddress) -> DatagramHeader {
    DatagramHeader {
        addr,
        peer_id: (info.peer_id.0 & 0xFFF),
        session_id: (info.session_id & 3),
        send_time: info.flags.send_time,
        is_compressed: info.flags.is_compressed,
        sent_time: if info.flags.send_time {
            (info.sent_time % 0x10000) as u16
        } else {
            0
        },
    }
}

/// The bit fields of the header word read back as what was folded into it.
proof fn lemma_pif_bits(st: u16, cm: u16, se: u16, pid: u16)
    requires
        st == 0x8000 || st == 0,
        cm == 0x4000 || cm == 0,
    ensures
        ((st | cm | ((se & 3) << 12) | (pid & 0xFFF)) >> 15) > 0 <==> st == 0x8000,
        (((st | cm | ((se & 3) << 12) | (pid & 0xFFF)) >> 14) & 1) == 1 <==> cm == 0x4000,
        ((st | cm | ((se & 3) << 12) | (pid & 0xFFF)) >> 12) & 3 == (se & 3),
        (st | cm | ((se & 3) << 12) | (pid & 0xFFF)) & 0xFFF == (pid & 0xFFF),
{
    assert(((st | cm | ((se & 3) << 12) | (pid & 0xFFF)) >> 15) > 0 <==> st == 0x8000)
        by (bit_vector)
        requires
            st == 0x8000 || st == 0,
            cm == 0x4000 || cm == 0,
    ;
    assert((((st | cm | ((se & 3) << 12) | (pid & 0xFFF)) >> 14) & 1) == 1 <==> cm == 0x4000)
        by (bit_vector)
        requires
            st == 0x8000 || st == 0,
            cm == 0x4000 || cm == 0,
    ;
    assert(((st | cm | ((se & 3) << 12) | (pid & 0xFFF)) >> 12) & 3 == (se & 3)) by (bit_vector)
        requires
            st == 0x8000 || st == 0,
            cm == 0x4000 || cm == 0,
    ;
    assert((st | cm | ((se & 3) << 12) | (pid & 0xFFF)) & 0xFFF == (pid & 0xFFF)) by (bit_vector)
        requires
            st == 0x8000 || st == 0,
            cm == 0x4000 || cm == 0,
    ;
}

/// An encoded protocol header parses back to the header fields it encodes.
proof fn lemma_parse_header_of_encoding(info: CommandInfo, addr: PeerAddress, b: Seq<u8>)
    requires
        spec_protocol_header_bytes(info).len() <= b.len(),
        b.subrange(0, spec_protocol_header_bytes(info).len() as int) == spec_protocol_header_bytes(
            info,
        ),
    ensures
        spec_parse_header(addr, b) == Ok::<(DatagramHeader, int), ENetError>(
            (spec_header_of(info, addr), spec_protocol_header_bytes(info).len() as int),
        ),
{
    let hb = spec_protocol_header_bytes(info);
    let pif = spec_peer_id_and_flags(info);
    lemma_seq_at(b, 0, hb);
    assert(hb[0] == b16_0(pif) && hb[1] == b16_1(pif));
    assert(b[0] == hb[0] && b[1] == hb[1]);
    lemma_r16_of(b, 0, pif);
    let st: u16 = if info.flags.send_time { 0x8000 } else { 0 };
    let cm: u16 = if info.flags.is_compressed { 0x4000 } else { 0 };
    assert(pif == st | cm | ((info.session_id & 3) << 12) | (info.peer_id.0 & 0xFFF));
    lemma_pif_bits(st, cm, info.session_id, info.peer_id.0);
    if info.flags.send_time {
        let stime = (info.sent_time % 0x10000) as u16;
        assert(hb[2] == b16_0(stime) && hb[3] == b16_1(stime));
        assert(b[2] == hb[2] && b[3] == hb[3]);
        lemma_r16_of(b, 2, stime);
    }
}

/// The metadata fields as the wire represents them: the peer id clipped to
/// its 12 wire bits (and mirrored into the local id), the session id to its
/// 2, the send time to its low 16 bits of milliseconds — or zero when it is
/// not carried at all — and the three purely local flags cleared.
pub open spec fn spec_wire_normalize(info: CommandInfo) -> CommandInfo {
    CommandInfo {
        addr: info.addr,
        flags: PacketFlags {
            reliable: info.flags.reliable,
            unsequenced: info.flags.unsequenced,
            no_allocate: false,
            unreliable_fragment: false,
            sent: false,
            send_time: info.flags.send_time,
            is_compressed: info.flags.is_compressed,
        },
        internal_peer_id: PeerID((info.peer_id.0 & 0xFFF) as u16),
        peer_id: PeerID((info.peer_id.0 & 0xFFF) as u16),
        channel_id: info.channel_id,
        session_id: (info.session_id & 3) as u16,
        reliable_sequence_number: info.reliable_sequence_number,
        sent_time: if info.flags.send_time {
            (info.sent_time % 0x10000) as u64
        } else {
            0
        },
    }
}

/// A datagram assembled from one protocol header and any number of
/// well-formed commands parses back to exactly those commands, in order.
pub proof fn lemma_parse_datagram_of_concatenation(info: CommandInfo, cmds: Seq<CommandV>)
    requires
        forall|k: int| 0 <= k < cmds.len() ==> spec_payload_encodable(#[trigger] cmds[k].command),
        forall|k: int| 0 <= k < cmds.len() ==> spec_info_wire_compatible(
            #[trigger] cmds[k].info,
            spec_header_of(info, info.addr),
        ),
    ensures
        spec_parse_datagram(
            info.addr,
            spec_protocol_header_bytes(info) + spec_commands_bytes(cmds),
        ) == Ok::<Seq<CommandV>, ENetError>(cmds),
{
    let hb = spec_protocol_header_bytes(info);
    let cb = spec_commands_bytes(cmds);
    let b = hb + cb;
    assert(b.subrange(0, hb.len() as int) =~= hb);
    lemma_parse_header_of_encoding(info, info.addr, b);
    assert(b.subrange(hb.len() as int, b.len() as int) =~= cb);
    lemma_parse_commands_of_concat(b, hb.len() as int, spec_header_of(info, info.addr), cmds);
}

/// Round trip for a single command: the datagram `serialize_command`
/// produces parses back to that command, its metadata reduced to what the
/// wire can carry (`spec_wire_normalize`).
pub proof fn lemma_command_round_trip(cmd: CommandV)
    requires
        spec_payload_encodable(cmd.command),
    ensures
        spec_parse_datagram(cmd.info.addr, spec_datagram_bytes(cmd)) == Ok::<
            Seq<CommandV>,
            ENetError,
        >(seq![CommandV { info: spec_wire_normalize(cmd.info), command: cmd.command }]),
{
    let ninfo = spec_wire_normalize(cmd.info);
    let ncmd = CommandV { info: ninfo, command: cmd.command };
    let hdr = spec_header_of(cmd.info, cmd.info.addr);
    let pid = cmd.info.peer_id.0;
    let se = cmd.info.session_id;
    assert(pid & 0xFFF <= 0xFFF) by (bit_vector);
    assert(se & 3 <= 3) by (bit_vector);
    assert(spec_info_wire_compatible(ninfo, hdr));
    let cmds = seq![ncmd];
    assert(cmds[0] == ncmd);
    assert(spec_commands_bytes(cmds) =~= spec_command_bytes(ninfo, cmd.command)) by {
        assert(cmds.subrange(1, 1) =~= Seq::<CommandV>::empty());
        assert(spec_commands_bytes(cmds.subrange(1, 1)) =~= Seq::<u8>::empty());
    }
    assert(spec_command_bytes(ninfo, cmd.command) == spec_command_bytes(cmd.info, cmd.command));
    lemma_parse_datagram_of_concatenation(cmd.info, cmds);
    assert(spec_datagram_bytes(cmd) == spec_protocol_header_bytes(cmd.info) + spec_commands_bytes(
        cmds,
    ));
}

} // verus!
