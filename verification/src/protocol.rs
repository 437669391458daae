//! Fixed-header vocabulary: packet types, their flag rules, and the
//! byte-at-a-time parser for the first bytes of a packet.
use vstd::prelude::*;

use crate::Error;

verus! {

/// Largest value the remaining-length field can carry.
pub const MAX_REMAINING_LEN: u32 = 268_435_455;

/// The fourteen control packets of MQTT 3.1.1.
#[derive(Clone, Copy, Debug, PartialEq, Eq, Structural)]
pub enum PacketType {
    Connect,
    ConnAck,
    Publish,
    PubAck,
    PubRec,
    PubRel,
    PubComp,
    Subscribe,
    SubAck,
    Unsubscribe,
    UnsubAck,
    PingReq,
    PingResp,
    Disconnect,
}

impl PacketType {
    /// The value of the type in the high nibble of the first byte.
    pub open spec fn code(self) -> u8 {
        match self {
            PacketType::Connect => 1,
            PacketType::ConnAck => 2,
            PacketType::Publish => 3,
            PacketType::PubAck => 4,
            PacketType::PubRec => 5,
            PacketType::PubRel => 6,
            PacketType::PubComp => 7,
            PacketType::Subscribe => 8,
            PacketType::SubAck => 9,
            PacketType::Unsubscribe => 10,
            PacketType::UnsubAck => 11,
            PacketType::PingReq => 12,
            PacketType::PingResp => 13,
            PacketType::Disconnect => 14,
        }
    }

    /// The type a nibble stands for, if any.
    pub open spec fn from_code(value: u8) -> Option<PacketType> {
        if value == 1 {
            Some(PacketType::Connect)
        } else if value == 2 {
            Some(PacketType::ConnAck)
        } else if value == 3 {
            Some(PacketType::Publish)
        } else if value == 4 {
            Some(PacketType::PubAck)
        } else if value == 5 {
            Some(PacketType::PubRec)
        } else if value == 6 {
            Some(PacketType::PubRel)
        } else if value == 7 {
            Some(PacketType::PubComp)
        } else if value == 8 {
            Some(PacketType::Subscribe)
        } else if value == 9 {
            Some(PacketType::SubAck)
        } else if value == 10 {
            Some(PacketType::Unsubscribe)
        } else if value == 11 {
            Some(PacketType::UnsubAck)
        } else if value == 12 {
            Some(PacketType::PingReq)
        } else if value == 13 {
            Some(PacketType::PingResp)
        } else if value == 14 {
            Some(PacketType::Disconnect)
        } else {
            None
        }
    }

    /// Which low nibbles the fixed header of this type may carry. PUBLISH
    /// packs DUP, QoS and RETAIN there and is checked when its flags are
    /// decoded; PUBREL, SUBSCRIBE and UNSUBSCRIBE carry `0010`; all others zero.
    pub open spec fn flags_valid(self, flags: u8) -> bool {
        match self {
            PacketType::Publish => true,
            PacketType::PubRel | PacketType::Subscribe | PacketType::Unsubscribe => flags == 2,
            _ => flags == 0,
        }
    }

    /// The low nibble this type is sent with when it has no choice in it.
    pub open spec fn fixed_flags(self) -> u8 {
        match self {
            PacketType::PubRel | PacketType::Subscribe | PacketType::Unsubscribe => 2,
            _ => 0,
        }
    }

    pub fn to_u8(self) -> (r: u8)
        ensures
            r == self.code(),
            1 <= r <= 14,
    {
        match self {
            PacketType::Connect => 1,
            PacketType::ConnAck => 2,
            PacketType::Publish => 3,
            PacketType::PubAck => 4,
            PacketType::PubRec => 5,
            PacketType::PubRel => 6,
            PacketType::PubComp => 7,
            PacketType::Subscribe => 8,
            PacketType::SubAck => 9,
            PacketType::Unsubscribe => 10,
            PacketType::UnsubAck => 11,
            PacketType::PingReq => 12,
            PacketType::PingResp => 13,
            PacketType::Disconnect => 14,
        }
    }

    pub fn try_from(value: u8) -> (r: Result<PacketType, Error>)
        ensures
            r == match PacketType::from_code(value) {
                Some(t) => Ok::<PacketType, Error>(t),
                None => Err(Error::InvalidPacketType),
            },
            r is Ok <==> 1 <= value <= 14,
    {
        match value {
            1 => Ok(PacketType::Connect),
            2 => Ok(PacketType::ConnAck),
            3 => Ok(PacketType::Publish),
            4 => Ok(PacketType::PubAck),
            5 => Ok(PacketType::PubRec),
            6 => Ok(PacketType::PubRel),
            7 => Ok(PacketType::PubComp),
            8 => Ok(PacketType::Subscribe),
            9 => Ok(PacketType::SubAck),
            10 => Ok(PacketType::Unsubscribe),
            11 => Ok(PacketType::UnsubAck),
            12 => Ok(PacketType::PingReq),
            13 => Ok(PacketType::PingResp),
            14 => Ok(PacketType::Disconnect),
            _ => Err(Error::InvalidPacketType),
        }
    }

    pub fn validate_flags(&self, flags: u8) -> (r: bool)
        ensures
            r == self.flags_valid(flags),
    {
        match self {
            PacketType::Publish => true,
            PacketType::PubRel | PacketType::Subscribe | PacketType::Unsubscribe => flags == 0b0010,
            _ => flags == 0,
        }
    }
}

/// `from_code` undoes `code`, and nothing outside 1..=14 is a type.
pub proof fn lemma_code_round_trip(t: PacketType)
    ensures
        PacketType::from_code(t.code()) == Some(t),
        1 <= t.code() <= 14,
{
}

#[derive(Clone, Copy, Debug, PartialEq, Eq, Structural)]
pub struct FixedHeader {
    pub packet_type: PacketType,
    pub flags: u8,
    pub remaining_len: u32,
}

/// 128 to the power `n`, for the digits of a remaining length.
pub open spec fn pow128(n: nat) -> nat
    decreases n,
{
    if n == 0 {
        1
    } else {
        128 * pow128((n - 1) as nat)
    }
}

/// Where the byte-at-a-time header parser stands.
#[derive(Clone, Copy, Debug, PartialEq, Eq, Structural)]
pub enum State {
    /// Nothing of the packet has been seen.
    Start,
    /// The first byte is in; `byte_read` digits of the remaining length
    /// have been added up into `value`.
    RemainingLen { multiplier: u32, value: u32, byte_read: u8, packet_type: PacketType, flags: u8 },
    /// The fixed header is complete.
    Body { header: FixedHeader },
}

impl State {
    /// A state the parser itself can have produced.
    pub open spec fn wf(self) -> bool {
        match self {
            State::Start => true,
            State::RemainingLen { multiplier, value, byte_read, packet_type, flags } => {
                &&& byte_read < 4
                &&& multiplier == pow128(byte_read as nat)
                &&& value < multiplier
            },
            State::Body { header } => header.remaining_len <= MAX_REMAINING_LEN,
        }
    }
}

/// What the first byte of a packet says, or why it is refused.
pub open spec fn first_byte_meaning(byte: u8) -> Result<(PacketType, u8), Error> {
    match PacketType::from_code(byte / 16) {
        None => Err(Error::InvalidPacketType),
        Some(t) => if t.flags_valid(byte % 16) {
            Ok((t, byte % 16))
        } else {
            Err(Error::InvalidFlags)
        },
    }
}

/// Splits the first byte of a packet into type and flags and checks that
/// the flags are legal for the type.
pub fn parse_first_byte(byte: u8) -> (r: Result<(PacketType, u8), Error>)
    ensures
        r == first_byte_meaning(byte),
        r matches Ok((t, flags)) ==> flags < 16 && t.flags_valid(flags) && byte == t.code() * 16
            + flags,
{
    let packet_type = PacketType::try_from(byte / 16)?;
    let flags = byte % 16;

    if !packet_type.validate_flags(flags) {
        return Err(Error::InvalidFlags);
    }
    Ok((packet_type, flags))
}

/// What one more length byte does to a parser that is reading the remaining
/// length: the new state, and the header if this byte completed it. The
/// fourth byte must be the last one.
pub open spec fn remaining_len_step(state: State, byte: u8) -> Result<(State, Option<FixedHeader>), Error>
    recommends
        state is RemainingLen,
        state.wf(),
{
    let multiplier = state->multiplier;
    let value = state->value;
    let byte_read = state->byte_read;
    let packet_type = state->packet_type;
    let flags = state->flags;
    let sum = (value + (byte % 128) * multiplier) as u32;
    if byte >= 128 {
        if byte_read >= 3 {
            Err(Error::MalformedRemainingLength)
        } else {
            Ok(
                (
                    State::RemainingLen {
                        multiplier: (multiplier * 128) as u32,
                        value: sum,
                        byte_read: (byte_read + 1) as u8,
                        packet_type,
                        flags,
                    },
                    None,
                ),
            )
        }
    } else {
        let header = FixedHeader { packet_type, flags, remaining_len: sum };
        Ok((State::Body { header }, Some(header)))
    }
}

/// The powers of 128 that a remaining length can need.
pub proof fn lemma_pow128_values()
    ensures
        pow128(0) == 1,
        pow128(1) == 128,
        pow128(2) == 16_384,
        pow128(3) == 2_097_152,
        pow128(4) == 268_435_456,
{
    reveal_with_fuel(pow128, 5);
}

/// One more digit keeps the sum below the next power of 128, and far
/// below what 32 bits hold.
pub proof fn lemma_remaining_len_sum(state: State, byte: u8)
    requires
        state is RemainingLen,
        state.wf(),
    ensures
        state->value + (byte % 128) * state->multiplier < pow128((state->byte_read + 1) as nat),
        state->value + (byte % 128) * state->multiplier <= MAX_REMAINING_LEN,
        state->multiplier * 128 == pow128((state->byte_read + 1) as nat),
{
    lemma_pow128_values();
    reveal_with_fuel(pow128, 5);
    let digit = (byte % 128) as int;
    let multiplier = state->multiplier as int;
    assert(digit * multiplier <= 127 * multiplier) by (nonlinear_arith)
        requires
            digit <= 127,
            multiplier >= 0,
    ;
}

/// Feeds one byte of the remaining length to the parser. Returns the
/// finished header once a byte without the continuation bit arrives, and
/// `MalformedRemainingLength` when the fourth byte still asks for more. On
/// an error the state is left as it was.
pub fn parse_remaining_len_byte(state: &mut State, byte: u8) -> (r: Result<
    Option<FixedHeader>,
    Error,
>)
    requires
        *old(state) is RemainingLen,
        old(state).wf(),
    ensures
        match remaining_len_step(*old(state), byte) {
            Ok((next, header)) => r == Ok::<Option<FixedHeader>, Error>(header) && *final(state)
                == next,
            Err(e) => r == Err::<Option<FixedHeader>, Error>(e) && *final(state) == *old(state),
        },
        final(state).wf(),
{
    match *state {
        State::RemainingLen { multiplier, value, byte_read, packet_type, flags } => {
            proof {
                lemma_pow128_values();
                reveal_with_fuel(pow128, 5);
            }
            let digit: u32 = (byte % 128) as u32;
            assert(digit * multiplier <= 127 * multiplier) by (nonlinear_arith)
                requires
                    digit <= 127,
                    multiplier >= 0,
            ;
            let sum: u32 = value + digit * multiplier;
            if byte >= 128 {
                if byte_read >= 3 {
                    return Err(Error::MalformedRemainingLength);
                }
                *state = State::RemainingLen {
                    multiplier: multiplier * 128,
                    value: sum,
                    byte_read: byte_read + 1,
                    packet_type,
                    flags,
                };
                Ok(None)
            } else {
                let header = FixedHeader { packet_type, flags, remaining_len: sum };
                *state = State::Body { header };
                Ok(Some(header))
            }
        },
        _ => Err(Error::MalformedRemainingLength),
    }
}

} // verus!
