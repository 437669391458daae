//! CONNECT and CONNACK.
use vstd::prelude::*;
use vstd::string::StringSliceAdditionalSpecFns;
use vstd::utf8::valid_utf8;

use crate::buffer;
use crate::packet::decode::{
    self, lemma_take_binary_of_prefixed, lemma_take_u16_of_be_bytes, lemma_take_utf8_of_prefixed,
    take_binary, take_u16, take_u8, take_utf8,
};
use crate::packet::encode::{
    self, be_bytes, kept, lemma_wrote_twice, prefixed, write_outcome, wrote,
};
use crate::packet::QoS;
use crate::Error;

verus! {

/// What the application says when it asks for a connection.
#[derive(Debug, Clone, Copy)]
pub struct Options<'a> {
    pub clean_session: bool,
    pub keep_alive: u16,
    pub client_id: &'a str,
    pub will: Option<WillOptions<'a>>,
    pub username: Option<&'a str>,
    pub password: Option<&'a str>,
}

#[derive(Debug, Clone, Copy)]
pub struct WillOptions<'a> {
    pub qos: QoS,
    pub retain: bool,
    pub topic: &'a str,
    pub payload: &'a [u8],
}

impl<'a> Options<'a> {
    /// The CONNECT that these options ask for.
    pub open spec fn view(&self) -> ConnectView {
        ConnectView {
            clean_session: self.clean_session,
            keep_alive: self.keep_alive,
            client_id: self.client_id.spec_bytes(),
            will: match self.will {
                Some(will) => Some(
                    WillView {
                        qos: will.qos,
                        retain: will.retain,
                        topic: will.topic.spec_bytes(),
                        payload: will.payload@,
                    },
                ),
                None => None,
            },
            username: match self.username {
                Some(text) => Some(text.spec_bytes()),
                None => None,
            },
            password: match self.password {
                Some(text) => Some(text.spec_bytes()),
                None => None,
            },
        }
    }
}

/// The message the broker publishes when the client goes away ungracefully.
#[derive(Debug, Clone, Copy)]
pub struct Will<'a> {
    pub qos: QoS,
    pub retain: bool,
    pub topic: buffer::String<'a>,
    pub payload: buffer::Slice<'a>,
}

/// What a `Will` holds.
pub struct WillView {
    pub qos: QoS,
    pub retain: bool,
    pub topic: Seq<u8>,
    pub payload: Seq<u8>,
}

impl<'a> Will<'a> {
    pub open spec fn view(&self) -> WillView {
        WillView {
            qos: self.qos,
            retain: self.retain,
            topic: self.topic@,
            payload: self.payload@,
        }
    }
}

/// The CONNECT packet.
#[derive(Debug, Clone, Copy)]
pub struct Connect<'a> {
    pub clean_session: bool,
    pub keep_alive: u16,
    pub client_id: buffer::String<'a>,
    pub will: Option<Will<'a>>,
    pub username: Option<buffer::String<'a>>,
    pub password: Option<buffer::Slice<'a>>,
}

/// What a `Connect` holds.
pub struct ConnectView {
    pub clean_session: bool,
    pub keep_alive: u16,
    pub client_id: Seq<u8>,
    pub will: Option<WillView>,
    pub username: Option<Seq<u8>>,
    pub password: Option<Seq<u8>>,
}

/// The bytes `M Q T T`.
pub open spec fn protocol_name() -> Seq<u8> {
    seq![0x4Du8, 0x51u8, 0x54u8, 0x54u8]
}

/// The protocol level of MQTT 3.1.1.
pub const PROTOCOL_LEVEL: u8 = 4;

/// A field that is on the wire only when its flag is set.
pub open spec fn optional_field(field: Option<Seq<u8>>) -> Seq<u8> {
    match field {
        Some(bytes) => prefixed(bytes),
        None => Seq::empty(),
    }
}

pub open spec fn fits_u16(field: Option<Seq<u8>>) -> bool {
    field matches Some(bytes) ==> bytes.len() <= u16::MAX
}

impl ConnectView {
    /// The connect-flags byte: user name, password, will retain, will QoS
    /// (two bits), will, clean session, and a reserved zero, from the top.
    pub open spec fn flags(self) -> u8 {
        ((if self.username is Some { 128int } else { 0 })
            + (if self.password is Some { 64int } else { 0 })
            + (match self.will {
            Some(will) => (if will.retain { 32int } else { 0 }) + 8 * will.qos.level() + 4,
            None => 0,
        }) + (if self.clean_session { 2int } else { 0 })) as u8
    }

    /// The will topic and payload, when there is a will.
    pub open spec fn will_bytes(self) -> Seq<u8> {
        match self.will {
            Some(will) => prefixed(will.topic) + prefixed(will.payload),
            None => Seq::empty(),
        }
    }

    /// The fields after the keep-alive: client identifier, will, user name, password.
    pub open spec fn payload(self) -> Seq<u8> {
        prefixed(self.client_id) + self.will_bytes() + optional_field(self.username)
            + optional_field(self.password)
    }

    /// What stands before the payload: protocol name, protocol level,
    /// connect flags and keep-alive.
    pub open spec fn variable_header(self) -> Seq<u8> {
        prefixed(protocol_name()) + seq![PROTOCOL_LEVEL, self.flags()] + be_bytes(self.keep_alive)
    }

    /// The body of the packet on the wire.
    pub open spec fn body(self) -> Seq<u8> {
        self.variable_header() + self.payload()
    }

    /// The length of `body()`, written out.
    pub open spec fn body_len(self) -> nat {
        12 + self.client_id.len() + (match self.will {
            Some(will) => 4 + will.topic.len() + will.payload.len(),
            None => 0,
        }) + (match self.username {
            Some(bytes) => 2 + bytes.len(),
            None => 0,
        }) + (match self.password {
            Some(bytes) => 2 + bytes.len(),
            None => 0,
        })
    }

    /// Every length-prefixed field is short enough for its prefix.
    pub open spec fn encodable(self) -> bool {
        &&& self.client_id.len() <= u16::MAX
        &&& self.will matches Some(will) ==> will.topic.len() <= u16::MAX && will.payload.len()
            <= u16::MAX
        &&& fits_u16(self.username)
        &&& fits_u16(self.password)
    }

    /// Encodable, and every text is UTF-8: what a decoder accepts.
    pub open spec fn legal(self) -> bool {
        &&& self.encodable()
        &&& valid_utf8(self.client_id)
        &&& self.will matches Some(will) ==> valid_utf8(will.topic)
        &&& self.username matches Some(bytes) ==> valid_utf8(bytes)
    }

    pub proof fn lemma_body_len(self)
        ensures
            self.body().len() == self.body_len(),
    {
    }
}

/// The will that the connect flags announce, off the front of `s`.
pub open spec fn take_will(flags: u8, qos: QoS, s: Seq<u8>) -> Result<(Option<WillView>, Seq<u8>), Error> {
    if (flags / 4) % 2 == 1 {
        match take_utf8(s) {
            Err(e) => Err(e),
            Ok((topic, s1)) => match take_binary(s1) {
                Err(e) => Err(e),
                Ok((payload, s2)) => Ok(
                    (Some(WillView { qos, retain: (flags / 32) % 2 == 1, topic, payload }), s2),
                ),
            },
        }
    } else {
        Ok((None, s))
    }
}

/// A text that is there only if `present`, off the front of `s`.
pub open spec fn take_optional_utf8(present: bool, s: Seq<u8>) -> Result<(Option<Seq<u8>>, Seq<u8>), Error> {
    if present {
        match take_utf8(s) {
            Err(e) => Err(e),
            Ok((bytes, rest)) => Ok((Some(bytes), rest)),
        }
    } else {
        Ok((None, s))
    }
}

/// A binary field that is there only if `present`, off the front of `s`.
pub open spec fn take_optional_binary(present: bool, s: Seq<u8>) -> Result<(Option<Seq<u8>>, Seq<u8>), Error> {
    if present {
        match take_binary(s) {
            Err(e) => Err(e),
            Ok((bytes, rest)) => Ok((Some(bytes), rest)),
        }
    } else {
        Ok((None, s))
    }
}

/// What follows the connect flags: keep-alive, client identifier and the
/// fields that the flags announce, with nothing left over.
#[verifier::opaque]
pub open spec fn parse_connect_fields(flags: u8, qos: QoS, s: Seq<u8>) -> Result<ConnectView, Error> {
    match take_u16(s) {
        Err(e) => Err(e),
        Ok((keep_alive, s1)) => match take_utf8(s1) {
            Err(e) => Err(e),
            Ok((client_id, s2)) => match take_will(flags, qos, s2) {
                Err(e) => Err(e),
                Ok((will, s3)) => match take_optional_utf8(flags / 128 == 1, s3) {
                    Err(e) => Err(e),
                    Ok((username, s4)) => match take_optional_binary((flags / 64) % 2 == 1, s4) {
                        Err(e) => Err(e),
                        Ok((password, s5)) => if s5.len() != 0 {
                            Err(Error::MalformedPacket)
                        } else {
                            Ok(
                                ConnectView {
                                    clean_session: (flags / 2) % 2 == 1,
                                    keep_alive,
                                    client_id,
                                    will,
                                    username,
                                    password,
                                },
                            )
                        },
                    },
                },
            },
        },
    }
}

/// What a CONNECT body means: the protocol name `MQTT`, level 4, the
/// connect flags with their reserved bit zero, then the fields.
#[verifier::opaque]
pub open spec fn parse_connect(body: Seq<u8>) -> Result<ConnectView, Error> {
    match take_binary(body) {
        Err(e) => Err(e),
        Ok((name, s1)) => if name != protocol_name() {
            Err(Error::MalformedPacket)
        } else {
            match take_u8(s1) {
                Err(e) => Err(e),
                Ok((level, s2)) => if level != PROTOCOL_LEVEL {
                    Err(Error::MalformedPacket)
                } else {
                    match take_u8(s2) {
                        Err(e) => Err(e),
                        Ok((flags, s3)) => if flags % 2 != 0 {
                            Err(Error::MalformedPacket)
                        } else {
                            match QoS::from_level((flags / 8) % 4) {
                                None => Err(Error::InvalidQoS),
                                Some(qos) => parse_connect_fields(flags, qos, s3),
                            }
                        },
                    }
                },
            }
        },
    }
}

impl<'a> Connect<'a> {
    pub open spec fn view(&self) -> ConnectView {
        ConnectView {
            clean_session: self.clean_session,
            keep_alive: self.keep_alive,
            client_id: self.client_id@,
            will: match self.will {
                Some(will) => Some(will@),
                None => None,
            },
            username: match self.username {
                Some(text) => Some(text@),
                None => None,
            },
            password: match self.password {
                Some(bytes) => Some(bytes@),
                None => None,
            },
        }
    }

    /// The packet that asks for the connection that `value` describes.
    pub fn from_options(value: Options<'a>) -> (r: Self)
        ensures
            r@ == value@,
    {
        let will = match value.will {
            Some(will) => Some(
                Will {
                    qos: will.qos,
                    retain: will.retain,
                    topic: buffer::String::from_str(will.topic),
                    payload: buffer::Slice::from_bytes(will.payload),
                },
            ),
            None => None,
        };
        let username = match value.username {
            Some(text) => Some(buffer::String::from_str(text)),
            None => None,
        };
        let password = match value.password {
            Some(text) => Some(buffer::Slice::from_str(text)),
            None => None,
        };
        Connect {
            clean_session: value.clean_session,
            keep_alive: value.keep_alive,
            client_id: buffer::String::from_str(value.client_id),
            will,
            username,
            password,
        }
    }

    /// The low nibble of the fixed header of a CONNECT.
    pub fn flags(&self) -> (r: u8)
        ensures
            r == 0,
    {
        0
    }

    /// Whether every length-prefixed field is short enough for its prefix.
    pub fn is_encodable(&self) -> (r: bool)
        ensures
            r == self@.encodable(),
    {
        if self.client_id.len() > 65_535 {
            return false;
        }
        if let Some(will) = &self.will {
            if will.topic.len() > 65_535 || will.payload.len() > 65_535 {
                return false;
            }
        }
        if let Some(username) = &self.username {
            if username.len() > 65_535 {
                return false;
            }
        }
        if let Some(password) = &self.password {
            if password.len() > 65_535 {
                return false;
            }
        }
        true
    }

    /// The connect-flags byte of this packet.
    pub fn connect_flags(&self) -> (r: u8)
        ensures
            r == self@.flags(),
    {
        let mut flags: u8 = 0;
        if self.username.is_some() {
            flags += 128;
        }
        if self.password.is_some() {
            flags += 64;
        }
        if let Some(will) = &self.will {
            if will.retain {
                flags += 32;
            }
            flags += 8 * will.qos.to_u8() + 4;
        }
        if self.clean_session {
            flags += 2;
        }
        flags
    }

    /// The exact number of bytes that the body takes on the wire.
    pub fn required_space(&self) -> (r: usize)
        requires
            self@.body_len() <= usize::MAX,
        ensures
            r == self@.body().len(),
    {
        let mut required: usize = 12 + self.client_id.len();

        if let Some(will) = &self.will {
            required += 4 + will.topic.len() + will.payload.len();
        }
        if let Some(username) = &self.username {
            required += 2 + username.len();
        }
        if let Some(password) = &self.password {
            required += 2 + password.len();
        }
        required
    }

    /// Writes protocol name, protocol level, connect flags and keep-alive.
    fn encode_variable_header(&self, cursor: &mut encode::Cursor)
        requires
            old(cursor).wf(),
            old(cursor).room() >= 10,
        ensures
            wrote(*old(cursor), *final(cursor), self@.variable_header()),
            final(final(cursor).backing())@ == final(old(cursor).backing())@,
    {
        let ghost start = *cursor;
        let name: [u8; 4] = [0x4D, 0x51, 0x54, 0x54];
        let _ = cursor.write_binary_chunk(name.as_slice());
        assert(name@ =~= protocol_name());
        let ghost first = *cursor;
        let _ = cursor.write_u8(PROTOCOL_LEVEL);
        let ghost second = *cursor;
        let flags = self.connect_flags();
        let _ = cursor.write_u8(flags);
        let ghost third = *cursor;
        let _ = cursor.write_u16(self.keep_alive);
        proof {
            let name_bytes = prefixed(protocol_name());
            lemma_wrote_twice(start, first, second, name_bytes, seq![PROTOCOL_LEVEL]);
            lemma_wrote_twice(start, second, third, name_bytes + seq![PROTOCOL_LEVEL], seq![flags]);
            lemma_wrote_twice(
                start,
                third,
                *cursor,
                name_bytes + seq![PROTOCOL_LEVEL] + seq![flags],
                be_bytes(self.keep_alive),
            );
            assert(name_bytes + seq![PROTOCOL_LEVEL] + seq![flags] + be_bytes(self.keep_alive)
                =~= self@.variable_header());
        }
    }

    /// Writes the will topic and payload, when there is a will.
    fn encode_will(&self, cursor: &mut encode::Cursor)
        requires
            old(cursor).wf(),
            self@.encodable(),
            old(cursor).room() >= self@.will_bytes().len(),
        ensures
            wrote(*old(cursor), *final(cursor), self@.will_bytes()),
            final(final(cursor).backing())@ == final(old(cursor).backing())@,
    {
        if let Some(will) = &self.will {
            let ghost start = *cursor;
            let _ = cursor.write_binary_chunk(will.topic.as_bytes());
            let ghost mid = *cursor;
            let _ = cursor.write_binary_chunk(will.payload.as_bytes());
            proof {
                lemma_wrote_twice(
                    start,
                    mid,
                    *cursor,
                    prefixed(will.topic@),
                    prefixed(will.payload@),
                );
            }
        } else {
            assert(self@.will_bytes() =~= Seq::<u8>::empty());
        }
    }

    /// Writes user name and password, as far as they are there.
    fn encode_credentials(&self, cursor: &mut encode::Cursor)
        requires
            old(cursor).wf(),
            self@.encodable(),
            old(cursor).room() >= optional_field(self@.username).len() + optional_field(
                self@.password,
            ).len(),
        ensures
            wrote(
                *old(cursor),
                *final(cursor),
                optional_field(self@.username) + optional_field(self@.password),
            ),
            final(final(cursor).backing())@ == final(old(cursor).backing())@,
    {
        let ghost start = *cursor;
        if let Some(username) = &self.username {
            let _ = cursor.write_binary_chunk(username.as_bytes());
        }
        let ghost mid = *cursor;
        if let Some(password) = &self.password {
            let _ = cursor.write_binary_chunk(password.as_bytes());
        }
        proof {
            let first = optional_field(self@.username);
            let second = optional_field(self@.password);
            if self.username is Some && self.password is Some {
                lemma_wrote_twice(start, mid, *cursor, first, second);
            } else {
                assert(first + second =~= if self.username is Some {
                    first
                } else {
                    second
                });
            }
        }
    }

    /// Writes the body. A packet with a field too long for its prefix is
    /// refused with `MalformedPacket`, one that does not fit with
    /// `UnexpectedEof`; either way nothing is written.
    pub fn encode_body(&self, cursor: &mut encode::Cursor) -> (r: Result<(), Error>)
        requires
            old(cursor).wf(),
        ensures
            self@.encodable() ==> write_outcome(*old(cursor), *final(cursor), r, self@.body()),
            !self@.encodable() ==> r == Err::<(), Error>(Error::MalformedPacket) && kept(
                *old(cursor),
                *final(cursor),
            ),
            final(final(cursor).backing())@ == final(old(cursor).backing())@,
    {
        if !self.is_encodable() {
            return Err(Error::MalformedPacket);
        }
        proof {
            self@.lemma_body_len();
        }
        cursor.ensure_remaining(self.required_space())?;

        let ghost start = *cursor;
        self.encode_variable_header(cursor);
        let ghost first = *cursor;
        let _ = cursor.write_binary_chunk(self.client_id.as_bytes());
        let ghost second = *cursor;
        self.encode_will(cursor);
        let ghost third = *cursor;
        self.encode_credentials(cursor);
        proof {
            let head = self@.variable_header();
            let id = prefixed(self.client_id@);
            let will = self@.will_bytes();
            let credentials = optional_field(self@.username) + optional_field(self@.password);
            lemma_wrote_twice(start, first, second, head, id);
            lemma_wrote_twice(start, second, third, head + id, will);
            lemma_wrote_twice(start, third, *cursor, head + id + will, credentials);
            assert(head + id + will + credentials =~= self@.body());
        }
        Ok(())
    }

    /// Reads the will that the connect flags announce.
    fn decode_will(cursor: &mut decode::Cursor<'a>, flags: u8, qos: QoS) -> (r: Result<
        Option<Will<'a>>,
        Error,
    >)
        requires
            old(cursor).wf(),
        ensures
            match take_will(flags, qos, old(cursor).rest()) {
                Ok((will, rest)) => {
                    &&& r is Ok
                    &&& will == match r->Ok_0 {
                        Some(read) => Some(read@),
                        None => None::<WillView>,
                    }
                    &&& final(cursor).follows(*old(cursor), rest)
                },
                Err(e) => r is Err && r->Err_0 == e,
            },
            final(cursor).wf(),
            final(cursor).source() == old(cursor).source(),
    {
        if (flags / 4) % 2 == 1 {
            let topic = cursor.read_utf8()?;
            let payload = cursor.read_binary()?;
            Ok(Some(Will { qos, retain: (flags / 32) % 2 == 1, topic, payload }))
        } else {
            Ok(None)
        }
    }

    /// Reads user name and password, as far as the connect flags announce them.
    fn decode_credentials(cursor: &mut decode::Cursor<'a>, flags: u8) -> (r: Result<
        (Option<buffer::String<'a>>, Option<buffer::Slice<'a>>),
        Error,
    >)
        requires
            old(cursor).wf(),
        ensures
            match take_optional_utf8(flags / 128 == 1, old(cursor).rest()) {
                Err(e) => r is Err && r->Err_0 == e,
                Ok((username, s1)) => match take_optional_binary((flags / 64) % 2 == 1, s1) {
                    Err(e) => r is Err && r->Err_0 == e,
                    Ok((password, s2)) => {
                        &&& r is Ok
                        &&& username == match r->Ok_0.0 {
                            Some(text) => Some(text@),
                            None => None::<Seq<u8>>,
                        }
                        &&& password == match r->Ok_0.1 {
                            Some(bytes) => Some(bytes@),
                            None => None::<Seq<u8>>,
                        }
                        &&& final(cursor).follows(*old(cursor), s2)
                    },
                },
            },
            final(cursor).wf(),
            final(cursor).source() == old(cursor).source(),
    {
        let username = if flags / 128 == 1 {
            Some(cursor.read_utf8()?)
        } else {
            None
        };
        let password = if (flags / 64) % 2 == 1 {
            Some(cursor.read_binary()?)
        } else {
            None
        };
        Ok((username, password))
    }

    /// Reads what follows the connect flags, to the end of the body.
    fn decode_fields(cursor: &mut decode::Cursor<'a>, flags: u8, qos: QoS) -> (r: Result<
        Connect<'a>,
        Error,
    >)
        requires
            old(cursor).wf(),
        ensures
            match parse_connect_fields(flags, qos, old(cursor).rest()) {
                Ok(v) => r is Ok && r->Ok_0@ == v && final(cursor).rest().len() == 0,
                Err(e) => r is Err && r->Err_0 == e,
            },
            final(cursor).wf(),
            final(cursor).source() == old(cursor).source(),
    {
        proof {
            reveal(parse_connect_fields);
        }
        let keep_alive = cursor.read_u16()?;
        let client_id = cursor.read_utf8()?;
        let will = Connect::decode_will(cursor, flags, qos)?;
        let (username, password) = Connect::decode_credentials(cursor, flags)?;
        cursor.expect_empty()?;

        Ok(
            Connect {
                clean_session: (flags / 2) % 2 == 1,
                keep_alive,
                client_id,
                will,
                username,
                password,
            },
        )
    }

    /// Reads as `decode` does, but leaves the cursor where an error stopped it.
    fn decode_inner(cursor: &mut decode::Cursor<'a>) -> (r: Result<Connect<'a>, Error>)
        requires
            old(cursor).wf(),
        ensures
            match parse_connect(old(cursor).rest()) {
                Ok(v) => r is Ok && r->Ok_0@ == v && final(cursor).rest().len() == 0,
                Err(e) => r == Err::<Connect<'a>, Error>(e),
            },
            final(cursor).wf(),
            final(cursor).source() == old(cursor).source(),
    {
        proof {
            reveal(parse_connect);
        }
        let protocol_name = cursor.read_binary()?;
        let name: [u8; 4] = [0x4D, 0x51, 0x54, 0x54];
        assert(name@ =~= self::protocol_name());
        if !protocol_name.eq_bytes(name.as_slice()) {
            return Err(Error::MalformedPacket);
        }
        let level = cursor.read_u8()?;
        if level != PROTOCOL_LEVEL {
            return Err(Error::MalformedPacket);
        }
        let flags = cursor.read_u8()?;
        if flags % 2 != 0 {
            return Err(Error::MalformedPacket);
        }
        let qos = QoS::try_from((flags / 8) % 4)?;

        Connect::decode_fields(cursor, flags, qos)
    }

    /// Reads a CONNECT body to its end. On an error the cursor stays where
    /// it was.
    pub fn decode(cursor: &mut decode::Cursor<'a>) -> (r: Result<Connect<'a>, Error>)
        requires
            old(cursor).wf(),
        ensures
            match parse_connect(old(cursor).rest()) {
                Ok(v) => {
                    &&& r is Ok
                    &&& r->Ok_0@ == v
                    &&& final(cursor).follows(*old(cursor), Seq::empty())
                },
                Err(e) => r is Err && r->Err_0 == e && *final(cursor) == *old(cursor),
            },
    {
        let saved = *cursor;
        match Connect::decode_inner(cursor) {
            Ok(read) => {
                assert(cursor.rest() =~= Seq::<u8>::empty());
                Ok(read)
            },
            Err(e) => {
                *cursor = saved;
                Err(e)
            },
        }
    }
}

/// The connect flags give back what they were made of.
proof fn lemma_connect_flags(v: ConnectView)
    ensures
        v.flags() % 2 == 0,
        ((v.flags() / 2) % 2 == 1) == v.clean_session,
        ((v.flags() / 4) % 2 == 1) == (v.will is Some),
        (v.flags() / 8) % 4 == match v.will {
            Some(will) => will.qos.level(),
            None => 0,
        },
        ((v.flags() / 32) % 2 == 1) == match v.will {
            Some(will) => will.retain,
            None => false,
        },
        ((v.flags() / 64) % 2 == 1) == (v.password is Some),
        (v.flags() / 128 == 1) == (v.username is Some),
{
}

/// The will of a legal packet reads back.
proof fn lemma_will_round_trip(v: ConnectView, rest: Seq<u8>)
    requires
        v.legal(),
    ensures
        take_will(
            v.flags(),
            match v.will {
                Some(will) => will.qos,
                None => QoS::AtMostOnce,
            },
            v.will_bytes() + rest,
        ) == Ok::<(Option<WillView>, Seq<u8>), Error>((v.will, rest)),
{
    lemma_connect_flags(v);
    match v.will {
        Some(will) => {
            let tail = prefixed(will.payload) + rest;
            assert(v.will_bytes() + rest =~= prefixed(will.topic) + tail);
            lemma_take_utf8_of_prefixed(will.topic, tail);
            lemma_take_binary_of_prefixed(will.payload, rest);
        },
        None => {
            assert(v.will_bytes() + rest =~= rest);
        },
    }
}

/// User name and password of a legal packet read back, and nothing is left.
proof fn lemma_credentials_round_trip(v: ConnectView)
    requires
        v.legal(),
    ensures
        match take_optional_utf8(
            v.username is Some,
            optional_field(v.username) + optional_field(v.password),
        ) {
            Ok((username, rest)) => username == v.username && match take_optional_binary(
                v.password is Some,
                rest,
            ) {
                Ok((password, end)) => password == v.password && end.len() == 0,
                Err(_) => false,
            },
            Err(_) => false,
        },
{
    let tail = optional_field(v.password);
    match v.username {
        Some(bytes) => {
            lemma_take_utf8_of_prefixed(bytes, tail);
        },
        None => {
            assert(optional_field(v.username) + tail =~= tail);
        },
    }
    match v.password {
        Some(bytes) => {
            assert(tail =~= prefixed(bytes) + Seq::<u8>::empty());
            lemma_take_binary_of_prefixed(bytes, Seq::<u8>::empty());
        },
        None => {},
    }
}

/// What follows the connect flags of a legal packet reads back.
proof fn lemma_connect_fields_round_trip(v: ConnectView)
    requires
        v.legal(),
    ensures
        parse_connect_fields(
            v.flags(),
            match v.will {
                Some(will) => will.qos,
                None => QoS::AtMostOnce,
            },
            be_bytes(v.keep_alive) + v.payload(),
        ) == Ok::<ConnectView, Error>(v),
{
    reveal(parse_connect_fields);
    let after_will = optional_field(v.username) + optional_field(v.password);
    let after_id = v.will_bytes() + after_will;
    assert(take_u16(be_bytes(v.keep_alive) + v.payload()) == Ok::<(u16, Seq<u8>), Error>(
        (v.keep_alive, v.payload()),
    )) by {
        lemma_take_u16_of_be_bytes(v.keep_alive, v.payload());
    }
    assert(take_utf8(v.payload()) == Ok::<(Seq<u8>, Seq<u8>), Error>((v.client_id, after_id))) by {
        lemma_connect_payload_shape(v);
        lemma_take_utf8_of_prefixed(v.client_id, after_id);
    }
    assert((v.flags() / 2) % 2 == 1 <==> v.clean_session) by {
        lemma_connect_flags(v);
    }
    assert((v.flags() / 128 == 1) == (v.username is Some) && ((v.flags() / 64) % 2 == 1) == (
    v.password is Some)) by {
        lemma_connect_flags(v);
    }
    lemma_will_round_trip(v, after_will);
    lemma_credentials_round_trip(v);
}

/// The payload is the client identifier followed by the rest.
proof fn lemma_connect_payload_shape(v: ConnectView)
    ensures
        v.payload() == prefixed(v.client_id) + (v.will_bytes() + (optional_field(v.username)
            + optional_field(v.password))),
{
    assert(v.payload() =~= prefixed(v.client_id) + (v.will_bytes() + (optional_field(v.username)
        + optional_field(v.password))));
}

/// A body that begins as a CONNECT must is read on from its connect flags.
proof fn lemma_connect_prefix(flags: u8, qos: QoS, tail: Seq<u8>)
    requires
        flags % 2 == 0,
        QoS::from_level((flags / 8) % 4) == Some(qos),
    ensures
        parse_connect(prefixed(protocol_name()) + seq![PROTOCOL_LEVEL, flags] + tail)
            == parse_connect_fields(flags, qos, tail),
{
    reveal(parse_connect);
    let s2 = seq![flags] + tail;
    let s1 = seq![PROTOCOL_LEVEL] + s2;
    let body = prefixed(protocol_name()) + seq![PROTOCOL_LEVEL, flags] + tail;
    assert(body =~= prefixed(protocol_name()) + s1);
    lemma_take_binary_of_prefixed(protocol_name(), s1);
    assert(s1.skip(1) =~= s2);
    assert(s2.skip(1) =~= tail);
}

/// The body is its fixed beginning followed by keep-alive and payload.
proof fn lemma_connect_body_shape(v: ConnectView)
    ensures
        v.body() == prefixed(protocol_name()) + seq![PROTOCOL_LEVEL, v.flags()] + (be_bytes(
            v.keep_alive,
        ) + v.payload()),
{
    assert(v.body() =~= prefixed(protocol_name()) + seq![PROTOCOL_LEVEL, v.flags()] + (be_bytes(
        v.keep_alive,
    ) + v.payload()));
}

/// Decoding the body of a legal CONNECT gives the packet back.
pub proof fn lemma_connect_round_trip(v: ConnectView)
    requires
        v.legal(),
    ensures
        parse_connect(v.body()) == Ok::<ConnectView, Error>(v),
{
    let qos = match v.will {
        Some(will) => will.qos,
        None => QoS::AtMostOnce,
    };
    let tail = be_bytes(v.keep_alive) + v.payload();
    assert(v.flags() % 2 == 0 && QoS::from_level((v.flags() / 8) % 4) == Some(qos)) by {
        lemma_connect_flags(v);
    }
    lemma_connect_prefix(v.flags(), qos, tail);
    lemma_connect_fields_round_trip(v);
    lemma_connect_body_shape(v);
}

/// The verdict of the broker on a connection request.
#[derive(Clone, Copy, Debug, PartialEq, Eq, Structural)]
pub enum ConnectReturnCode {
    Accepted,
    UnacceptableProtocolVersion,
    IdentifierRejected,
    ServerUnavailable,
    BadUserNameOrPassword,
    NotAuthorized,
}

impl ConnectReturnCode {
    /// The code as it stands on the wire.
    pub open spec fn code(self) -> u8 {
        match self {
            ConnectReturnCode::Accepted => 0,
            ConnectReturnCode::UnacceptableProtocolVersion => 1,
            ConnectReturnCode::IdentifierRejected => 2,
            ConnectReturnCode::ServerUnavailable => 3,
            ConnectReturnCode::BadUserNameOrPassword => 4,
            ConnectReturnCode::NotAuthorized => 5,
        }
    }

    /// The verdict that `value` stands for, if any.
    pub open spec fn from_code(value: u8) -> Option<ConnectReturnCode> {
        if value == 0 {
            Some(ConnectReturnCode::Accepted)
        } else if value == 1 {
            Some(ConnectReturnCode::UnacceptableProtocolVersion)
        } else if value == 2 {
            Some(ConnectReturnCode::IdentifierRejected)
        } else if value == 3 {
            Some(ConnectReturnCode::ServerUnavailable)
        } else if value == 4 {
            Some(ConnectReturnCode::BadUserNameOrPassword)
        } else if value == 5 {
            Some(ConnectReturnCode::NotAuthorized)
        } else {
            None
        }
    }

    pub fn to_u8(self) -> (r: u8)
        ensures
            r == self.code(),
    {
        match self {
            ConnectReturnCode::Accepted => 0,
            ConnectReturnCode::UnacceptableProtocolVersion => 1,
            ConnectReturnCode::IdentifierRejected => 2,
            ConnectReturnCode::ServerUnavailable => 3,
            ConnectReturnCode::BadUserNameOrPassword => 4,
            ConnectReturnCode::NotAuthorized => 5,
        }
    }

    pub fn try_from(value: u8) -> (r: Result<ConnectReturnCode, Error>)
        ensures
            r == match ConnectReturnCode::from_code(value) {
                Some(code) => Ok::<ConnectReturnCode, Error>(code),
                None => Err(Error::InvalidConnectReturnCode),
            },
    {
        match value {
            0 => Ok(ConnectReturnCode::Accepted),
            1 => Ok(ConnectReturnCode::UnacceptableProtocolVersion),
            2 => Ok(ConnectReturnCode::IdentifierRejected),
            3 => Ok(ConnectReturnCode::ServerUnavailable),
            4 => Ok(ConnectReturnCode::BadUserNameOrPassword),
            5 => Ok(ConnectReturnCode::NotAuthorized),
            _ => Err(Error::InvalidConnectReturnCode),
        }
    }
}

/// The CONNACK packet.
#[derive(Clone, Copy, Debug, PartialEq, Eq, Structural)]
pub struct ConnAck {
    pub session_present: bool,
    pub return_code: ConnectReturnCode,
}

/// What a CONNACK body means: an acknowledge-flags byte of which only the
/// lowest bit may be set, then a return code; a refusal never comes with a
/// present session; nothing follows.
#[verifier::opaque]
pub open spec fn parse_connack(body: Seq<u8>) -> Result<ConnAck, Error> {
    match take_u8(body) {
        Err(e) => Err(e),
        Ok((flags, s1)) => if flags > 1 {
            Err(Error::MalformedPacket)
        } else {
            match take_u8(s1) {
                Err(e) => Err(e),
                Ok((code, s2)) => match ConnectReturnCode::from_code(code) {
                    None => Err(Error::InvalidConnectReturnCode),
                    Some(return_code) => if return_code != ConnectReturnCode::Accepted && flags
                        == 1 {
                        Err(Error::MalformedPacket)
                    } else if s2.len() != 0 {
                        Err(Error::MalformedPacket)
                    } else {
                        Ok(ConnAck { session_present: flags == 1, return_code })
                    },
                },
            }
        },
    }
}

impl ConnAck {
    /// A refusal does not come with a present session.
    pub open spec fn legal(self) -> bool {
        self.session_present ==> self.return_code == ConnectReturnCode::Accepted
    }

    /// The body of the packet on the wire.
    pub open spec fn body(self) -> Seq<u8> {
        seq![if self.session_present { 1u8 } else { 0u8 }, self.return_code.code()]
    }

    pub fn required_space(&self) -> (r: usize)
        ensures
            r == self.body().len(),
    {
        2
    }

    /// Writes the body, or nothing if it does not fit.
    pub fn encode_body(&self, cursor: &mut encode::Cursor) -> (r: Result<(), Error>)
        requires
            old(cursor).wf(),
        ensures
            write_outcome(*old(cursor), *final(cursor), r, self.body()),
            final(final(cursor).backing())@ == final(old(cursor).backing())@,
    {
        cursor.ensure_remaining(2)?;
        let ghost start = *cursor;
        let flags: u8 = if self.session_present {
            1
        } else {
            0
        };
        let _ = cursor.write_u8(flags);
        let ghost mid = *cursor;
        let _ = cursor.write_u8(self.return_code.to_u8());
        proof {
            lemma_wrote_twice(start, mid, *cursor, seq![flags], seq![self.return_code.code()]);
            assert(seq![flags] + seq![self.return_code.code()] =~= self.body());
        }
        Ok(())
    }

    /// Reads as `decode` does, but leaves the cursor where an error stopped it.
    fn decode_inner(cursor: &mut decode::Cursor) -> (r: Result<ConnAck, Error>)
        requires
            old(cursor).wf(),
        ensures
            r == parse_connack(old(cursor).rest()),
            r is Ok ==> final(cursor).rest().len() == 0,
            final(cursor).wf(),
            final(cursor).source() == old(cursor).source(),
    {
        proof {
            reveal(parse_connack);
        }
        let flags = cursor.read_u8()?;
        if flags > 1 {
            return Err(Error::MalformedPacket);
        }
        let return_code = ConnectReturnCode::try_from(cursor.read_u8()?)?;
        let session_present = flags == 1;

        if return_code != ConnectReturnCode::Accepted && session_present {
            return Err(Error::MalformedPacket);
        }
        cursor.expect_empty()?;

        Ok(ConnAck { return_code, session_present })
    }

    /// Reads a CONNACK body to its end. On an error the cursor stays where
    /// it was.
    pub fn decode(cursor: &mut decode::Cursor) -> (r: Result<ConnAck, Error>)
        requires
            old(cursor).wf(),
        ensures
            match parse_connack(old(cursor).rest()) {
                Ok(v) => {
                    &&& r is Ok
                    &&& r->Ok_0 == v
                    &&& final(cursor).follows(*old(cursor), Seq::empty())
                },
                Err(e) => r is Err && r->Err_0 == e && *final(cursor) == *old(cursor),
            },
    {
        let saved = *cursor;
        match ConnAck::decode_inner(cursor) {
            Ok(read) => {
                assert(cursor.rest() =~= Seq::<u8>::empty());
                Ok(read)
            },
            Err(e) => {
                *cursor = saved;
                Err(e)
            },
        }
    }
}

/// Decoding the body of a legal CONNACK gives the packet back.
pub proof fn lemma_connack_round_trip(ack: ConnAck)
    requires
        ack.legal(),
    ensures
        parse_connack(ack.body()) == Ok::<ConnAck, Error>(ack),
{
    reveal(parse_connack);
    let s = ack.body();
    assert(s.skip(1).skip(1).len() == 0);
    assert(s.skip(1)[0] == ack.return_code.code());
}

} // verus!
