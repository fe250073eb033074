//! Bounded records secured by Noise `NNpsk0`.
//!
//! A record is a two-byte length and a packet. Before the handshake is over a
//! packet is a handshake message; afterwards it is an encrypted payload.
use vstd::prelude::*;

use crate::protocol::{decode_frame, encode_frame, Message, ProtocolError};
use crate::text::hex_decode;
use crate::wire::{get_u16, put_bytes, put_u16, to_array32};

verus! {

pub const MAX_HANDSHAKE_PACKET: usize = 1024;

pub const NOISE_TAG_BYTES: usize = 16;

/// The input protocol itself remains limited to its small fixed-size frames.
/// Pairing needs one bounded configuration exchange, so the secure transport
/// has a deliberately separate, modest application-record limit.
pub const MAX_APPLICATION_PAYLOAD: usize = 1024;

pub const MAX_CIPHERTEXT_FRAME: usize = 1040;

#[derive(Debug, Clone, Copy, PartialEq, Eq, Structural)]
pub enum Role {
    Host,
    Client,
}

/// `snow::Error`, carried through as it is.
#[verifier::external_type_specification]
#[verifier::external_body]
pub struct ExNoiseError(snow::Error);

/// `snow::HandshakeState`.
#[verifier::external_type_specification]
#[verifier::external_body]
pub struct ExHandshakeState(snow::HandshakeState);

/// `snow::TransportState`.
#[verifier::external_type_specification]
#[verifier::external_body]
pub struct ExTransportState(snow::TransportState);

#[derive(Debug, PartialEq)]
pub enum TransportError {
    Io(String),
    Noise(snow::Error),
    Protocol(ProtocolError),
    InvalidPsk,
    RecordTooLarge(usize),
    InvalidNoisePacket,
}

/// Reads a pre-shared key of sixty-four hexadecimal digits.
pub fn parse_psk(text: &str) -> (result: Result<[u8; 32], TransportError>)
    ensures
        match result {
            Ok(psk) => crate::config::psk_denoted(text@) == Some(psk@),
            Err(error) => crate::config::psk_denoted(text@) is None && error
                == TransportError::InvalidPsk,
        },
{
    if let Some(bytes) = hex_decode(text) {
        if bytes.len() == 32 {
            return Ok(to_array32(bytes.as_slice()));
        }
    }
    Err(TransportError::InvalidPsk)
}

// Records.

/// A packet behind its length.
pub open spec fn record(packet: Seq<u8>) -> Seq<u8> {
    crate::wire::be16(packet.len() as u16) + packet
}

/// Frames a packet, unless it is larger than the limit or than a length field
/// can say.
pub fn write_record(packet: &[u8], limit: usize) -> (result: Result<Vec<u8>, TransportError>)
    ensures
        match result {
            Ok(bytes) => packet@.len() <= limit && packet@.len() <= 65535 && bytes@ == record(
                packet@,
            ),
            Err(error) => (packet@.len() > limit || packet@.len() > 65535) && error
                == TransportError::RecordTooLarge(packet@.len() as usize),
        },
{
    if packet.len() > limit || packet.len() > 65535 {
        return Err(TransportError::RecordTooLarge(packet.len()));
    }
    let mut bytes: Vec<u8> = Vec::new();
    put_u16(&mut bytes, packet.len() as u16);
    put_bytes(&mut bytes, packet);
    assert(bytes@ =~= record(packet@));
    Ok(bytes)
}

/// The packet length in a record header, if it is within the limit.
pub fn read_record(header: &[u8; 2], limit: usize) -> (result: Result<usize, TransportError>)
    ensures
        ({
            let len = crate::wire::u16_at(header@, 0) as usize;
            match result {
                Ok(found) => found == len && len <= limit,
                Err(error) => len > limit && error == TransportError::RecordTooLarge(len),
            }
        }),
{
    let len: usize = get_u16(header.as_slice(), 0) as usize;
    if len > limit {
        return Err(TransportError::RecordTooLarge(len));
    }
    Ok(len)
}

/// The header of a record says how long its packet is, and the packet follows it.
pub proof fn law_record_round_trip(packet: Seq<u8>)
    requires
        packet.len() <= 65535,
    ensures
        record(packet).len() == 2 + packet.len(),
        crate::wire::u16_at(record(packet), 0) == packet.len(),
        record(packet).skip(2) == packet,
{
    let bytes = record(packet);
    assert(bytes.subrange(0, 2) =~= crate::wire::be16(packet.len() as u16));
    crate::wire::lemma_u16_at(bytes, 0, packet.len() as u16);
    assert(bytes.skip(2) =~= packet);
}

/// A stream of records falls apart into the same packets in only one way.
pub proof fn law_records_are_self_delimiting(a: Seq<u8>, b: Seq<u8>, x: Seq<u8>, y: Seq<u8>)
    requires
        a.len() <= 65535,
        b.len() <= 65535,
        record(a) + x == record(b) + y,
    ensures
        a == b,
        x == y,
{
    let s = record(a) + x;
    law_record_round_trip(a);
    law_record_round_trip(b);
    assert(s[0] == record(a)[0] && s[1] == record(a)[1]);
    assert(s[0] == record(b)[0] && s[1] == record(b)[1]);
    assert(a =~= s.subrange(2, 2 + a.len() as int));
    assert(b =~= s.subrange(2, 2 + b.len() as int));
    assert(x =~= s.skip(2 + a.len() as int));
    assert(y =~= s.skip(2 + b.len() as int));
}

// Polling. A record is read only once all of it is in the socket's buffer.

/// What a look into the socket's buffer showed.
#[derive(Debug, Clone, Copy, PartialEq, Eq, Structural)]
pub enum Peeked {
    /// The peer closed the stream.
    Closed,
    /// This many bytes are there.
    Bytes(usize),
    /// Nothing is there yet.
    WouldBlock,
}

/// What to do after a look.
#[derive(Debug, PartialEq)]
pub enum PollStep {
    /// Read a record in the blocking way.
    Receive,
    /// Come back later; nothing was taken from the stream.
    NotReady,
    /// Look for this many bytes, header and packet together.
    PeekRecord(usize),
    Fail(TransportError),
}

/// Decides after a look for the two header bytes.
pub fn poll_header(peeked: Peeked, header: &[u8; 2]) -> (step: PollStep)
    ensures
        ({
            let len = crate::wire::u16_at(header@, 0) as usize;
            match peeked {
                Peeked::Closed => step == PollStep::Receive,
                Peeked::WouldBlock => step == PollStep::NotReady,
                Peeked::Bytes(received) => if received < 2 {
                    step == PollStep::NotReady
                } else if len > MAX_CIPHERTEXT_FRAME {
                    step == PollStep::Fail(TransportError::RecordTooLarge(len))
                } else {
                    step == PollStep::PeekRecord((2 + len) as usize)
                },
            }
        }),
{
    match peeked {
        Peeked::Closed => PollStep::Receive,
        Peeked::WouldBlock => PollStep::NotReady,
        Peeked::Bytes(received) => {
            if received < 2 {
                return PollStep::NotReady;
            }
            match read_record(header, MAX_CIPHERTEXT_FRAME) {
                Ok(len) => PollStep::PeekRecord(2 + len),
                Err(error) => PollStep::Fail(error),
            }
        },
    }
}

/// Decides after a look for a whole record of `total` bytes.
pub fn poll_record(peeked: Peeked, total: usize) -> (step: PollStep)
    requires
        total > 0,
    ensures
        step == match peeked {
            Peeked::Bytes(received) if received >= total => PollStep::Receive,
            _ => PollStep::NotReady,
        },
{
    match peeked {
        Peeked::Bytes(received) if received >= total => PollStep::Receive,
        _ => PollStep::NotReady,
    }
}

// The handshake.

/// What a handshake state was built with and holds until it is finished:
/// whether it speaks first, and the pre-shared key at location 0.
pub uninterp spec fn keying(state: snow::HandshakeState) -> (bool, Seq<u8>);

/// How many messages a handshake state still has to write or read before it is
/// finished.
pub uninterp spec fn awaited(state: snow::HandshakeState) -> nat;

/// The two keys that a finished handshake state was split into, as numbers: the
/// one that the side that spoke first encrypts with, and the one that the other
/// side encrypts with.
pub uninterp spec fn split_keys(state: snow::HandshakeState) -> (int, int);

/// Whether a handshake state takes in a packet: it is the state's turn to read,
/// and the packet is a well-formed message that authenticates under the key.
pub uninterp spec fn authentic(state: snow::HandshakeState, packet: Seq<u8>) -> bool;

/// The packet that took a handshake state from `before` to `after`. The state
/// after it holds the ephemeral key that was drawn for the packet.
pub uninterp spec fn spoken(
    before: snow::HandshakeState,
    after: snow::HandshakeState,
) -> Seq<u8>;

/// `Builder::psk` at location 0, then `build_initiator` or `build_responder`,
/// for the pattern `Noise_NNpsk0_25519_ChaChaPoly_BLAKE2s`. It succeeds: the
/// pattern needs no static key, the default resolver has all of its primitives,
/// and the key has the length that is asked for. The state holds the key and
/// the side that it was given, and awaits the two messages of the pattern.
#[verifier::external_body]
fn noise_start(role: Role, psk: &[u8; 32]) -> (result: Result<snow::HandshakeState, snow::Error>)
    ensures
        result is Ok,
        result matches Ok(state) ==> keying(state) == (role == Role::Host, psk@) && awaited(state)
            == 2,
{
    let params: snow::params::NoiseParams = "Noise_NNpsk0_25519_ChaChaPoly_BLAKE2s".parse()?;
    let builder = snow::Builder::new(params).psk(0, psk);
    match role {
        Role::Host => builder.build_initiator(),
        Role::Client => builder.build_responder(),
    }
}

/// `HandshakeState::write_message` with an empty payload into a buffer of
/// `MAX_HANDSHAKE_PACKET` bytes, on a state that [`noise_start`] made. It
/// succeeds exactly on the state's turn: the first of the two messages for the
/// side that speaks first, the second for the other one. It keeps the side and
/// the key. Success leaves one message less to await, failure as many as
/// before. The packet is a public key and a tag. It holds a random key, so it
/// is named by the states around it.
#[verifier::external_body]
fn noise_handshake_write(noise: &mut snow::HandshakeState) -> (result: Result<
    Vec<u8>,
    snow::Error,
>)
    ensures
        keying(*final(noise)) == keying(*old(noise)),
        result is Ok <==> awaited(*old(noise)) == if keying(*old(noise)).0 {
            2nat
        } else {
            1nat
        },
        match result {
            Ok(packet) => packet@ == spoken(*old(noise), *final(noise)) && packet@.len() == 48
                && awaited(*old(noise)) == awaited(*final(noise)) + 1,
            Err(_) => awaited(*final(noise)) == awaited(*old(noise)),
        },
{
    let mut output = vec![0_u8; MAX_HANDSHAKE_PACKET];
    let len = noise.write_message(&[], &mut output)?;
    output.truncate(len);
    Ok(output)
}

/// `HandshakeState::read_message`; the payload of a handshake message is not
/// looked at. Nothing random is drawn: whether it succeeds is a function of the
/// state and the packet. It keeps the side and the key. Success leaves one
/// message less to await, failure as many as before.
#[verifier::external_body]
fn noise_handshake_read(noise: &mut snow::HandshakeState, packet: &[u8]) -> (result: Result<
    (),
    snow::Error,
>)
    ensures
        keying(*final(noise)) == keying(*old(noise)),
        result is Ok <==> authentic(*old(noise), packet@),
        match result {
            Ok(_) => awaited(*old(noise)) == awaited(*final(noise)) + 1,
            Err(_) => awaited(*final(noise)) == awaited(*old(noise)),
        },
{
    let mut output = vec![0_u8; MAX_HANDSHAKE_PACKET];
    noise.read_message(packet, &mut output)?;
    Ok(())
}

/// What a side of a finished handshake encrypts with and what it decrypts with:
/// its own key and the other side's, with no payload behind either yet.
pub open spec fn facing(first: bool, keys: (int, int)) -> (Seq<int>, Seq<int>) {
    if first {
        (seq![keys.0, 0], seq![keys.1, 0])
    } else {
        (seq![keys.1, 0], seq![keys.0, 0])
    }
}

/// `HandshakeState::into_transport_mode`. It succeeds exactly if no message is
/// awaited any more. The state that comes out encrypts with the key of its own
/// side and decrypts with the other one, both from the number zero on. Nothing
/// is claimed of which keys these are: they rest on both sides' random keys.
#[verifier::external_body]
fn noise_finish(noise: snow::HandshakeState) -> (result: Result<
    snow::TransportState,
    snow::Error,
>)
    ensures
        match result {
            Ok(transport) => awaited(noise) == 0 && (outgoing(transport), incoming(transport))
                == facing(keying(noise).0, split_keys(noise)),
            Err(_) => awaited(noise) != 0,
        },
{
    noise.into_transport_mode()
}

/// What the handshake waits for.
#[derive(Debug, Clone, Copy, PartialEq, Eq, Structural)]
pub enum HandshakeStep {
    Send,
    Receive,
    Finish,
}

/// The host speaks first, the client answers, and that is all.
pub open spec fn handshake_step(role: Role, done: int) -> HandshakeStep {
    if done >= 2 {
        HandshakeStep::Finish
    } else if (role == Role::Host) == (done == 0) {
        HandshakeStep::Send
    } else {
        HandshakeStep::Receive
    }
}

/// One side of a handshake in progress.
pub struct Handshake {
    role: Role,
    done: u8,
    noise: snow::HandshakeState,
}

impl Handshake {
    pub closed spec fn side(&self) -> Role {
        self.role
    }

    /// Messages exchanged so far.
    pub closed spec fn exchanged(&self) -> int {
        self.done as int
    }

    /// Whether the Noise state speaks first, and the key that it authenticates
    /// the peer with.
    pub closed spec fn keyed(&self) -> (bool, Seq<u8>) {
        keying(self.noise)
    }

    /// The keys that the handshake was split into once it is over; see
    /// [`facing`].
    pub closed spec fn keys(&self) -> (int, int) {
        split_keys(self.noise)
    }

    /// Whether a packet is the message that this side waits for, authenticated
    /// with the key.
    pub closed spec fn accepts(&self, packet: Seq<u8>) -> bool {
        authentic(self.noise, packet)
    }

    /// The packet that brought the handshake here from `before`.
    pub closed spec fn spoken_since(&self, before: Handshake) -> Seq<u8> {
        spoken(before.noise, self.noise)
    }

    /// The Noise state is on the same side, and as far, as the handshake says.
    pub closed spec fn wf(&self) -> bool {
        &&& keying(self.noise).0 == (self.role == Role::Host)
        &&& awaited(self.noise) + self.done == 2
    }

    pub fn begin(role: Role, psk: &[u8; 32]) -> (result: Result<Handshake, TransportError>)
        ensures
            result matches Ok(handshake) && handshake.wf() && handshake.side() == role
                && handshake.exchanged() == 0 && handshake.keyed() == (role == Role::Host, psk@),
    {
        match noise_start(role, psk) {
            Ok(noise) => Ok(Handshake { role, done: 0, noise }),
            Err(error) => Err(TransportError::Noise(error)),
        }
    }

    pub fn step(&self) -> (step: HandshakeStep)
        ensures
            step == handshake_step(self.side(), self.exchanged()),
    {
        if self.done >= 2 {
            HandshakeStep::Finish
        } else if (self.role == Role::Host) == (self.done == 0) {
            HandshakeStep::Send
        } else {
            HandshakeStep::Receive
        }
    }

    /// The record to send. There is one whenever it is this side's turn.
    pub fn send(&mut self) -> (result: Result<Vec<u8>, TransportError>)
        requires
            old(self).wf(),
            handshake_step(old(self).side(), old(self).exchanged()) == HandshakeStep::Send,
        ensures
            final(self).wf(),
            final(self).side() == old(self).side(),
            final(self).keyed() == old(self).keyed(),
            final(self).exchanged() == old(self).exchanged() + 1,
            final(self).spoken_since(*old(self)).len() == 48,
            result matches Ok(bytes) && bytes@ == record(final(self).spoken_since(*old(self))),
    {
        match noise_handshake_write(&mut self.noise) {
            Ok(packet) => {
                self.done = self.done + 1;
                write_record(packet.as_slice(), MAX_HANDSHAKE_PACKET)
            },
            Err(error) => Err(TransportError::Noise(error)),
        }
    }

    /// Takes over a packet from the peer, exactly if it is authentic.
    pub fn receive(&mut self, packet: &[u8]) -> (result: Result<(), TransportError>)
        requires
            old(self).wf(),
            handshake_step(old(self).side(), old(self).exchanged()) == HandshakeStep::Receive,
        ensures
            final(self).wf(),
            final(self).side() == old(self).side(),
            final(self).keyed() == old(self).keyed(),
            result is Ok <==> old(self).accepts(packet@),
            match result {
                Ok(_) => final(self).exchanged() == old(self).exchanged() + 1,
                Err(error) => error is Noise && final(self).exchanged() == old(self).exchanged(),
            },
    {
        match noise_handshake_read(&mut self.noise, packet) {
            Ok(_) => {
                self.done = self.done + 1;
                Ok(())
            },
            Err(error) => Err(TransportError::Noise(error)),
        }
    }

    /// The connection that a finished handshake opens: it encrypts with the key
    /// of this side and decrypts with the peer's. There is one whenever both
    /// messages were exchanged.
    pub fn finish(self) -> (result: Result<SecureConnection, TransportError>)
        requires
            self.wf(),
            handshake_step(self.side(), self.exchanged()) == HandshakeStep::Finish,
        ensures
            result matches Ok(connection) && (connection.outgoing(), connection.incoming())
                == facing(self.side() == Role::Host, self.keys()),
    {
        match noise_finish(self.noise) {
            Ok(noise) => Ok(SecureConnection { noise }),
            Err(error) => Err(TransportError::Noise(error)),
        }
    }
}

/// Each side sends once and receives once, the two in opposite order, so that
/// what one side waits for is what the other is about to send.
pub proof fn law_handshake_sides_match(done: int)
    requires
        0 <= done,
    ensures
        handshake_step(Role::Host, done) == HandshakeStep::Send <==> handshake_step(
            Role::Client,
            done,
        ) == HandshakeStep::Receive,
        handshake_step(Role::Host, done) == HandshakeStep::Receive <==> handshake_step(
            Role::Client,
            done,
        ) == HandshakeStep::Send,
        handshake_step(Role::Host, done) == HandshakeStep::Finish <==> done >= 2,
{
}

// Encrypted payloads.

/// What a transport state encrypts with: a key and the number of payloads that
/// were encrypted before.
pub uninterp spec fn outgoing(noise: snow::TransportState) -> Seq<int>;

/// What a transport state decrypts with: a key and the number of payloads that
/// were decrypted before.
pub uninterp spec fn incoming(noise: snow::TransportState) -> Seq<int>;

/// The packet that a payload is encrypted to, if it can be.
pub uninterp spec fn sealed(channel: Seq<int>, payload: Seq<u8>) -> Option<Seq<u8>>;

/// The payload that a packet is decrypted to, if it is authentic.
pub uninterp spec fn opened(channel: Seq<int>, packet: Seq<u8>) -> Option<Seq<u8>>;

/// A channel after one more payload.
pub open spec fn advanced(channel: Seq<int>) -> Seq<int> {
    seq![channel[0], channel[1] + 1]
}

/// `TransportState::write_message` into a buffer that has room for the tag.
/// The packet is a function of the outgoing key, the number of earlier
/// payloads and the payload. It is longer than the payload by the tag, and the
/// same key and number decrypt it again. Success moves on to the next number;
/// the incoming side is not touched.
#[verifier::external_body]
fn noise_seal(noise: &mut snow::TransportState, payload: &[u8]) -> (result: Result<
    Vec<u8>,
    snow::Error,
>)
    requires
        payload@.len() <= MAX_APPLICATION_PAYLOAD,
    ensures
        incoming(*final(noise)) == incoming(*old(noise)),
        match result {
            Ok(packet) => {
                &&& sealed(outgoing(*old(noise)), payload@) == Some(packet@)
                &&& packet@.len() == payload@.len() + NOISE_TAG_BYTES
                &&& opened(outgoing(*old(noise)), packet@) == Some(payload@)
                &&& outgoing(*final(noise)) == advanced(outgoing(*old(noise)))
            },
            Err(_) => sealed(outgoing(*old(noise)), payload@) is None && outgoing(*final(noise))
                == outgoing(*old(noise)),
        },
{
    let mut packet = vec![0_u8; MAX_CIPHERTEXT_FRAME];
    let len = noise.write_message(payload, &mut packet)?;
    packet.truncate(len);
    Ok(packet)
}

/// `TransportState::read_message` into a buffer of `MAX_APPLICATION_PAYLOAD`
/// bytes. The payload is a function of the incoming key, the number of earlier
/// payloads and the packet, and shorter than the packet by the tag. A packet
/// that is not authentic is an error and is not counted; the outgoing side is
/// not touched.
#[verifier::external_body]
fn noise_open(noise: &mut snow::TransportState, packet: &[u8]) -> (result: Result<
    Vec<u8>,
    snow::Error,
>)
    requires
        NOISE_TAG_BYTES <= packet@.len() <= MAX_CIPHERTEXT_FRAME,
    ensures
        outgoing(*final(noise)) == outgoing(*old(noise)),
        match result {
            Ok(payload) => {
                &&& opened(incoming(*old(noise)), packet@) == Some(payload@)
                &&& packet@.len() == payload@.len() + NOISE_TAG_BYTES
                &&& incoming(*final(noise)) == advanced(incoming(*old(noise)))
            },
            Err(_) => opened(incoming(*old(noise)), packet@) is None && incoming(*final(noise))
                == incoming(*old(noise)),
        },
{
    let mut payload = vec![0_u8; MAX_APPLICATION_PAYLOAD];
    let len = noise.read_message(packet, &mut payload)?;
    payload.truncate(len);
    Ok(payload)
}

/// An authenticated connection, without its stream: it turns messages into
/// records to be written and packets that were read into messages.
pub struct SecureConnection {
    noise: snow::TransportState,
}

/// The payload that a packet stands for, or why it stands for none.
pub open spec fn packet_payload(channel: Seq<int>, packet: Seq<u8>) -> Option<Seq<u8>> {
    if packet.len() < NOISE_TAG_BYTES {
        None
    } else {
        opened(channel, packet)
    }
}

impl SecureConnection {
    pub closed spec fn outgoing(&self) -> Seq<int> {
        outgoing(self.noise)
    }

    pub closed spec fn incoming(&self) -> Seq<int> {
        incoming(self.noise)
    }

    /// The record for a message.
    pub fn send(&mut self, message: Message) -> (result: Result<Vec<u8>, TransportError>)
        requires
            crate::protocol::has_wire_form(message),
        ensures
            final(self).incoming() == old(self).incoming(),
            match result {
                Ok(bytes) => {
                    let packet = sealed(
                        old(self).outgoing(),
                        crate::protocol::frame_of(message),
                    );
                    &&& packet is Some
                    &&& bytes@ == record(packet->0)
                    &&& opened(old(self).outgoing(), packet->0) == Some(
                        crate::protocol::frame_of(message),
                    )
                    &&& NOISE_TAG_BYTES <= packet->0.len() <= MAX_CIPHERTEXT_FRAME
                    &&& final(self).outgoing() == advanced(old(self).outgoing())
                },
                Err(error) => error is Noise && sealed(
                    old(self).outgoing(),
                    crate::protocol::frame_of(message),
                ) is None && final(self).outgoing() == old(self).outgoing(),
            },
    {
        let plaintext = encode_frame(message);
        proof {
            crate::protocol::lemma_frame_shape(message);
        }
        self.send_payload(plaintext.as_slice())
    }

    /// The message in a packet.
    pub fn receive(&mut self, packet: &[u8]) -> (result: Result<Message, TransportError>)
        requires
            packet@.len() <= MAX_CIPHERTEXT_FRAME,
        ensures
            final(self).outgoing() == old(self).outgoing(),
            final(self).incoming() == if packet_payload(old(self).incoming(), packet@) is Some {
                advanced(old(self).incoming())
            } else {
                old(self).incoming()
            },
            match result {
                Ok(message) => crate::protocol::has_wire_form(message) && packet_payload(
                    old(self).incoming(),
                    packet@,
                ) == Some(crate::protocol::frame_of(message)),
                Err(TransportError::Protocol(error)) => packet_payload(
                    old(self).incoming(),
                    packet@,
                ) matches Some(payload) && crate::protocol::decoded(payload) == Err::<
                    Message,
                    ProtocolError,
                >(error),
                Err(error) => packet_payload(old(self).incoming(), packet@) is None
                    && if packet@.len() < NOISE_TAG_BYTES {
                    error == TransportError::InvalidNoisePacket
                } else {
                    error is Noise
                },
            },
    {
        match self.receive_payload(packet) {
            Ok(plaintext) => match decode_frame(plaintext.as_slice()) {
                Ok(message) => Ok(message),
                Err(error) => Err(TransportError::Protocol(error)),
            },
            Err(error) => Err(error),
        }
    }

    /// The record for a bounded authenticated payload. This is reserved for
    /// setup-time exchanges; the live input path uses [`Self::send`].
    pub fn send_payload(&mut self, plaintext: &[u8]) -> (result: Result<Vec<u8>, TransportError>)
        ensures
            final(self).incoming() == old(self).incoming(),
            match result {
                Ok(bytes) => {
                    let packet = sealed(old(self).outgoing(), plaintext@);
                    &&& plaintext@.len() <= MAX_APPLICATION_PAYLOAD
                    &&& packet is Some
                    &&& bytes@ == record(packet->0)
                    &&& packet->0.len() == plaintext@.len() + NOISE_TAG_BYTES
                    &&& opened(old(self).outgoing(), packet->0) == Some(plaintext@)
                    &&& final(self).outgoing() == advanced(old(self).outgoing())
                },
                Err(error) => {
                    &&& final(self).outgoing() == old(self).outgoing()
                    &&& if plaintext@.len() > MAX_APPLICATION_PAYLOAD {
                        error == TransportError::RecordTooLarge(plaintext@.len() as usize)
                    } else {
                        error is Noise && sealed(old(self).outgoing(), plaintext@) is None
                    }
                },
            },
    {
        if plaintext.len() > MAX_APPLICATION_PAYLOAD {
            return Err(TransportError::RecordTooLarge(plaintext.len()));
        }
        match noise_seal(&mut self.noise, plaintext) {
            Ok(packet) => write_record(packet.as_slice(), MAX_CIPHERTEXT_FRAME),
            Err(error) => Err(TransportError::Noise(error)),
        }
    }

    /// The authenticated payload in a packet.
    pub fn receive_payload(&mut self, packet: &[u8]) -> (result: Result<Vec<u8>, TransportError>)
        requires
            packet@.len() <= MAX_CIPHERTEXT_FRAME,
        ensures
            final(self).outgoing() == old(self).outgoing(),
            match result {
                Ok(payload) => packet_payload(old(self).incoming(), packet@) == Some(payload@)
                    && packet@.len() == payload@.len() + NOISE_TAG_BYTES && final(self).incoming()
                    == advanced(old(self).incoming()),
                Err(error) => packet_payload(old(self).incoming(), packet@) is None
                    && final(self).incoming() == old(self).incoming() && if packet@.len() < NOISE_TAG_BYTES {
                    error == TransportError::InvalidNoisePacket
                } else {
                    error is Noise
                },
            },
    {
        if packet.len() < NOISE_TAG_BYTES {
            return Err(TransportError::InvalidNoisePacket);
        }
        match noise_open(&mut self.noise, packet) {
            Ok(payload) => Ok(payload),
            Err(error) => Err(TransportError::Noise(error)),
        }
    }
}

/// What one end wrote, the other end reads: where the receiver decrypts with
/// what the sender encrypted with, the record that [`SecureConnection::send`]
/// gives for a message holds a packet from which [`SecureConnection::receive`]
/// gives that message, and both ends then agree on the next number.
pub proof fn law_messages_cross_the_channel(
    channel: Seq<int>,
    message: Message,
    packet: Seq<u8>,
)
    requires
        crate::protocol::has_wire_form(message),
        sealed(channel, crate::protocol::frame_of(message)) == Some(packet),
        opened(channel, packet) == Some(crate::protocol::frame_of(message)),
        NOISE_TAG_BYTES <= packet.len() <= MAX_CIPHERTEXT_FRAME,
    ensures
        record(packet).skip(2) == packet,
        crate::wire::u16_at(record(packet), 0) == packet.len(),
        packet_payload(channel, packet) == Some(crate::protocol::frame_of(message)),
        crate::protocol::decoded(packet_payload(channel, packet)->0) == Ok::<
            Message,
            ProtocolError,
        >(message),
{
    law_record_round_trip(packet);
    crate::protocol::law_decode_inverts_encode(message);
}

/// A record is the length of its packet in two bytes, the higher one first, and
/// the packet. Packets of a handshake have up to 1024 bytes, payloads too, and
/// encryption adds sixteen.
pub proof fn law_records_begin_with_their_length(packet: Seq<u8>)
    requires
        packet.len() <= 65535,
    ensures
        record(packet).len() == packet.len() + 2,
        record(packet)[0] * 256 + record(packet)[1] == packet.len(),
        record(packet).subrange(2, record(packet).len() as int) == packet,
        MAX_HANDSHAKE_PACKET == 1024,
        MAX_APPLICATION_PAYLOAD == 1024,
        NOISE_TAG_BYTES == 16,
        MAX_CIPHERTEXT_FRAME == MAX_APPLICATION_PAYLOAD + NOISE_TAG_BYTES,
{
    assert(record(packet).subrange(2, record(packet).len() as int) =~= packet);
}

/// The host sends first and receives the answer, the client receives first and
/// answers; after the two messages both are done.
pub proof fn law_the_host_speaks_first(done: int)
    requires
        done >= 2,
    ensures
        handshake_step(Role::Host, 0) == HandshakeStep::Send,
        handshake_step(Role::Host, 1) == HandshakeStep::Receive,
        handshake_step(Role::Client, 0) == HandshakeStep::Receive,
        handshake_step(Role::Client, 1) == HandshakeStep::Send,
        handshake_step(Role::Host, done) == HandshakeStep::Finish,
        handshake_step(Role::Client, done) == HandshakeStep::Finish,
{
}

/// What one side encrypts with is what the other one decrypts with, in both
/// directions, and a payload more takes both to the same next number.
pub proof fn law_the_sides_face_each_other(first: int, second: int, channel: Seq<int>)
    requires
        channel.len() == 2,
    ensures
        facing(true, (first, second)).0 == facing(false, (first, second)).1,
        facing(true, (first, second)).1 == facing(false, (first, second)).0,
        facing(true, (first, second)).0 == seq![first, 0],
        facing(true, (first, second)).1 == seq![second, 0],
        advanced(channel)[0] == channel[0],
        advanced(channel)[1] == channel[1] + 1,
        advanced(channel).len() == 2,
{
}

/// A packet that is too short to be authentic stands for no payload; any other
/// one stands for what it is decrypted to.
pub proof fn law_short_packets_are_refused(channel: Seq<int>, packet: Seq<u8>)
    ensures
        packet.len() < 16 ==> packet_payload(channel, packet) is None,
        packet.len() >= 16 ==> packet_payload(channel, packet) == opened(channel, packet),
{
}

} // verus!
