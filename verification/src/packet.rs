//! The wire codec: control frames with their 21-byte header and typed body,
//! and voice frames with their 15-byte header and opaque payload.
//!
//! All integers are big-endian. Text in fixed-width fields is zero-padded.

use crate::text::json_quote;
use crate::text::json_quoted;
use crate::text::json_string_field;
use crate::text::json_text_field;
use crate::text::string_from_utf8;
use crate::text::string_from_utf8_lossy;
use crate::text::strip_trailing_nul;
use crate::text::trim_trailing_nul;
use crate::text::utf8_lossy_text;
use crate::wire::append_bytes;
use crate::wire::be_u16;
use crate::wire::be_u32;
use crate::wire::be_u64;
use crate::wire::lemma_u16_read_write;
use crate::wire::lemma_u16_write_read;
use crate::wire::lemma_u32_read_write;
use crate::wire::lemma_u32_write_read;
use crate::wire::lemma_u64_read_write;
use crate::wire::lemma_u64_write_read;
use crate::wire::put_u16_be;
use crate::wire::put_u32_be;
use crate::wire::put_u64_be;
use crate::wire::read_u16_be;
use crate::wire::read_u32_be;
use crate::wire::read_u64_be;
use crate::wire::u16_be_bytes;
use crate::wire::u32_be_bytes;
use crate::wire::u64_be_bytes;
use vstd::prelude::*;
use vstd::slice::slice_subrange;
use vstd::slice::slice_to_vec;
use vstd::string::StringExecFns;
use vstd::string::StringSliceAdditionalSpecFns;
use vstd::utf8::decode_utf8;
use vstd::utf8::encode_utf8;
use vstd::utf8::encode_utf8_decode_utf8;
use vstd::utf8::encode_utf8_valid_utf8;
use vstd::utf8::valid_utf8;

verus! {

/// The kinds of control frame.
#[derive(Debug, Clone, Copy, PartialEq, Eq, Structural)]
pub enum PacketType {
    /// First frame of a session; carries the bearer credential.
    Handshake,
    /// Voice wrapped in a control frame.
    Audio,
    /// Request to join a channel.
    JoinChannel,
    /// Request to leave the channel.
    LeaveChannel,
    /// Mute or unmute.
    SetMute,
    /// Keeps the session alive.
    Heartbeat,
    /// Error report.
    Error,
    /// Acknowledgement.
    Ack,
}

impl PacketType {
    /// The tag byte that stands for this kind on the wire.
    pub open spec fn tag(self) -> u8 {
        match self {
            PacketType::Handshake => 0x01,
            PacketType::Audio => 0x02,
            PacketType::JoinChannel => 0x03,
            PacketType::LeaveChannel => 0x04,
            PacketType::SetMute => 0x05,
            PacketType::Heartbeat => 0x06,
            PacketType::Error => 0x07,
            PacketType::Ack => 0x08,
        }
    }

    /// The kind that a tag byte stands for, if any.
    pub open spec fn of_tag(value: u8) -> Option<PacketType> {
        if value == 0x01 {
            Some(PacketType::Handshake)
        } else if value == 0x02 {
            Some(PacketType::Audio)
        } else if value == 0x03 {
            Some(PacketType::JoinChannel)
        } else if value == 0x04 {
            Some(PacketType::LeaveChannel)
        } else if value == 0x05 {
            Some(PacketType::SetMute)
        } else if value == 0x06 {
            Some(PacketType::Heartbeat)
        } else if value == 0x07 {
            Some(PacketType::Error)
        } else if value == 0x08 {
            Some(PacketType::Ack)
        } else {
            None
        }
    }

    /// Reads a tag byte.
    pub fn from_u8(value: u8) -> (r: Option<Self>)
        ensures
            r == Self::of_tag(value),
    {
        match value {
            0x01 => Some(PacketType::Handshake),
            0x02 => Some(PacketType::Audio),
            0x03 => Some(PacketType::JoinChannel),
            0x04 => Some(PacketType::LeaveChannel),
            0x05 => Some(PacketType::SetMute),
            0x06 => Some(PacketType::Heartbeat),
            0x07 => Some(PacketType::Error),
            0x08 => Some(PacketType::Ack),
            _ => None,
        }
    }

    /// Writes the tag byte.
    pub fn to_u8(self) -> (r: u8)
        ensures
            r == self.tag(),
    {
        match self {
            PacketType::Handshake => 0x01,
            PacketType::Audio => 0x02,
            PacketType::JoinChannel => 0x03,
            PacketType::LeaveChannel => 0x04,
            PacketType::SetMute => 0x05,
            PacketType::Heartbeat => 0x06,
            PacketType::Error => 0x07,
            PacketType::Ack => 0x08,
        }
    }
}

/// Every kind is read back from its own tag, and a tag that reads as a kind
/// is that kind's tag.
pub proof fn lemma_packet_type_tag_round_trip(kind: PacketType, value: u8)
    ensures
        PacketType::of_tag(kind.tag()) == Some(kind),
        PacketType::of_tag(value) == Some(kind) ==> kind.tag() == value,
{
}

/// Why a frame could not be parsed or emitted.
#[derive(Debug)]
pub enum PacketError {
    /// The datagram is shorter or longer than its frame requires, or a body
    /// does not fit its 16-bit length prefix.
    InvalidSize,
    /// The tag byte names no control frame kind.
    InvalidPacketType,
    /// A handshake frame without a credential.
    MissingToken,
    /// An audio frame without audio.
    MissingAudioData,
    /// A mute frame without a mute state.
    MissingMuteState,
    /// An error frame without a message.
    MissingErrorMessage,
    /// A text body that is not UTF-8.
    InvalidUtf8,
    /// A handshake body that cannot be written as JSON.
    InvalidJson,
    /// A malformed voice frame, with the reason.
    InvalidVoicePacket(String),
}

impl PacketError {
    /// The text that describes the error.
    pub open spec fn text(self) -> Seq<char> {
        match self {
            PacketError::InvalidSize => "Invalid packet size"@,
            PacketError::InvalidPacketType => "Invalid packet type"@,
            PacketError::MissingToken => "Missing JWT token"@,
            PacketError::MissingAudioData => "Missing audio data"@,
            PacketError::MissingMuteState => "Missing mute state"@,
            PacketError::MissingErrorMessage => "Missing error message"@,
            PacketError::InvalidUtf8 => "Invalid UTF-8 encoding"@,
            PacketError::InvalidJson => "Invalid JSON format"@,
            PacketError::InvalidVoicePacket(reason) => "Invalid voice packet: "@ + reason@,
        }
    }

    /// The message that describes the error.
    pub fn message(&self) -> (r: String)
        ensures
            r@ == self.text(),
    {
        match self {
            PacketError::InvalidSize => "Invalid packet size".to_string(),
            PacketError::InvalidPacketType => "Invalid packet type".to_string(),
            PacketError::MissingToken => "Missing JWT token".to_string(),
            PacketError::MissingAudioData => "Missing audio data".to_string(),
            PacketError::MissingMuteState => "Missing mute state".to_string(),
            PacketError::MissingErrorMessage => "Missing error message".to_string(),
            PacketError::InvalidUtf8 => "Invalid UTF-8 encoding".to_string(),
            PacketError::InvalidJson => "Invalid JSON format".to_string(),
            PacketError::InvalidVoicePacket(reason) => {
                let head = "Invalid voice packet: ".to_string();
                head.concat(reason.as_str())
            },
        }
    }
}

/// A fixed-width field: the first `width` bytes of `bytes`, padded with
/// zeros where `bytes` is shorter.
pub open spec fn pad_field(bytes: Seq<u8>, width: nat) -> Seq<u8> {
    Seq::new(
        width,
        |i: int|
            if i < bytes.len() {
                bytes[i]
            } else {
                0u8
            },
    )
}

/// The header of a control frame.
#[derive(Debug, Clone, Copy)]
pub struct PacketHeader {
    /// Kind of frame.
    pub packet_type: PacketType,
    /// Sequence number.
    pub sequence: u32,
    /// Principal id, zero-padded.
    pub user_id: [u8; 8],
    /// Channel id, zero-padded.
    pub channel_id: [u8; 4],
    /// Wall-clock seconds.
    pub timestamp: u32,
}

/// A header as a mathematical value.
pub ghost struct PacketHeaderView {
    pub packet_type: PacketType,
    pub sequence: u32,
    pub user_id: Seq<u8>,
    pub channel_id: Seq<u8>,
    pub timestamp: u32,
}

impl View for PacketHeader {
    type V = PacketHeaderView;

    open spec fn view(&self) -> PacketHeaderView {
        PacketHeaderView {
            packet_type: self.packet_type,
            sequence: self.sequence,
            user_id: self.user_id@,
            channel_id: self.channel_id@,
            timestamp: self.timestamp,
        }
    }
}

/// The bytes that a header is written as: tag, sequence, principal id,
/// channel id, seconds.
pub open spec fn header_wire(h: PacketHeaderView) -> Seq<u8> {
    seq![h.packet_type.tag()] + u32_be_bytes(h.sequence) + h.user_id + h.channel_id
        + u32_be_bytes(h.timestamp)
}

/// The header that the first 21 bytes of a datagram hold, or why they hold
/// none.
pub open spec fn header_parse(data: Seq<u8>) -> Result<PacketHeaderView, PacketError> {
    if data.len() < 21 {
        Err(PacketError::InvalidSize)
    } else if PacketType::of_tag(data[0]) is None {
        Err(PacketError::InvalidPacketType)
    } else {
        Ok(
            PacketHeaderView {
                packet_type: PacketType::of_tag(data[0])->0,
                sequence: be_u32(data.subrange(1, 5)) as u32,
                user_id: data.subrange(5, 13),
                channel_id: data.subrange(13, 17),
                timestamp: be_u32(data.subrange(17, 21)) as u32,
            },
        )
    }
}

/// A header is read back from the bytes it is written as, whatever follows
/// them.
#[verifier::rlimit(40)]
pub proof fn lemma_header_round_trip(h: PacketHeaderView, rest: Seq<u8>)
    requires
        h.user_id.len() == 8,
        h.channel_id.len() == 4,
    ensures
        header_wire(h).len() == 21,
        header_parse(header_wire(h) + rest) == Ok::<PacketHeaderView, PacketError>(h),
{
    let w = header_wire(h);
    let d = w + rest;
    lemma_u32_read_write(h.sequence);
    lemma_u32_read_write(h.timestamp);
    lemma_packet_type_tag_round_trip(h.packet_type, 0);
    assert(d[0] == h.packet_type.tag());
    assert(d.subrange(1, 5) =~= u32_be_bytes(h.sequence));
    assert(d.subrange(5, 13) =~= h.user_id);
    assert(d.subrange(13, 17) =~= h.channel_id);
    assert(d.subrange(17, 21) =~= u32_be_bytes(h.timestamp));
}

/// The bytes that parse as a header are the bytes that the header is written
/// as.
#[verifier::rlimit(40)]
pub proof fn lemma_header_parse_wire(data: Seq<u8>)
    requires
        header_parse(data) is Ok,
    ensures
        header_wire(header_parse(data)->Ok_0) == data.subrange(0, 21),
{
    let h = header_parse(data)->Ok_0;
    lemma_u32_write_read(data.subrange(1, 5));
    lemma_u32_write_read(data.subrange(17, 21));
    lemma_packet_type_tag_round_trip(h.packet_type, data[0]);
    assert(header_wire(h) =~= data.subrange(0, 21));
}

/// Copies `N` bytes of a datagram, starting at `at`, into an array.
fn take_field<const N: usize>(data: &[u8], at: usize) -> (r: [u8; N])
    requires
        at + N <= data@.len(),
    ensures
        r@ == data@.subrange(at as int, at + N),
{
    let len: usize = data.len();
    let mut out = [0u8; N];
    let mut i: usize = 0;
    while i < N
        invariant
            i <= N,
            at + N <= data@.len(),
            len == data@.len(),
            forall|j: int| 0 <= j < i ==> out@[j] == data@[at + j],
        decreases N - i,
    {
        out[i] = data[at + i];
        i += 1;
    }
    assert(out@ =~= data@.subrange(at as int, at + N));
    out
}

/// Builds a fixed-width field from the bytes of an identifier: the first
/// `N` bytes, padded with zeros.
fn pad_to_field<const N: usize>(bytes: &[u8]) -> (r: [u8; N])
    ensures
        r@ == pad_field(bytes@, N as nat),
{
    let mut out = [0u8; N];
    let mut i: usize = 0;
    while i < N && i < bytes.len()
        invariant
            i <= N,
            i <= bytes@.len(),
            forall|j: int| 0 <= j < i ==> out@[j] == bytes@[j],
            forall|j: int| i <= j < N ==> out@[j] == 0u8,
        decreases N - i,
    {
        out[i] = bytes[i];
        i += 1;
    }
    assert(out@ =~= pad_field(bytes@, N as nat));
    out
}

impl PacketHeader {
    /// Length of the header on the wire: one tag byte, four of sequence,
    /// eight of principal id, four of channel id, four of seconds.
    pub const SIZE: usize = 21;

    /// The header that `new` builds from the bytes of the two identifiers.
    pub open spec fn new_view(
        packet_type: PacketType,
        sequence: u32,
        user_id: Seq<u8>,
        channel_id: Seq<u8>,
        timestamp: u32,
    ) -> PacketHeaderView {
        PacketHeaderView {
            packet_type,
            sequence,
            user_id: pad_field(user_id, 8),
            channel_id: pad_field(channel_id, 4),
            timestamp,
        }
    }

    /// Builds a header. Of each identifier the first bytes are kept, as many
    /// as the field is wide; a shorter one is padded with zeros.
    pub fn new(
        packet_type: PacketType,
        sequence: u32,
        user_id: &str,
        channel_id: &str,
        timestamp: u32,
    ) -> (r: Self)
        ensures
            r@ == Self::new_view(
                packet_type,
                sequence,
                user_id.spec_bytes(),
                channel_id.spec_bytes(),
                timestamp,
            ),
    {
        PacketHeader {
            packet_type,
            sequence,
            user_id: pad_to_field::<8>(user_id.as_bytes()),
            channel_id: pad_to_field::<4>(channel_id.as_bytes()),
            timestamp,
        }
    }

    /// Writes the header.
    pub fn to_bytes(&self) -> (r: Vec<u8>)
        ensures
            r@ == header_wire(self@),
            r@.len() == 21,
    {
        let mut buf: Vec<u8> = Vec::with_capacity(Self::SIZE);
        buf.push(self.packet_type.to_u8());
        put_u32_be(&mut buf, self.sequence);
        append_bytes(&mut buf, self.user_id.as_slice());
        append_bytes(&mut buf, self.channel_id.as_slice());
        put_u32_be(&mut buf, self.timestamp);
        proof {
            lemma_u32_read_write(self.sequence);
            lemma_u32_read_write(self.timestamp);
            assert(buf@ =~= header_wire(self@));
        }
        buf
    }

    /// Reads the header that a datagram begins with. A datagram shorter than
    /// a header is refused as `InvalidSize`, an unknown tag as
    /// `InvalidPacketType`.
    #[verifier::rlimit(40)]
    pub fn from_bytes(data: &[u8]) -> (r: Result<Self, PacketError>)
        ensures
            match r {
                Ok(h) => header_parse(data@) == Ok::<PacketHeaderView, PacketError>(h@),
                Err(e) => header_parse(data@) == Err::<PacketHeaderView, PacketError>(e),
            },
    {
        if data.len() < Self::SIZE {
            return Err(PacketError::InvalidSize);
        }
        let packet_type = match PacketType::from_u8(data[0]) {
            Some(t) => t,
            None => {
                return Err(PacketError::InvalidPacketType);
            },
        };
        let sequence = read_u32_be(slice_subrange(data, 1, 5));
        let user_id = take_field::<8>(data, 5);
        let channel_id = take_field::<4>(data, 13);
        let timestamp = read_u32_be(slice_subrange(data, 17, 21));
        proof {
            assert(data@.subrange(1, 5).subrange(0, 4) =~= data@.subrange(1, 5));
            assert(data@.subrange(17, 21).subrange(0, 4) =~= data@.subrange(17, 21));
        }
        Ok(PacketHeader { packet_type, sequence, user_id, channel_id, timestamp })
    }

    /// The principal id as text: the field decoded, malformed bytes
    /// replaced, and the zeros at the end taken off.
    pub fn user_id_str(&self) -> (r: String)
        ensures
            r@ == strip_trailing_nul(utf8_lossy_text(self.user_id@)),
            valid_utf8(self.user_id@) ==> r@ == strip_trailing_nul(decode_utf8(self.user_id@)),
    {
        let text = string_from_utf8_lossy(self.user_id.as_slice());
        trim_trailing_nul(text.as_str())
    }

    /// The channel id as text: the field decoded, malformed bytes replaced,
    /// and the zeros at the end taken off.
    pub fn channel_id_str(&self) -> (r: String)
        ensures
            r@ == strip_trailing_nul(utf8_lossy_text(self.channel_id@)),
            valid_utf8(self.channel_id@) ==> r@ == strip_trailing_nul(
                decode_utf8(self.channel_id@),
            ),
    {
        let text = string_from_utf8_lossy(self.channel_id.as_slice());
        trim_trailing_nul(text.as_str())
    }
}

/// The body of a JSON handshake: a credential and the channel to enter.
#[derive(Debug, Clone)]
pub struct HandshakeData {
    /// Bearer credential.
    pub token: String,
    /// Channel to enter.
    pub channel_id: String,
}

/// A JSON handshake body as a mathematical value.
pub ghost struct HandshakeDataView {
    pub token: Seq<char>,
    pub channel_id: Seq<char>,
}

impl View for HandshakeData {
    type V = HandshakeDataView;

    open spec fn view(&self) -> HandshakeDataView {
        HandshakeDataView { token: self.token@, channel_id: self.channel_id@ }
    }
}

/// A control frame: the header and, by kind, one body.
#[derive(Debug, Clone)]
pub struct AudioPacket {
    /// Header.
    pub header: PacketHeader,
    /// Raw bearer credential of a handshake.
    pub jwt_token: Option<String>,
    /// JSON body of a handshake.
    pub handshake_data: Option<HandshakeData>,
    /// Audio of an audio frame.
    pub audio_data: Option<Vec<u8>>,
    /// Mute state of a mute frame.
    pub mute_state: Option<bool>,
    /// Message of an error frame.
    pub error_message: Option<String>,
}

/// A control frame as a mathematical value.
pub ghost struct AudioPacketView {
    pub header: PacketHeaderView,
    pub jwt_token: Option<Seq<char>>,
    pub handshake_data: Option<HandshakeDataView>,
    pub audio_data: Option<Seq<u8>>,
    pub mute_state: Option<bool>,
    pub error_message: Option<Seq<char>>,
}

/// The view of an optional text.
pub open spec fn text_view(t: Option<String>) -> Option<Seq<char>> {
    match t {
        Some(s) => Some(s@),
        None => None,
    }
}

impl View for AudioPacket {
    type V = AudioPacketView;

    open spec fn view(&self) -> AudioPacketView {
        AudioPacketView {
            header: self.header@,
            jwt_token: text_view(self.jwt_token),
            handshake_data: match self.handshake_data {
                Some(h) => Some(h@),
                None => None,
            },
            audio_data: match self.audio_data {
                Some(a) => Some(a@),
                None => None,
            },
            mute_state: self.mute_state,
            error_message: text_view(self.error_message),
        }
    }
}

/// The JSON object that a handshake body is written as, built around the
/// string literals that `serde_json` writes for the two values.
pub open spec fn handshake_json_text(h: HandshakeDataView) -> Option<Seq<char>> {
    match (json_quoted(h.token), json_quoted(h.channel_id)) {
        (Some(t), Some(c)) => Some(
            "{\"token\":"@ + t + ",\"channel_id\":"@ + c + "}"@,
        ),
        _ => None,
    }
}

/// How a handshake body is read: as the JSON form where it is a JSON object
/// with the string members `token` and `channel_id`, else as a raw
/// credential.
pub open spec fn handshake_body_of(text: Seq<char>) -> (
    Option<Seq<char>>,
    Option<HandshakeDataView>,
) {
    match (json_text_field(text, "token"@), json_text_field(text, "channel_id"@)) {
        (Some(t), Some(c)) => (None, Some(HandshakeDataView { token: t, channel_id: c })),
        _ => (Some(text), None),
    }
}

/// A frame with a length-prefixed body: the head, the body's length in 16
/// bits, the body. A body of more than 65535 bytes cannot be framed.
pub open spec fn sized_frame(head: Seq<u8>, body: Seq<u8>) -> Result<Seq<u8>, PacketError> {
    if body.len() > 0xFFFF {
        Err(PacketError::InvalidSize)
    } else {
        Ok(head + u16_be_bytes(body.len() as u16) + body)
    }
}

/// The bytes that a control frame is written as, or why it cannot be
/// written.
pub open spec fn packet_wire(p: AudioPacketView) -> Result<Seq<u8>, PacketError> {
    let head = header_wire(p.header);
    match p.header.packet_type {
        PacketType::Handshake => match (p.handshake_data, p.jwt_token) {
            (Some(h), _) => match handshake_json_text(h) {
                Some(json) => sized_frame(head, encode_utf8(json)),
                None => Err(PacketError::InvalidJson),
            },
            (None, Some(token)) => sized_frame(head, encode_utf8(token)),
            (None, None) => Err(PacketError::MissingToken),
        },
        PacketType::Audio => match p.audio_data {
            Some(audio) => sized_frame(head, audio),
            None => Err(PacketError::MissingAudioData),
        },
        PacketType::SetMute => match p.mute_state {
            Some(mute) => Ok(
                head + seq![
                    if mute {
                        1u8
                    } else {
                        0u8
                    },
                ],
            ),
            None => Err(PacketError::MissingMuteState),
        },
        PacketType::Error => match p.error_message {
            Some(message) => sized_frame(head, encode_utf8(message)),
            None => Err(PacketError::MissingErrorMessage),
        },
        _ => Ok(head),
    }
}

/// The length-prefixed body that `rest` begins with: 16 bits of length, then
/// that many bytes. Bytes after the body are not looked at.
pub open spec fn sized_body(rest: Seq<u8>) -> Result<Seq<u8>, PacketError> {
    if rest.len() < 2 {
        Err(PacketError::InvalidSize)
    } else if rest.len() < 2 + be_u16(rest.subrange(0, 2)) {
        Err(PacketError::InvalidSize)
    } else {
        Ok(rest.subrange(2, 2 + be_u16(rest.subrange(0, 2))))
    }
}

/// The length-prefixed text that `rest` begins with.
pub open spec fn text_body(rest: Seq<u8>) -> Result<Seq<char>, PacketError> {
    match sized_body(rest) {
        Err(e) => Err(e),
        Ok(body) => if valid_utf8(body) {
            Ok(decode_utf8(body))
        } else {
            Err(PacketError::InvalidUtf8)
        },
    }
}

/// A frame of the given header without any body.
pub open spec fn bare_packet(header: PacketHeaderView) -> AudioPacketView {
    AudioPacketView {
        header,
        jwt_token: None,
        handshake_data: None,
        audio_data: None,
        mute_state: None,
        error_message: None,
    }
}

/// The control frame that a datagram holds, or why it holds none.
pub open spec fn packet_parse(data: Seq<u8>) -> Result<AudioPacketView, PacketError> {
    match header_parse(data) {
        Err(e) => Err(e),
        Ok(header) => {
            let rest = data.subrange(21, data.len() as int);
            let bare = bare_packet(header);
            match header.packet_type {
                PacketType::Handshake => match text_body(rest) {
                    Err(e) => Err(e),
                    Ok(text) => Ok(
                        AudioPacketView {
                            jwt_token: handshake_body_of(text).0,
                            handshake_data: handshake_body_of(text).1,
                            ..bare
                        },
                    ),
                },
                PacketType::Audio => match sized_body(rest) {
                    Err(e) => Err(e),
                    Ok(audio) => Ok(AudioPacketView { audio_data: Some(audio), ..bare }),
                },
                PacketType::SetMute => if rest.len() < 1 {
                    Err(PacketError::InvalidSize)
                } else {
                    Ok(AudioPacketView { mute_state: Some(rest[0] != 0), ..bare })
                },
                PacketType::Error => match text_body(rest) {
                    Err(e) => Err(e),
                    Ok(text) => Ok(AudioPacketView { error_message: Some(text), ..bare }),
                },
                _ => Ok(bare),
            }
        },
    }
}

/// Writes a handshake body as a JSON object.
fn handshake_json(h: &HandshakeData) -> (r: Option<String>)
    ensures
        text_view(r) == handshake_json_text(h@),
{
    let token = json_quote(h.token.as_str());
    let channel = json_quote(h.channel_id.as_str());
    match (token, channel) {
        (Some(t), Some(c)) => {
            let mut json = String::from_str("{\"token\":");
            json.append(t.as_str());
            json.append(",\"channel_id\":");
            json.append(c.as_str());
            json.append("}");
            Some(json)
        },
        _ => None,
    }
}

/// Appends a body behind its 16-bit length. Says whether the body fits; if
/// it does not, nothing is appended.
fn put_sized_body(buf: &mut Vec<u8>, body: &[u8]) -> (fits: bool)
    ensures
        fits == (body@.len() <= 0xFFFF),
        fits ==> final(buf)@ == old(buf)@ + u16_be_bytes(body@.len() as u16) + body@,
        !fits ==> final(buf)@ == old(buf)@,
{
    if body.len() > 0xFFFF {
        return false;
    }
    put_u16_be(buf, body.len() as u16);
    append_bytes(buf, body);
    true
}

/// Reads the length-prefixed body that `rest` begins with.
fn read_sized_body(rest: &[u8]) -> (r: Result<Vec<u8>, PacketError>)
    ensures
        match r {
            Ok(body) => sized_body(rest@) == Ok::<Seq<u8>, PacketError>(body@),
            Err(e) => sized_body(rest@) == Err::<Seq<u8>, PacketError>(e),
        },
{
    if rest.len() < 2 {
        return Err(PacketError::InvalidSize);
    }
    let len: usize = read_u16_be(slice_subrange(rest, 0, 2)) as usize;
    proof {
        assert(rest@.subrange(0, 2).subrange(0, 2) =~= rest@.subrange(0, 2));
    }
    if rest.len() - 2 < len {
        return Err(PacketError::InvalidSize);
    }
    Ok(slice_to_vec(slice_subrange(rest, 2, 2 + len)))
}

/// Reads the length-prefixed text that `rest` begins with.
fn read_text_body(rest: &[u8]) -> (r: Result<String, PacketError>)
    ensures
        match r {
            Ok(text) => text_body(rest@) == Ok::<Seq<char>, PacketError>(text@),
            Err(e) => text_body(rest@) == Err::<Seq<char>, PacketError>(e),
        },
{
    let body = match read_sized_body(rest) {
        Ok(body) => body,
        Err(e) => {
            return Err(e);
        },
    };
    match string_from_utf8(body) {
        Some(text) => Ok(text),
        None => Err(PacketError::InvalidUtf8),
    }
}

/// Sorts a handshake body into its two forms, given what the JSON reader
/// found in it under `token` and under `channel_id`: with both present the
/// body is a JSON handshake, else the whole text is a raw credential.
pub fn handshake_body(text: String, token: Option<String>, channel_id: Option<String>) -> (r: (
    Option<String>,
    Option<HandshakeData>,
))
    ensures
        token is Some && channel_id is Some ==> r.0 is None && r.1 is Some && r.1->0.token
            == token->0 && r.1->0.channel_id == channel_id->0,
        !(token is Some && channel_id is Some) ==> r.0 == Some(text) && r.1 is None,
{
    match (token, channel_id) {
        (Some(token), Some(channel_id)) => (None, Some(HandshakeData { token, channel_id })),
        _ => (Some(text), None),
    }
}

impl AudioPacket {
    /// A frame of the given kind without any body.
    fn bare(
        packet_type: PacketType,
        sequence: u32,
        user_id: &str,
        channel_id: &str,
        timestamp: u32,
    ) -> (r: Self)
        ensures
            r@ == bare_packet(r.header@),
            r.header@ == PacketHeader::new_view(
                packet_type,
                sequence,
                user_id.spec_bytes(),
                channel_id.spec_bytes(),
                timestamp,
            ),
            r.jwt_token is None,
            r.handshake_data is None,
            r.audio_data is None,
            r.mute_state is None,
            r.error_message is None,
    {
        AudioPacket {
            header: PacketHeader::new(packet_type, sequence, user_id, channel_id, timestamp),
            jwt_token: None,
            handshake_data: None,
            audio_data: None,
            mute_state: None,
            error_message: None,
        }
    }

    /// A handshake frame that carries a raw credential, stamped with
    /// `timestamp`.
    pub fn handshake(jwt_token: String, user_id: &str, channel_id: &str, timestamp: u32) -> (r:
        Self)
        ensures
            r.header@ == PacketHeader::new_view(
                PacketType::Handshake,
                0,
                user_id.spec_bytes(),
                channel_id.spec_bytes(),
                timestamp,
            ),
            r@ == (AudioPacketView { jwt_token: Some(jwt_token@), ..bare_packet(r.header@) }),
    {
        let mut packet = Self::bare(PacketType::Handshake, 0, user_id, channel_id, timestamp);
        packet.jwt_token = Some(jwt_token);
        packet
    }

    /// A handshake frame that carries the JSON body, stamped with
    /// `timestamp`. The principal id of the header is left empty.
    pub fn json_handshake(token: String, channel_id: String, timestamp: u32) -> (r: Self)
        ensures
            r.header@ == PacketHeader::new_view(
                PacketType::Handshake,
                0,
                Seq::<u8>::empty(),
                encode_utf8(channel_id@),
                timestamp,
            ),
            r@ == (AudioPacketView {
                handshake_data: Some(HandshakeDataView { token: token@, channel_id: channel_id@ }),
                ..bare_packet(r.header@)
            }),
    {
        let empty = String::new();
        proof {
            assert(encode_utf8(empty@) =~= Seq::<u8>::empty());
        }
        let mut packet = Self::bare(
            PacketType::Handshake,
            0,
            empty.as_str(),
            channel_id.as_str(),
            timestamp,
        );
        packet.handshake_data = Some(HandshakeData { token, channel_id });
        packet
    }

    /// An audio frame, stamped with `timestamp`.
    pub fn audio(
        sequence: u32,
        user_id: &str,
        channel_id: &str,
        audio_data: Vec<u8>,
        timestamp: u32,
    ) -> (r: Self)
        ensures
            r.header@ == PacketHeader::new_view(
                PacketType::Audio,
                sequence,
                user_id.spec_bytes(),
                channel_id.spec_bytes(),
                timestamp,
            ),
            r@ == (AudioPacketView { audio_data: Some(audio_data@), ..bare_packet(r.header@) }),
    {
        let mut packet = Self::bare(PacketType::Audio, sequence, user_id, channel_id, timestamp);
        packet.audio_data = Some(audio_data);
        packet
    }

    /// A join frame, stamped with `timestamp`.
    pub fn join_channel(user_id: &str, channel_id: &str, timestamp: u32) -> (r: Self)
        ensures
            r.header@ == PacketHeader::new_view(
                PacketType::JoinChannel,
                0,
                user_id.spec_bytes(),
                channel_id.spec_bytes(),
                timestamp,
            ),
            r@ == bare_packet(r.header@),
    {
        Self::bare(PacketType::JoinChannel, 0, user_id, channel_id, timestamp)
    }

    /// A leave frame, stamped with `timestamp`.
    pub fn leave_channel(user_id: &str, channel_id: &str, timestamp: u32) -> (r: Self)
        ensures
            r.header@ == PacketHeader::new_view(
                PacketType::LeaveChannel,
                0,
                user_id.spec_bytes(),
                channel_id.spec_bytes(),
                timestamp,
            ),
            r@ == bare_packet(r.header@),
    {
        Self::bare(PacketType::LeaveChannel, 0, user_id, channel_id, timestamp)
    }

    /// A mute frame, stamped with `timestamp`.
    pub fn set_mute(user_id: &str, channel_id: &str, mute: bool, timestamp: u32) -> (r: Self)
        ensures
            r.header@ == PacketHeader::new_view(
                PacketType::SetMute,
                0,
                user_id.spec_bytes(),
                channel_id.spec_bytes(),
                timestamp,
            ),
            r@ == (AudioPacketView { mute_state: Some(mute), ..bare_packet(r.header@) }),
    {
        let mut packet = Self::bare(PacketType::SetMute, 0, user_id, channel_id, timestamp);
        packet.mute_state = Some(mute);
        packet
    }

    /// A heartbeat frame, stamped with `timestamp`.
    pub fn heartbeat(user_id: &str, channel_id: &str, timestamp: u32) -> (r: Self)
        ensures
            r.header@ == PacketHeader::new_view(
                PacketType::Heartbeat,
                0,
                user_id.spec_bytes(),
                channel_id.spec_bytes(),
                timestamp,
            ),
            r@ == bare_packet(r.header@),
    {
        Self::bare(PacketType::Heartbeat, 0, user_id, channel_id, timestamp)
    }

    /// An error frame, stamped with `timestamp`.
    pub fn error(user_id: &str, channel_id: &str, error_message: String, timestamp: u32) -> (r:
        Self)
        ensures
            r.header@ == PacketHeader::new_view(
                PacketType::Error,
                0,
                user_id.spec_bytes(),
                channel_id.spec_bytes(),
                timestamp,
            ),
            r@ == (AudioPacketView {
                error_message: Some(error_message@),
                ..bare_packet(r.header@)
            }),
    {
        let mut packet = Self::bare(PacketType::Error, 0, user_id, channel_id, timestamp);
        packet.error_message = Some(error_message);
        packet
    }

    /// An acknowledgement of `sequence`, stamped with `timestamp`.
    pub fn ack(user_id: &str, channel_id: &str, sequence: u32, timestamp: u32) -> (r: Self)
        ensures
            r.header@ == PacketHeader::new_view(
                PacketType::Ack,
                sequence,
                user_id.spec_bytes(),
                channel_id.spec_bytes(),
                timestamp,
            ),
            r@ == bare_packet(r.header@),
    {
        Self::bare(PacketType::Ack, sequence, user_id, channel_id, timestamp)
    }

    /// Writes the frame: the header, then the body that its kind calls for.
    /// A frame that lacks that body is refused with the matching `Missing`
    /// error, a body of more than 65535 bytes with `InvalidSize`.
    #[verifier::rlimit(40)]
    pub fn to_bytes(&self) -> (r: Result<Vec<u8>, PacketError>)
        ensures
            match r {
                Ok(bytes) => packet_wire(self@) == Ok::<Seq<u8>, PacketError>(bytes@),
                Err(e) => packet_wire(self@) == Err::<Seq<u8>, PacketError>(e),
            },
    {
        let mut buf = self.header.to_bytes();
        match self.header.packet_type {
            PacketType::Handshake => {
                if let Some(handshake) = &self.handshake_data {
                    let json = match handshake_json(handshake) {
                        Some(json) => json,
                        None => {
                            return Err(PacketError::InvalidJson);
                        },
                    };
                    if !put_sized_body(&mut buf, json.as_str().as_bytes()) {
                        return Err(PacketError::InvalidSize);
                    }
                } else if let Some(token) = &self.jwt_token {
                    if !put_sized_body(&mut buf, token.as_str().as_bytes()) {
                        return Err(PacketError::InvalidSize);
                    }
                } else {
                    return Err(PacketError::MissingToken);
                }
            },
            PacketType::Audio => {
                if let Some(audio) = &self.audio_data {
                    if !put_sized_body(&mut buf, audio.as_slice()) {
                        return Err(PacketError::InvalidSize);
                    }
                } else {
                    return Err(PacketError::MissingAudioData);
                }
            },
            PacketType::SetMute => {
                if let Some(mute) = self.mute_state {
                    buf.push(
                        if mute {
                            1
                        } else {
                            0
                        },
                    );
                    assert(buf@ =~= header_wire(self.header@) + seq![
                        if mute {
                            1u8
                        } else {
                            0u8
                        },
                    ]);
                } else {
                    return Err(PacketError::MissingMuteState);
                }
            },
            PacketType::Error => {
                if let Some(message) = &self.error_message {
                    if !put_sized_body(&mut buf, message.as_str().as_bytes()) {
                        return Err(PacketError::InvalidSize);
                    }
                } else {
                    return Err(PacketError::MissingErrorMessage);
                }
            },
            _ => {},
        }
        Ok(buf)
    }

    /// Reads the frame that a datagram holds. Bytes behind the body are not
    /// looked at. A datagram that ends before its header or body does is
    /// refused with `InvalidSize`, an unknown tag with `InvalidPacketType`, a
    /// text body that is not UTF-8 with `InvalidUtf8`.
    #[verifier::rlimit(40)]
    pub fn from_bytes(data: &[u8]) -> (r: Result<Self, PacketError>)
        ensures
            match r {
                Ok(p) => packet_parse(data@) == Ok::<AudioPacketView, PacketError>(p@),
                Err(e) => packet_parse(data@) == Err::<AudioPacketView, PacketError>(e),
            },
    {
        let header = match PacketHeader::from_bytes(data) {
            Ok(header) => header,
            Err(e) => {
                return Err(e);
            },
        };
        let rest = slice_subrange(data, PacketHeader::SIZE, data.len());
        let mut packet = AudioPacket {
            header,
            jwt_token: None,
            handshake_data: None,
            audio_data: None,
            mute_state: None,
            error_message: None,
        };
        match header.packet_type {
            PacketType::Handshake => {
                let text = match read_text_body(rest) {
                    Ok(text) => text,
                    Err(e) => {
                        return Err(e);
                    },
                };
                let token = json_string_field(text.as_str(), "token");
                let channel_id = json_string_field(text.as_str(), "channel_id");
                let (jwt_token, handshake_data) = handshake_body(text, token, channel_id);
                packet.jwt_token = jwt_token;
                packet.handshake_data = handshake_data;
            },
            PacketType::Audio => {
                let audio = match read_sized_body(rest) {
                    Ok(audio) => audio,
                    Err(e) => {
                        return Err(e);
                    },
                };
                packet.audio_data = Some(audio);
            },
            PacketType::SetMute => {
                if rest.len() < 1 {
                    return Err(PacketError::InvalidSize);
                }
                packet.mute_state = Some(rest[0] != 0);
            },
            PacketType::Error => {
                let text = match read_text_body(rest) {
                    Ok(text) => text,
                    Err(e) => {
                        return Err(e);
                    },
                };
                packet.error_message = Some(text);
            },
            _ => {},
        }
        Ok(packet)
    }
}

/// Whether a text body can be framed and is read back as itself.
pub open spec fn text_fits(text: Seq<char>) -> bool {
    encode_utf8(text).len() <= 0xFFFF
}

/// Whether a frame holds exactly the body that its kind calls for, in a form
/// that can be written and read back: identifiers of the header's widths,
/// a body that fits its 16-bit length, and for a handshake a body that reads
/// in the form in which it was given (a raw credential that is not itself a
/// JSON handshake object; a JSON body that the JSON reader gives back as
/// written).
pub open spec fn frame_well_formed(p: AudioPacketView) -> bool {
    &&& p.header.user_id.len() == 8
    &&& p.header.channel_id.len() == 4
    &&& match p.header.packet_type {
        PacketType::Handshake => {
            &&& p.audio_data is None
            &&& p.mute_state is None
            &&& p.error_message is None
            &&& match (p.handshake_data, p.jwt_token) {
                (Some(h), None) => {
                    &&& handshake_json_text(h) is Some
                    &&& text_fits(handshake_json_text(h)->0)
                    &&& handshake_body_of(handshake_json_text(h)->0) == (
                        None::<Seq<char>>,
                        Some(h),
                    )
                },
                (None, Some(token)) => {
                    &&& text_fits(token)
                    &&& handshake_body_of(token) == (Some(token), None::<HandshakeDataView>)
                },
                _ => false,
            }
        },
        PacketType::Audio => {
            &&& p.audio_data is Some
            &&& p.audio_data->0.len() <= 0xFFFF
            &&& p == (AudioPacketView { audio_data: p.audio_data, ..bare_packet(p.header) })
        },
        PacketType::SetMute => {
            &&& p.mute_state is Some
            &&& p == (AudioPacketView { mute_state: p.mute_state, ..bare_packet(p.header) })
        },
        PacketType::Error => {
            &&& p.error_message is Some
            &&& text_fits(p.error_message->0)
            &&& p == (AudioPacketView { error_message: p.error_message, ..bare_packet(p.header) })
        },
        _ => p == bare_packet(p.header),
    }
}

/// A length-prefixed body is read back from behind any head of 21 bytes.
proof fn lemma_sized_body_round_trip(head: Seq<u8>, body: Seq<u8>)
    requires
        head.len() == 21,
        body.len() <= 0xFFFF,
    ensures
        sized_frame(head, body) is Ok,
        sized_body(sized_frame(head, body)->Ok_0.subrange(21, sized_frame(head, body)->Ok_0.len() as int))
            == Ok::<Seq<u8>, PacketError>(body),
{
    let frame = sized_frame(head, body)->Ok_0;
    let rest = frame.subrange(21, frame.len() as int);
    let n = body.len() as u16;
    lemma_u16_read_write(n);
    assert(rest =~= u16_be_bytes(n) + body);
    assert(rest.subrange(0, 2) =~= u16_be_bytes(n));
    assert(rest.subrange(2, 2 + be_u16(rest.subrange(0, 2))) =~= body);
}

/// Writing a well-formed control frame and reading the bytes gives the frame
/// back, for every kind of control frame.
#[verifier::rlimit(40)]
pub proof fn lemma_packet_round_trip(p: AudioPacketView)
    requires
        frame_well_formed(p),
    ensures
        packet_wire(p) is Ok,
        packet_parse(packet_wire(p)->Ok_0) == Ok::<AudioPacketView, PacketError>(p),
{
    broadcast use encode_utf8_valid_utf8, encode_utf8_decode_utf8;

    let head = header_wire(p.header);
    lemma_header_round_trip(p.header, Seq::<u8>::empty());
    assert(head + Seq::<u8>::empty() =~= head);
    match p.header.packet_type {
        PacketType::Handshake => {
            let text = match (p.handshake_data, p.jwt_token) {
                (Some(h), _) => handshake_json_text(h)->0,
                (_, Some(token)) => token,
                _ => Seq::<char>::empty(),
            };
            let body = encode_utf8(text);
            lemma_sized_body_round_trip(head, body);
            let data = packet_wire(p)->Ok_0;
            lemma_header_round_trip(p.header, u16_be_bytes(body.len() as u16) + body);
            assert(data =~= head + (u16_be_bytes(body.len() as u16) + body));
        },
        PacketType::Audio => {
            let body = p.audio_data->0;
            lemma_sized_body_round_trip(head, body);
            let data = packet_wire(p)->Ok_0;
            lemma_header_round_trip(p.header, u16_be_bytes(body.len() as u16) + body);
            assert(data =~= head + (u16_be_bytes(body.len() as u16) + body));
        },
        PacketType::SetMute => {
            let flag = if p.mute_state->0 {
                1u8
            } else {
                0u8
            };
            lemma_header_round_trip(p.header, seq![flag]);
            let data = packet_wire(p)->Ok_0;
            assert(data =~= head + seq![flag]);
            assert(data.subrange(21, data.len() as int) =~= seq![flag]);
        },
        PacketType::Error => {
            let body = encode_utf8(p.error_message->0);
            lemma_sized_body_round_trip(head, body);
            let data = packet_wire(p)->Ok_0;
            lemma_header_round_trip(p.header, u16_be_bytes(body.len() as u16) + body);
            assert(data =~= head + (u16_be_bytes(body.len() as u16) + body));
        },
        _ => {},
    }
}

/// A voice frame: a 15-byte header and an opaque payload.
#[derive(Debug, Clone, PartialEq, Eq)]
pub struct VoicePacket {
    /// Tag byte; `0x01` marks a voice frame.
    pub packet_type: u8,
    /// Sequence number of the sender.
    pub sequence_number: u32,
    /// Media timestamp in milliseconds.
    pub timestamp: u64,
    /// Compressed voice.
    pub payload: Vec<u8>,
}

/// A voice frame as a mathematical value.
pub ghost struct VoicePacketView {
    pub packet_type: u8,
    pub sequence_number: u32,
    pub timestamp: u64,
    pub payload: Seq<u8>,
}

impl View for VoicePacket {
    type V = VoicePacketView;

    open spec fn view(&self) -> VoicePacketView {
        VoicePacketView {
            packet_type: self.packet_type,
            sequence_number: self.sequence_number,
            timestamp: self.timestamp,
            payload: self.payload@,
        }
    }
}

/// The bytes that a voice frame is written as: tag, sequence, timestamp, the
/// payload's length in 16 bits, the payload. The length field holds the
/// length modulo 65536, so only a payload of at most 65535 bytes is written
/// as a frame that reads back.
pub open spec fn voice_wire(v: VoicePacketView) -> Seq<u8> {
    seq![v.packet_type] + u32_be_bytes(v.sequence_number) + u64_be_bytes(v.timestamp)
        + u16_be_bytes((v.payload.len() % 0x1_0000) as u16) + v.payload
}

/// The voice frame that a datagram holds, or the reason why it holds none.
/// The datagram must be exactly as long as its length field says.
pub open spec fn voice_parse(data: Seq<u8>) -> Result<VoicePacketView, Seq<char>> {
    if data.len() < 15 {
        Err("Packet too short"@)
    } else if data[0] != 0x01 {
        Err("Invalid packet type"@)
    } else if data.len() != 15 + be_u16(data.subrange(13, 15)) {
        Err("Payload length mismatch"@)
    } else {
        Ok(
            VoicePacketView {
                packet_type: data[0],
                sequence_number: be_u32(data.subrange(1, 5)) as u32,
                timestamp: be_u64(data.subrange(5, 13)) as u64,
                payload: data.subrange(15, data.len() as int),
            },
        )
    }
}

/// Whether a voice frame can be written and read back: the voice tag and a
/// payload that fits the 16-bit length.
pub open spec fn voice_well_formed(v: VoicePacketView) -> bool {
    v.packet_type == 0x01 && v.payload.len() <= 0xFFFF
}

/// Writing a well-formed voice frame and reading the bytes gives the frame
/// back.
#[verifier::rlimit(40)]
pub proof fn lemma_voice_round_trip(v: VoicePacketView)
    requires
        voice_well_formed(v),
    ensures
        voice_parse(voice_wire(v)) == Ok::<VoicePacketView, Seq<char>>(v),
{
    let data = voice_wire(v);
    let n = v.payload.len() as u16;
    lemma_u32_read_write(v.sequence_number);
    lemma_u64_read_write(v.timestamp);
    lemma_u16_read_write(n);
    assert(data.subrange(1, 5) =~= u32_be_bytes(v.sequence_number));
    assert(data.subrange(5, 13) =~= u64_be_bytes(v.timestamp));
    assert(data.subrange(13, 15) =~= u16_be_bytes(n));
    assert(data.subrange(15, data.len() as int) =~= v.payload);
}

/// Reading a datagram as a voice frame and writing the frame gives the
/// datagram back.
#[verifier::rlimit(40)]
pub proof fn lemma_voice_parse_wire(data: Seq<u8>)
    requires
        voice_parse(data) is Ok,
    ensures
        voice_well_formed(voice_parse(data)->Ok_0),
        voice_wire(voice_parse(data)->Ok_0) == data,
{
    let v = voice_parse(data)->Ok_0;
    lemma_u32_write_read(data.subrange(1, 5));
    lemma_u64_write_read(data.subrange(5, 13));
    lemma_u16_write_read(data.subrange(13, 15));
    assert(voice_wire(v) =~= data);
}

/// A datagram of exactly 15 bytes with the voice tag and a zero length field
/// is a voice frame without payload.
pub proof fn lemma_voice_header_only(data: Seq<u8>)
    requires
        data.len() == 15,
        data[0] == 0x01,
        data[13] == 0,
        data[14] == 0,
    ensures
        voice_parse(data) is Ok,
        voice_parse(data)->Ok_0.payload == Seq::<u8>::empty(),
{
    reveal(be_u16);
    assert(data.subrange(15, 15) =~= Seq::<u8>::empty());
}

impl VoicePacket {
    /// Length of the header: one tag byte, four of sequence, eight of
    /// timestamp, two of payload length.
    pub const HEADER_SIZE: usize = 15;

    /// The tag byte of a voice frame.
    pub const VOICE_PACKET_TYPE: u8 = 0x01;

    /// Reads a voice frame. The datagram must hold the header, carry the
    /// voice tag, and be exactly as long as header and payload length say;
    /// otherwise it is refused as `InvalidVoicePacket` with the reason.
    #[verifier::rlimit(40)]
    pub fn from_bytes(data: &[u8]) -> (r: Result<Self, PacketError>)
        ensures
            match r {
                Ok(v) => voice_parse(data@) == Ok::<VoicePacketView, Seq<char>>(v@),
                Err(e) => e matches PacketError::InvalidVoicePacket(reason) && voice_parse(data@)
                    == Err::<VoicePacketView, Seq<char>>(reason@),
            },
    {
        if data.len() < Self::HEADER_SIZE {
            return Err(PacketError::InvalidVoicePacket("Packet too short".to_string()));
        }
        let packet_type = data[0];
        if packet_type != Self::VOICE_PACKET_TYPE {
            return Err(PacketError::InvalidVoicePacket("Invalid packet type".to_string()));
        }
        let sequence_number = read_u32_be(slice_subrange(data, 1, 5));
        let timestamp = read_u64_be(slice_subrange(data, 5, 13));
        let payload_length: usize = read_u16_be(slice_subrange(data, 13, 15)) as usize;
        proof {
            assert(data@.subrange(1, 5).subrange(0, 4) =~= data@.subrange(1, 5));
            assert(data@.subrange(5, 13).subrange(0, 8) =~= data@.subrange(5, 13));
            assert(data@.subrange(13, 15).subrange(0, 2) =~= data@.subrange(13, 15));
        }
        if data.len() - Self::HEADER_SIZE != payload_length {
            return Err(PacketError::InvalidVoicePacket("Payload length mismatch".to_string()));
        }
        let payload = slice_to_vec(slice_subrange(data, Self::HEADER_SIZE, data.len()));
        Ok(VoicePacket { packet_type, sequence_number, timestamp, payload })
    }

    /// Writes the frame.
    pub fn to_bytes(&self) -> (r: Vec<u8>)
        ensures
            r@ == voice_wire(self@),
    {
        let mut buf: Vec<u8> = Vec::new();
        buf.push(self.packet_type);
        put_u32_be(&mut buf, self.sequence_number);
        put_u64_be(&mut buf, self.timestamp);
        put_u16_be(&mut buf, (self.payload.len() % 0x1_0000) as u16);
        append_bytes(&mut buf, self.payload.as_slice());
        assert(buf@ =~= voice_wire(self@));
        buf
    }
}

/// An identifier that fits its field and does not end in `'\0'` is read
/// back from the field as it was written: the zero padding is well-formed
/// text, and taking the zeros off the end leaves the identifier.
pub proof fn lemma_field_text_round_trip(id: Seq<char>, width: nat)
    requires
        encode_utf8(id).len() <= width,
        id.len() == 0 || id.last() != '\0',
    ensures
        valid_utf8(pad_field(encode_utf8(id), width)),
        strip_trailing_nul(decode_utf8(pad_field(encode_utf8(id), width))) == id,
{
    broadcast use encode_utf8_valid_utf8, encode_utf8_decode_utf8;

    let k = (width - encode_utf8(id).len()) as nat;
    let padded = id + crate::text::nul_run(k);
    crate::text::lemma_encode_concat(id, crate::text::nul_run(k));
    crate::text::lemma_encode_nul_run(k);
    assert(pad_field(encode_utf8(id), width) =~= encode_utf8(padded));
    crate::text::lemma_strip_nul_run(id, k);
}

} // verus!
