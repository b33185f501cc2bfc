//! The Improv Wi-Fi serial protocol: frame layout, typed payloads, and a
//! prefix-based decoder.
//!
//! A frame is `"IMPROV"`, the version byte `0x01`, a type byte, a payload
//! length byte, the payload, a checksum byte and the terminator `0x0A`. The
//! checksum is the wrapping sum of every byte before it.

use vstd::prelude::*;
use vstd::slice::*;
use vstd::utf8::*;

use crate::text::utf8_to_string;

verus! {

broadcast use {encode_utf8_valid_utf8, encode_utf8_decode_utf8};

// Error type ================================================

/// Why a buffer does not start with a well-formed frame.
#[derive(Debug, Clone, Copy, PartialEq, Eq, Structural)]
pub enum ParseError {
    /// More bytes are needed before anything can be decided.
    Incomplete,
    /// The magic, the version or the terminator differs.
    InvalidMagic,
    /// The checksum byte differs from the sum of the bytes it covers.
    InvalidChecksum,
    /// A string field is not valid UTF-8.
    InvalidUtf8,
    /// Unknown frame type byte.
    InvalidDataType(u8),
    /// Unknown RPC command byte.
    InvalidCommand(u8),
    /// Unknown current-state byte.
    InvalidState(u8),
    /// Unknown error-state byte.
    InvalidError(u8),
}

// Packet types =============================================

/// State that the device reports.
#[derive(Debug, Clone, Copy, PartialEq, Eq, Structural)]
pub enum CurrentStateOption {
    Ready,
    Provisioning,
    Provisioned,
}

/// Error that the device reports.
#[derive(Debug, Clone, Copy, PartialEq, Eq, Structural)]
pub enum ErrorStateOption {
    NoError,
    InvalidRPCPacket,
    UnknownRPCCommand,
    UnableToConnect,
    UnknownError,
}

/// Credentials carried by a `SendWifiSettings` command.
#[derive(Debug)]
pub struct SendWifiSettingsStruct {
    pub ssid: String,
    pub password: String,
}

/// An RPC command; its id and length bytes are derived from `data`.
#[derive(Debug)]
#[allow(clippy::enum_variant_names)]
pub enum RPCCommand {
    SendWifiSettings(SendWifiSettingsStruct),
    RequestCurrentState,
    RequestDeviceInformation,
    RequestScannedWifiNetworks,
}

/// The RPC payload of a frame.
#[derive(Debug)]
pub struct RPCCommandStruct {
    pub data: RPCCommand,
}

/// An RPC result: the command responded to and a list of strings.
#[derive(Debug)]
pub struct RPCResultStruct {
    pub command_responded: u8,
    pub strings: Vec<String>,
}

/// The payload of a frame; its type and length bytes are derived from it.
#[derive(Debug)]
pub enum ImprovWifiPacketData {
    CurrentState(CurrentStateOption),
    ErrorState(ErrorStateOption),
    RPC(RPCCommandStruct),
    RPCResult(RPCResultStruct),
}

/// One frame of the protocol.
#[derive(Debug)]
pub struct ImprovWifiPacket {
    pub data: ImprovWifiPacketData,
}

/// The characters of each string, in order.
pub open spec fn strings_view(v: Seq<String>) -> Seq<Seq<char>> {
    v.map_values(|s: String| s@)
}

impl View for SendWifiSettingsStruct {
    type V = CommandModel;

    open spec fn view(&self) -> CommandModel {
        CommandModel::SendWifiSettings(self.ssid@, self.password@)
    }
}

impl View for RPCCommand {
    type V = CommandModel;

    open spec fn view(&self) -> CommandModel {
        match self {
            RPCCommand::SendWifiSettings(s) => s@,
            RPCCommand::RequestCurrentState => CommandModel::RequestCurrentState,
            RPCCommand::RequestDeviceInformation => CommandModel::RequestDeviceInformation,
            RPCCommand::RequestScannedWifiNetworks => CommandModel::RequestScannedWifiNetworks,
        }
    }
}

impl View for RPCCommandStruct {
    type V = CommandModel;

    open spec fn view(&self) -> CommandModel {
        self.data@
    }
}

impl View for RPCResultStruct {
    type V = (u8, Seq<Seq<char>>);

    open spec fn view(&self) -> (u8, Seq<Seq<char>>) {
        (self.command_responded, strings_view(self.strings@))
    }
}

impl View for ImprovWifiPacketData {
    type V = FramePayload;

    open spec fn view(&self) -> FramePayload {
        match self {
            ImprovWifiPacketData::CurrentState(s) => FramePayload::CurrentState(*s),
            ImprovWifiPacketData::ErrorState(e) => FramePayload::ErrorState(*e),
            ImprovWifiPacketData::RPC(c) => FramePayload::Command(c@),
            ImprovWifiPacketData::RPCResult(r) => FramePayload::Result(r@.0, r@.1),
        }
    }
}

impl View for ImprovWifiPacket {
    type V = FramePayload;

    open spec fn view(&self) -> FramePayload {
        self.data@
    }
}

// Mathematical model =========================================

/// What a frame carries, as mathematical values.
pub enum FramePayload {
    CurrentState(CurrentStateOption),
    ErrorState(ErrorStateOption),
    Command(CommandModel),
    /// The command responded to, and the strings in order.
    Result(u8, Seq<Seq<char>>),
}

/// An RPC command, as mathematical values.
pub enum CommandModel {
    /// SSID and password.
    SendWifiSettings(Seq<char>, Seq<char>),
    RequestCurrentState,
    RequestDeviceInformation,
    RequestScannedWifiNetworks,
}

/// Magic and version that open every frame: `"IMPROV"` then `0x01`.
pub open spec fn frame_magic() -> Seq<u8> {
    seq![0x49u8, 0x4Du8, 0x50u8, 0x52u8, 0x4Fu8, 0x56u8, 0x01u8]
}

/// The byte that closes every frame.
pub const TERMINATOR: u8 = 0x0A;

/// A length as it is written in a one-byte length field.
pub open spec fn len_byte(n: int) -> u8 {
    (n % 256) as u8
}

/// Sum of the bytes, as a natural number.
pub open spec fn byte_sum(s: Seq<u8>) -> nat
    decreases s.len(),
{
    if s.len() == 0 {
        0
    } else {
        byte_sum(s.drop_last()) + s.last() as nat
    }
}

/// The additive checksum: the sum of the bytes, modulo 256.
pub open spec fn checksum_of(s: Seq<u8>) -> u8 {
    (byte_sum(s) % 256) as u8
}

/// A string field: its UTF-8 byte length, then its UTF-8 bytes.
pub open spec fn string_field(s: Seq<char>) -> Seq<u8> {
    seq![len_byte(encode_utf8(s).len() as int)] + encode_utf8(s)
}

/// Consecutive string fields.
pub open spec fn strings_field(ss: Seq<Seq<char>>) -> Seq<u8>
    decreases ss.len(),
{
    if ss.len() == 0 {
        seq![]
    } else {
        string_field(ss[0]) + strings_field(ss.drop_first())
    }
}

pub open spec fn state_byte(s: CurrentStateOption) -> u8 {
    match s {
        CurrentStateOption::Ready => 0x02,
        CurrentStateOption::Provisioning => 0x03,
        CurrentStateOption::Provisioned => 0x04,
    }
}

pub open spec fn error_byte(e: ErrorStateOption) -> u8 {
    match e {
        ErrorStateOption::NoError => 0x00,
        ErrorStateOption::InvalidRPCPacket => 0x01,
        ErrorStateOption::UnknownRPCCommand => 0x02,
        ErrorStateOption::UnableToConnect => 0x03,
        ErrorStateOption::UnknownError => 0xFF,
    }
}

pub open spec fn command_id(c: CommandModel) -> u8 {
    match c {
        CommandModel::SendWifiSettings(_, _) => 0x01,
        CommandModel::RequestCurrentState => 0x02,
        CommandModel::RequestDeviceInformation => 0x03,
        CommandModel::RequestScannedWifiNetworks => 0x04,
    }
}

/// The bytes that follow a command's id and length byte.
pub open spec fn command_data(c: CommandModel) -> Seq<u8> {
    match c {
        CommandModel::SendWifiSettings(ssid, password) => string_field(ssid) + string_field(
            password,
        ),
        _ => seq![],
    }
}

pub open spec fn command_bytes(c: CommandModel) -> Seq<u8> {
    seq![command_id(c), len_byte(command_data(c).len() as int)] + command_data(c)
}

pub open spec fn result_bytes(command: u8, strings: Seq<Seq<char>>) -> Seq<u8> {
    seq![command, len_byte(strings_field(strings).len() as int)] + strings_field(strings)
}

pub open spec fn type_id(p: FramePayload) -> u8 {
    match p {
        FramePayload::CurrentState(_) => 0x01,
        FramePayload::ErrorState(_) => 0x02,
        FramePayload::Command(_) => 0x03,
        FramePayload::Result(_, _) => 0x04,
    }
}

/// The payload of a frame, as bytes.
pub open spec fn payload_bytes(p: FramePayload) -> Seq<u8> {
    match p {
        FramePayload::CurrentState(s) => seq![state_byte(s)],
        FramePayload::ErrorState(e) => seq![error_byte(e)],
        FramePayload::Command(c) => command_bytes(c),
        FramePayload::Result(command, strings) => result_bytes(command, strings),
    }
}

/// Everything that the checksum covers: magic, version, type, length, payload.
pub open spec fn frame_body(p: FramePayload) -> Seq<u8> {
    frame_magic() + seq![type_id(p), len_byte(payload_bytes(p).len() as int)] + payload_bytes(p)
}

/// The complete encoding of a frame.
pub open spec fn encode_frame(p: FramePayload) -> Seq<u8> {
    frame_body(p) + seq![checksum_of(frame_body(p)), TERMINATOR]
}

/// A string that a one-byte length field can describe.
pub open spec fn string_fits(s: Seq<char>) -> bool {
    encode_utf8(s).len() <= 255
}

/// Frames whose length fields all hold their true lengths: every string is
/// at most 255 bytes, and so is the string block of an RPC result. (The
/// outer length byte and a command's length byte are written modulo 256;
/// the decoder does not read them.)
pub open spec fn frame_fits(p: FramePayload) -> bool {
    match p {
        FramePayload::Command(CommandModel::SendWifiSettings(ssid, password)) => string_fits(ssid)
            && string_fits(password),
        FramePayload::Result(_, strings) => (forall|i: int|
            0 <= i < strings.len() ==> string_fits(#[trigger] strings[i])) && strings_field(
            strings,
        ).len() <= 255,
        _ => true,
    }
}

// Decoding, as mathematical functions ==================================
//
// Each `parse_*` function reads from `b` at `pos` and gives the value read
// and the position after it. A read past the end of `b` gives `Incomplete`.

/// A string field at `pos`.
pub open spec fn parse_string(b: Seq<u8>, pos: int) -> Result<(Seq<char>, int), ParseError> {
    if pos < 0 || pos >= b.len() {
        Err(ParseError::Incomplete)
    } else if pos + 1 + b[pos] > b.len() {
        Err(ParseError::Incomplete)
    } else if !valid_utf8(b.subrange(pos + 1, pos + 1 + b[pos])) {
        Err(ParseError::InvalidUtf8)
    } else {
        Ok((decode_utf8(b.subrange(pos + 1, pos + 1 + b[pos])), pos + 1 + b[pos]))
    }
}

/// String fields from `pos` on, for as long as fewer than `limit` bytes
/// have been read since `start`.
pub open spec fn parse_strings(b: Seq<u8>, start: int, pos: int, limit: int) -> Result<
    (Seq<Seq<char>>, int),
    ParseError,
>
    decreases b.len() - pos,
{
    if pos - start >= limit {
        Ok((seq![], pos))
    } else {
        match parse_string(b, pos) {
            Err(e) => Err(e),
            Ok((s, p)) => match parse_strings(b, start, p, limit) {
                Err(e) => Err(e),
                Ok((rest, q)) => Ok((seq![s] + rest, q)),
            },
        }
    }
}

pub open spec fn parse_current_state(b: Seq<u8>, pos: int) -> Result<(CurrentStateOption, int), ParseError> {
    if pos < 0 || pos >= b.len() {
        Err(ParseError::Incomplete)
    } else if b[pos] == 0x02 {
        Ok((CurrentStateOption::Ready, pos + 1))
    } else if b[pos] == 0x03 {
        Ok((CurrentStateOption::Provisioning, pos + 1))
    } else if b[pos] == 0x04 {
        Ok((CurrentStateOption::Provisioned, pos + 1))
    } else {
        Err(ParseError::InvalidState(b[pos]))
    }
}

pub open spec fn parse_error_state(b: Seq<u8>, pos: int) -> Result<(ErrorStateOption, int), ParseError> {
    if pos < 0 || pos >= b.len() {
        Err(ParseError::Incomplete)
    } else if b[pos] == 0x00 {
        Ok((ErrorStateOption::NoError, pos + 1))
    } else if b[pos] == 0x01 {
        Ok((ErrorStateOption::InvalidRPCPacket, pos + 1))
    } else if b[pos] == 0x02 {
        Ok((ErrorStateOption::UnknownRPCCommand, pos + 1))
    } else if b[pos] == 0x03 {
        Ok((ErrorStateOption::UnableToConnect, pos + 1))
    } else if b[pos] == 0xFF {
        Ok((ErrorStateOption::UnknownError, pos + 1))
    } else {
        Err(ParseError::InvalidError(b[pos]))
    }
}

/// SSID then password.
pub open spec fn parse_wifi_settings(b: Seq<u8>, pos: int) -> Result<(CommandModel, int), ParseError> {
    match parse_string(b, pos) {
        Err(e) => Err(e),
        Ok((ssid, p)) => match parse_string(b, p) {
            Err(e) => Err(e),
            Ok((password, q)) => Ok((CommandModel::SendWifiSettings(ssid, password), q)),
        },
    }
}

/// Command id, a length byte that is not relied on, then the command data.
pub open spec fn parse_command(b: Seq<u8>, pos: int) -> Result<(CommandModel, int), ParseError> {
    if pos < 0 || pos + 2 > b.len() {
        Err(ParseError::Incomplete)
    } else if b[pos] == 0x01 {
        parse_wifi_settings(b, pos + 2)
    } else if b[pos] == 0x02 {
        Ok((CommandModel::RequestCurrentState, pos + 2))
    } else if b[pos] == 0x03 {
        Ok((CommandModel::RequestDeviceInformation, pos + 2))
    } else if b[pos] == 0x04 {
        Ok((CommandModel::RequestScannedWifiNetworks, pos + 2))
    } else {
        Err(ParseError::InvalidCommand(b[pos]))
    }
}

/// Command responded to, the strings' length, then strings until that
/// length is used up.
pub open spec fn parse_result(b: Seq<u8>, pos: int) -> Result<(FramePayload, int), ParseError> {
    if pos < 0 || pos + 2 > b.len() {
        Err(ParseError::Incomplete)
    } else {
        match parse_strings(b, pos + 2, pos + 2, b[pos + 1] as int) {
            Err(e) => Err(e),
            Ok((strings, q)) => Ok((FramePayload::Result(b[pos], strings), q)),
        }
    }
}

/// The payload of a frame of type `t`.
pub open spec fn parse_payload(b: Seq<u8>, pos: int, t: u8) -> Result<(FramePayload, int), ParseError> {
    if t == 0x01 {
        match parse_current_state(b, pos) {
            Err(e) => Err(e),
            Ok((s, p)) => Ok((FramePayload::CurrentState(s), p)),
        }
    } else if t == 0x02 {
        match parse_error_state(b, pos) {
            Err(e) => Err(e),
            Ok((s, p)) => Ok((FramePayload::ErrorState(s), p)),
        }
    } else if t == 0x03 {
        match parse_command(b, pos) {
            Err(e) => Err(e),
            Ok((c, p)) => Ok((FramePayload::Command(c), p)),
        }
    } else if t == 0x04 {
        parse_result(b, pos)
    } else {
        Err(ParseError::InvalidDataType(t))
    }
}

/// The shape of the frame at the start of `b`: its payload, and the number
/// of bytes up to and including the terminator. Magic and version come
/// first; then type and length; then the payload; then checksum and
/// terminator. The checksum is not compared here.
pub open spec fn frame_layout(b: Seq<u8>) -> Result<(FramePayload, int), ParseError> {
    if b.len() < 7 {
        Err(ParseError::Incomplete)
    } else if b.take(7) != frame_magic() {
        Err(ParseError::InvalidMagic)
    } else if b.len() < 9 {
        Err(ParseError::Incomplete)
    } else {
        match parse_payload(b, 9, b[7]) {
            Err(e) => Err(e),
            Ok((p, q)) => if q + 2 > b.len() {
                Err(ParseError::Incomplete)
            } else if b[q + 1] != TERMINATOR {
                Err(ParseError::InvalidMagic)
            } else {
                Ok((p, q + 2))
            },
        }
    }
}

/// Decodes the frame at the start of `b`: the payload and the number of
/// bytes that the frame takes. The checksum is compared last, once the
/// whole frame is there.
pub open spec fn decode_frame(b: Seq<u8>) -> Result<(FramePayload, int), ParseError> {
    match frame_layout(b) {
        Err(e) => Err(e),
        Ok((p, n)) => if b[n - 2] != checksum_of(b.take(n - 2)) {
            Err(ParseError::InvalidChecksum)
        } else {
            Ok((p, n))
        },
    }
}

// Lemmas on the encoding =========================================

pub proof fn lemma_byte_sum_append(a: Seq<u8>, b: Seq<u8>)
    ensures
        byte_sum(a + b) == byte_sum(a) + byte_sum(b),
    decreases b.len(),
{
    if b.len() == 0 {
        assert(a + b =~= a);
    } else {
        assert((a + b).drop_last() =~= a + b.drop_last());
        lemma_byte_sum_append(a, b.drop_last());
    }
}

pub proof fn lemma_strings_field_push(ss: Seq<Seq<char>>, s: Seq<char>)
    ensures
        strings_field(ss.push(s)) == strings_field(ss) + string_field(s),
    decreases ss.len(),
{
    if ss.len() == 0 {
        assert(ss.push(s).drop_first() =~= Seq::<Seq<char>>::empty());
        assert(ss.push(s)[0] == s);
        assert(strings_field(Seq::<Seq<char>>::empty()) =~= Seq::<u8>::empty());
        assert(strings_field(ss.push(s)) =~= strings_field(ss) + string_field(s));
    } else {
        assert(ss.push(s).drop_first() =~= ss.drop_first().push(s));
        assert(ss.push(s)[0] == ss[0]);
        lemma_strings_field_push(ss.drop_first(), s);
        assert(strings_field(ss.push(s)) =~= string_field(ss[0]) + (strings_field(ss.drop_first())
            + string_field(s)));
        assert(strings_field(ss.push(s)) =~= strings_field(ss) + string_field(s));
    }
}

// Parser helper =============================================

/// Reads a byte buffer from the front.
struct Parser<'a> {
    data: &'a [u8],
    pos: usize,
}

impl<'a> Parser<'a> {
    spec fn wf(&self) -> bool {
        self.pos <= self.data@.len()
    }

    fn new(data: &'a [u8]) -> (p: Self)
        ensures
            p.wf(),
            p.data == data,
            p.pos == 0,
    {
        Self { data, pos: 0 }
    }

    fn read_u8(&mut self) -> (r: Result<u8, ParseError>)
        requires
            old(self).wf(),
        ensures
            final(self).wf(),
            final(self).data == old(self).data,
            old(self).pos < old(self).data@.len() ==> r == Ok::<u8, ParseError>(
                old(self).data@[old(self).pos as int],
            ) && final(self).pos == old(self).pos + 1,
            old(self).pos >= old(self).data@.len() ==> r == Err::<u8, ParseError>(
                ParseError::Incomplete,
            ),
    {
        if self.pos >= self.data.len() {
            return Err(ParseError::Incomplete);
        }
        let val = self.data[self.pos];
        self.pos += 1;
        Ok(val)
    }

    fn read_magic(&mut self, magic: &[u8]) -> (r: Result<(), ParseError>)
        requires
            old(self).wf(),
        ensures
            final(self).wf(),
            final(self).data == old(self).data,
            ({
                let b = old(self).data@;
                let pos = old(self).pos as int;
                if pos + magic@.len() > b.len() {
                    r == Err::<(), ParseError>(ParseError::Incomplete)
                } else if b.subrange(pos, pos + magic@.len()) != magic@ {
                    r == Err::<(), ParseError>(ParseError::InvalidMagic)
                } else {
                    r == Ok::<(), ParseError>(()) && final(self).pos == pos + magic@.len()
                }
            }),
    {
        if magic.len() > self.data.len() - self.pos {
            return Err(ParseError::Incomplete);
        }
        assert(self.data@.len() <= usize::MAX);
        let mut i: usize = 0;
        while i < magic.len()
            invariant
                self.wf(),
                i <= magic@.len(),
                self.pos + magic@.len() <= self.data@.len(),
                self.data@.len() <= usize::MAX,
                self.data@.subrange(self.pos as int, self.pos + i) =~= magic@.take(i as int),
            decreases magic@.len() - i,
        {
            if self.data[self.pos + i] != magic[i] {
                assert(self.data@.subrange(self.pos as int, self.pos + magic@.len())[i as int]
                    != magic@[i as int]);
                return Err(ParseError::InvalidMagic);
            }
            i = i + 1;
        }
        assert(magic@.take(i as int) =~= magic@);
        self.pos += magic.len();
        Ok(())
    }

    fn read_vec(&mut self, count: usize) -> (r: Result<Vec<u8>, ParseError>)
        requires
            old(self).wf(),
        ensures
            final(self).wf(),
            final(self).data == old(self).data,
            old(self).pos + count > old(self).data@.len() ==> r == Err::<Vec<u8>, ParseError>(
                ParseError::Incomplete,
            ),
            old(self).pos + count <= old(self).data@.len() ==> (r matches Ok(v) && v@
                == old(self).data@.subrange(old(self).pos as int, old(self).pos + count)
                && final(self).pos == old(self).pos + count),
    {
        if count > self.data.len() - self.pos {
            return Err(ParseError::Incomplete);
        }
        let vec = slice_to_vec(slice_subrange(self.data, self.pos, self.pos + count));
        self.pos += count;
        Ok(vec)
    }

    fn read_string(&mut self) -> (r: Result<String, ParseError>)
        requires
            old(self).wf(),
        ensures
            final(self).wf(),
            final(self).data == old(self).data,
            match parse_string(old(self).data@, old(self).pos as int) {
                Ok((s, p)) => r matches Ok(v) && v@ == s && final(self).pos == p,
                Err(e) => r == Err::<String, ParseError>(e),
            },
    {
        let len = self.read_u8()?;
        let bytes = self.read_vec(len as usize)?;
        match utf8_to_string(bytes) {
            Some(s) => Ok(s),
            None => Err(ParseError::InvalidUtf8),
        }
    }

    #[allow(dead_code)]
    fn peek_u8(&self) -> (r: Result<u8, ParseError>)
        requires
            self.wf(),
        ensures
            self.pos < self.data@.len() ==> r == Ok::<u8, ParseError>(self.data@[self.pos as int]),
            self.pos >= self.data@.len() ==> r == Err::<u8, ParseError>(ParseError::Incomplete),
    {
        if self.pos >= self.data.len() {
            return Err(ParseError::Incomplete);
        }
        Ok(self.data[self.pos])
    }

    #[allow(dead_code)]
    fn remaining(&self) -> (r: usize)
        ensures
            r == if self.pos <= self.data@.len() {
                self.data@.len() - self.pos
            } else {
                0
            },
    {
        self.data.len().saturating_sub(self.pos)
    }
}

// Packet format ################################################

/// The terminator that closes a frame.
struct AlwaysTen {}

impl AlwaysTen {
    fn parse(parser: &mut Parser) -> (r: Result<Self, ParseError>)
        requires
            old(parser).wf(),
        ensures
            final(parser).wf(),
            final(parser).data == old(parser).data,
            ({
                let b = old(parser).data@;
                let pos = old(parser).pos as int;
                if pos + 1 > b.len() {
                    r is Err && r->Err_0 == ParseError::Incomplete
                } else if b[pos] != TERMINATOR {
                    r is Err && r->Err_0 == ParseError::InvalidMagic
                } else {
                    r is Ok && final(parser).pos == pos + 1
                }
            }),
    {
        let ghost b = parser.data@;
        let ghost pos = parser.pos as int;
        let magic = [TERMINATOR];
        assert(magic@ =~= seq![TERMINATOR]);
        let r = parser.read_magic(&magic);
        proof {
            if pos + 1 <= b.len() {
                assert(b.subrange(pos, pos + 1)[0] == b[pos]);
                if b[pos] == TERMINATOR {
                    assert(b.subrange(pos, pos + 1) =~= seq![TERMINATOR]);
                }
            }
        }
        match r {
            Ok(()) => Ok(AlwaysTen {}),
            Err(e) => Err(e),
        }
    }

    fn write(&self, writer: &mut Writer)
        ensures
            final(writer).data@ == old(writer).data@.push(TERMINATOR),
    {
        let ghost start = writer.data@;
        writer.write_magic(&[TERMINATOR]);
        assert(writer.data@ =~= start.push(TERMINATOR));
    }
}

// Writer helper =============================================

/// Accumulates the bytes of a frame.
struct Writer {
    data: Vec<u8>,
}

impl Writer {
    fn new() -> (w: Self)
        ensures
            w.data@ == Seq::<u8>::empty(),
    {
        Self { data: Vec::new() }
    }

    fn write_u8(&mut self, val: u8)
        ensures
            final(self).data@ == old(self).data@.push(val),
    {
        self.data.push(val);
    }

    fn write_magic(&mut self, magic: &[u8])
        ensures
            final(self).data@ == old(self).data@ + magic@,
    {
        self.write_slice(magic);
    }

    fn write_slice(&mut self, slice: &[u8])
        ensures
            final(self).data@ == old(self).data@ + slice@,
    {
        let ghost start = self.data@;
        let mut i: usize = 0;
        while i < slice.len()
            invariant
                i <= slice@.len(),
                self.data@ == start + slice@.take(i as int),
            decreases slice@.len() - i,
        {
            self.data.push(slice[i]);
            i = i + 1;
            assert(slice@.take(i as int) =~= slice@.take(i - 1).push(slice@[i - 1]));
        }
        assert(slice@.take(i as int) =~= slice@);
    }

    fn write_string(&mut self, s: &str)
        ensures
            final(self).data@ == old(self).data@ + string_field(s@),
    {
        let ghost start = self.data@;
        let b = s.as_bytes();
        self.write_u8((b.len() % 256) as u8);
        self.write_slice(b);
        assert(self.data@ =~= start + string_field(s@));
    }

    fn into_vec(self) -> (v: Vec<u8>)
        ensures
            v@ == self.data@,
    {
        self.data
    }

    fn as_slice(&self) -> (s: &[u8])
        ensures
            s@ == self.data@,
    {
        self.data.as_slice()
    }
}

/// The additive checksum of `bytes`: their wrapping sum.
fn wrapping_sum(bytes: &[u8]) -> (r: u8)
    ensures
        r == checksum_of(bytes@),
{
    let mut acc: u8 = 0;
    let mut i: usize = 0;
    while i < bytes.len()
        invariant
            i <= bytes@.len(),
            acc == checksum_of(bytes@.take(i as int)),
        decreases bytes@.len() - i,
    {
        let ghost prev = bytes@.take(i as int);
        assert(bytes@.take(i + 1).drop_last() =~= prev);
        proof {
            vstd::arithmetic::div_mod::lemma_add_mod_noop(byte_sum(prev) as int, bytes@[i as int] as int, 256);
            vstd::arithmetic::div_mod::lemma_small_mod(bytes@[i as int] as nat, 256);
        }
        acc = acc.wrapping_add(bytes[i]);
        i = i + 1;
    }
    assert(bytes@.take(i as int) =~= bytes@);
    acc
}

/// Lengths modulo 256 add up modulo 256.
proof fn lemma_len_byte_add(a: int, b: int)
    ensures
        len_byte(a + b) == ((len_byte(a) as int + len_byte(b) as int) % 256) as u8,
{
    vstd::arithmetic::div_mod::lemma_add_mod_noop(a, b, 256);
}

// Current State =================================

impl CurrentStateOption {
    fn parse(parser: &mut Parser) -> (r: Result<Self, ParseError>)
        requires
            old(parser).wf(),
        ensures
            final(parser).wf(),
            final(parser).data == old(parser).data,
            match parse_current_state(old(parser).data@, old(parser).pos as int) {
                Ok((v, p)) => r == Ok::<Self, ParseError>(v) && final(parser).pos == p,
                Err(e) => r == Err::<Self, ParseError>(e),
            },
    {
        let val = parser.read_u8()?;
        match val {
            0x02 => Ok(CurrentStateOption::Ready),
            0x03 => Ok(CurrentStateOption::Provisioning),
            0x04 => Ok(CurrentStateOption::Provisioned),
            _ => Err(ParseError::InvalidState(val)),
        }
    }

    fn write(&self, writer: &mut Writer)
        ensures
            final(writer).data@ == old(writer).data@.push(state_byte(*self)),
    {
        let val: u8 = match self {
            CurrentStateOption::Ready => 0x02,
            CurrentStateOption::Provisioning => 0x03,
            CurrentStateOption::Provisioned => 0x04,
        };
        writer.write_u8(val);
    }

    /// Length of the payload of a frame that reports this state.
    pub fn get_data_length(&self) -> (r: u8)
        ensures
            r == len_byte(payload_bytes(FramePayload::CurrentState(*self)).len() as int),
    {
        0x01
    }
}

// Error State =================================

impl ErrorStateOption {
    fn parse(parser: &mut Parser) -> (r: Result<Self, ParseError>)
        requires
            old(parser).wf(),
        ensures
            final(parser).wf(),
            final(parser).data == old(parser).data,
            match parse_error_state(old(parser).data@, old(parser).pos as int) {
                Ok((v, p)) => r == Ok::<Self, ParseError>(v) && final(parser).pos == p,
                Err(e) => r == Err::<Self, ParseError>(e),
            },
    {
        let val = parser.read_u8()?;
        match val {
            0x00 => Ok(ErrorStateOption::NoError),
            0x01 => Ok(ErrorStateOption::InvalidRPCPacket),
            0x02 => Ok(ErrorStateOption::UnknownRPCCommand),
            0x03 => Ok(ErrorStateOption::UnableToConnect),
            0xFF => Ok(ErrorStateOption::UnknownError),
            _ => Err(ParseError::InvalidError(val)),
        }
    }

    fn write(&self, writer: &mut Writer)
        ensures
            final(writer).data@ == old(writer).data@.push(error_byte(*self)),
    {
        let val: u8 = match self {
            ErrorStateOption::NoError => 0x00,
            ErrorStateOption::InvalidRPCPacket => 0x01,
            ErrorStateOption::UnknownRPCCommand => 0x02,
            ErrorStateOption::UnableToConnect => 0x03,
            ErrorStateOption::UnknownError => 0xFF,
        };
        writer.write_u8(val);
    }

    /// Length of the payload of a frame that reports this error.
    pub fn get_data_length(&self) -> (r: u8)
        ensures
            r == len_byte(payload_bytes(FramePayload::ErrorState(*self)).len() as int),
    {
        0x01
    }
}

// RPC Command ==============================

impl RPCCommandStruct {
    fn parse(parser: &mut Parser) -> (r: Result<Self, ParseError>)
        requires
            old(parser).wf(),
        ensures
            final(parser).wf(),
            final(parser).data == old(parser).data,
            match parse_command(old(parser).data@, old(parser).pos as int) {
                Ok((c, p)) => r matches Ok(v) && v@ == c && final(parser).pos == p,
                Err(e) => r matches Err(e2) && e2 == e,
            },
    {
        let command = parser.read_u8()?;
        let _data_length = parser.read_u8()?;
        let data = RPCCommand::parse(parser, command)?;
        Ok(RPCCommandStruct { data })
    }

    fn write(&self, writer: &mut Writer)
        ensures
            final(writer).data@ == old(writer).data@ + command_bytes(self@),
    {
        let ghost start = writer.data@;
        let command = self.data.get_command_id();
        writer.write_u8(command);
        let data_length = self.data.get_data_length();
        writer.write_u8(data_length);
        self.data.write(writer);
        assert(writer.data@ =~= start + command_bytes(self@));
    }

    /// Length of the RPC payload: id, length byte and command data,
    /// modulo 256.
    pub fn get_data_length(&self) -> (r: u8)
        ensures
            r == len_byte(command_bytes(self@).len() as int),
    {
        let inner = self.data.get_data_length();
        proof {
            lemma_len_byte_add(2, command_data(self@).len() as int);
        }
        ((2 + inner as u16) % 256) as u8
    }
}

impl RPCCommand {
    fn parse(parser: &mut Parser, command: u8) -> (r: Result<Self, ParseError>)
        requires
            old(parser).wf(),
        ensures
            final(parser).wf(),
            final(parser).data == old(parser).data,
            command == 0x01 ==> match parse_wifi_settings(old(parser).data@, old(parser).pos as int) {
                Ok((c, p)) => r matches Ok(v) && v@ == c && final(parser).pos == p,
                Err(e) => r matches Err(e2) && e2 == e,
            },
            command == 0x02 ==> (r matches Ok(v) && v@ == CommandModel::RequestCurrentState
                && final(parser).pos == old(parser).pos),
            command == 0x03 ==> (r matches Ok(v) && v@ == CommandModel::RequestDeviceInformation
                && final(parser).pos == old(parser).pos),
            command == 0x04 ==> (r matches Ok(v) && v@ == CommandModel::RequestScannedWifiNetworks
                && final(parser).pos == old(parser).pos),
            (command == 0 || command > 0x04) ==> (r matches Err(e) && e == ParseError::InvalidCommand(command)),
    {
        match command {
            0x01 => Ok(RPCCommand::SendWifiSettings(SendWifiSettingsStruct::parse(parser)?)),
            0x02 => Ok(RPCCommand::RequestCurrentState),
            0x03 => Ok(RPCCommand::RequestDeviceInformation),
            0x04 => Ok(RPCCommand::RequestScannedWifiNetworks),
            _ => Err(ParseError::InvalidCommand(command)),
        }
    }

    fn write(&self, writer: &mut Writer)
        ensures
            final(writer).data@ == old(writer).data@ + command_data(self@),
    {
        match self {
            RPCCommand::SendWifiSettings(s) => s.write(writer),
            RPCCommand::RequestCurrentState => {
                assert(writer.data@ =~= writer.data@ + command_data(self@));
            },
            RPCCommand::RequestDeviceInformation => {
                assert(writer.data@ =~= writer.data@ + command_data(self@));
            },
            RPCCommand::RequestScannedWifiNetworks => {
                assert(writer.data@ =~= writer.data@ + command_data(self@));
            },
        }
    }

    /// Length of the command data, modulo 256.
    pub fn get_data_length(&self) -> (r: u8)
        ensures
            r == len_byte(command_data(self@).len() as int),
    {
        match self {
            RPCCommand::SendWifiSettings(send_wifi_settings) => {
                send_wifi_settings.get_data_length()
            },
            RPCCommand::RequestCurrentState => 0x00,
            RPCCommand::RequestDeviceInformation => 0x00,
            RPCCommand::RequestScannedWifiNetworks => 0x00,
        }
    }

    fn get_command_id(&self) -> (r: u8)
        ensures
            r == command_id(self@),
    {
        match self {
            RPCCommand::SendWifiSettings(_) => 0x01,
            RPCCommand::RequestCurrentState => 0x02,
            RPCCommand::RequestDeviceInformation => 0x03,
            RPCCommand::RequestScannedWifiNetworks => 0x04,
        }
    }
}

// Send Wi-Fi settings -------------------------------------------------

impl SendWifiSettingsStruct {
    fn parse(parser: &mut Parser) -> (r: Result<Self, ParseError>)
        requires
            old(parser).wf(),
        ensures
            final(parser).wf(),
            final(parser).data == old(parser).data,
            match parse_wifi_settings(old(parser).data@, old(parser).pos as int) {
                Ok((c, p)) => r matches Ok(v) && v@ == c && final(parser).pos == p,
                Err(e) => r matches Err(e2) && e2 == e,
            },
    {
        let ssid = parser.read_string()?;
        let password = parser.read_string()?;
        Ok(SendWifiSettingsStruct { ssid, password })
    }

    fn write(&self, writer: &mut Writer)
        ensures
            final(writer).data@ == old(writer).data@ + command_data(self@),
    {
        let ghost start = writer.data@;
        writer.write_string(self.ssid.as_str());
        writer.write_string(self.password.as_str());
        assert(writer.data@ =~= start + command_data(self@));
    }

    fn get_data_length(&self) -> (r: u8)
        ensures
            r == len_byte(command_data(self@).len() as int),
    {
        let ssid_len = self.ssid.as_str().as_bytes().len();
        let password_len = self.password.as_str().as_bytes().len();
        let ghost a = encode_utf8(self.ssid@).len() as int;
        let ghost b = encode_utf8(self.password@).len() as int;
        proof {
            lemma_len_byte_add(1 + a, 1 + b);
            lemma_len_byte_add(1, a);
            lemma_len_byte_add(1, b);
        }
        ((2 + (ssid_len % 256) + (password_len % 256)) % 256) as u8
    }
}

// RPC Result ==============================================

impl RPCResultStruct {
    /// Reply to `RequestDeviceInformation`: firmware name, firmware
    /// version, chip, device name.
    pub fn new_response_to_request_device_information(
        firmware_name: &str,
        firmware_version: &str,
        chip: &str,
        device_name: &str,
    ) -> (r: Self)
        ensures
            r@ == (0x03u8, seq![firmware_name@, firmware_version@, chip@, device_name@]),
    {
        let strings = vec![
            firmware_name.to_owned(),
            firmware_version.to_owned(),
            chip.to_owned(),
            device_name.to_owned(),
        ];
        let r = Self { command_responded: 0x03, strings };
        assert(r@.1 =~= seq![firmware_name@, firmware_version@, chip@, device_name@]);
        r
    }

    /// One scanned network: SSID, signal strength, and `"YES"` or `"NO"`
    /// for whether it asks for authentication.
    pub fn new_response_to_request_scanned_wifi_networks(
        ssid: &str,
        rssi: &str,
        auth_required: bool,
    ) -> (r: Self)
        ensures
            r@ == (0x04u8, seq![ssid@, rssi@, if auth_required { "YES"@ } else { "NO"@ }]),
    {
        let auth = if auth_required {
            "YES".to_owned()
        } else {
            "NO".to_owned()
        };
        let strings = vec![ssid.to_owned(), rssi.to_owned(), auth];
        let r = Self { command_responded: 0x04, strings };
        assert(r@.1 =~= seq![ssid@, rssi@, if auth_required { "YES"@ } else { "NO"@ }]);
        r
    }

    /// The empty result that closes a list of scanned networks.
    pub fn new_response_to_request_scanned_wifi_networks_end() -> (r: Self)
        ensures
            r@ == (0x04u8, Seq::<Seq<char>>::empty()),
    {
        let r = Self { command_responded: 0x04, strings: Vec::new() };
        assert(r@.1 =~= Seq::<Seq<char>>::empty());
        r
    }

    /// Reply to a successful `SendWifiSettings`: the URL to go on with.
    pub fn new_response_to_send_wifi_settings(redirect_url: &str) -> (r: Self)
        ensures
            r@ == (0x01u8, seq![redirect_url@]),
    {
        let strings = vec![redirect_url.to_owned()];
        let r = Self { command_responded: 0x01, strings };
        assert(r@.1 =~= seq![redirect_url@]);
        r
    }

    fn parse(parser: &mut Parser) -> (r: Result<Self, ParseError>)
        requires
            old(parser).wf(),
        ensures
            final(parser).wf(),
            final(parser).data == old(parser).data,
            match parse_result(old(parser).data@, old(parser).pos as int) {
                Ok((m, p)) => r matches Ok(v) && FramePayload::Result(v@.0, v@.1) == m
                    && final(parser).pos == p,
                Err(e) => r matches Err(e2) && e2 == e,
            },
    {
        let ghost b = parser.data@;
        let ghost d = parser.data;
        let command_responded = parser.read_u8()?;
        let strings_data_length = parser.read_u8()?;
        let mut strings: Vec<String> = Vec::new();
        let start_pos = parser.pos;
        let ghost limit = strings_data_length as int;
        let ghost whole = parse_strings(b, start_pos as int, start_pos as int, limit);
        while parser.pos - start_pos < strings_data_length as usize
            invariant
                parser.wf(),
                parser.data == d,
                d == old(parser).data,
                d@ == b,
                start_pos == old(parser).pos + 2,
                strings_data_length == b[old(parser).pos + 1],
                limit == strings_data_length as int,
                command_responded == b[old(parser).pos as int],
                start_pos <= parser.pos,
                whole == parse_strings(b, start_pos as int, start_pos as int, limit),
                match parse_strings(b, start_pos as int, parser.pos as int, limit) {
                    Ok((rest, q)) => whole == Ok::<(Seq<Seq<char>>, int), ParseError>(
                        (strings_view(strings@) + rest, q),
                    ),
                    Err(e) => whole == Err::<(Seq<Seq<char>>, int), ParseError>(e),
                },
            decreases b.len() - parser.pos,
        {
            let ghost pos = parser.pos as int;
            let ghost before = strings_view(strings@);
            assert(parse_strings(b, start_pos as int, pos, limit) == match parse_string(b, pos) {
                Err(e) => Err(e),
                Ok((s, p)) => match parse_strings(b, start_pos as int, p, limit) {
                    Err(e) => Err(e),
                    Ok((rest, q)) => Ok((seq![s] + rest, q)),
                },
            });
            let s = parser.read_string()?;
            let ghost sv = s@;
            strings.push(s);
            proof {
                assert(strings_view(strings@) =~= before.push(sv));
                match parse_strings(b, start_pos as int, parser.pos as int, limit) {
                    Ok((rest, q)) => {
                        assert(before + (seq![sv] + rest) =~= before.push(sv) + rest);
                    },
                    Err(e) => {},
                }
            }
        }
        proof {
            assert(strings_view(strings@) + Seq::<Seq<char>>::empty() =~= strings_view(strings@));
        }
        Ok(RPCResultStruct { command_responded, strings })
    }

    fn write(&self, writer: &mut Writer)
        ensures
            final(writer).data@ == old(writer).data@ + result_bytes(self@.0, self@.1),
    {
        let ghost start = writer.data@;
        writer.write_u8(self.command_responded);
        let strings_data_length = Self::get_strings_data_length(self.strings.as_slice());
        writer.write_u8(strings_data_length);
        let ghost head = writer.data@;
        let mut i: usize = 0;
        while i < self.strings.len()
            invariant
                i <= self.strings@.len(),
                writer.data@ == head + strings_field(strings_view(self.strings@.take(i as int))),
            decreases self.strings@.len() - i,
        {
            let ghost before = strings_view(self.strings@.take(i as int));
            writer.write_string(self.strings[i].as_str());
            proof {
                lemma_strings_field_push(before, self.strings@[i as int]@);
                assert(strings_view(self.strings@.take(i + 1)) =~= before.push(
                    self.strings@[i as int]@,
                ));
            }
            i = i + 1;
        }
        assert(self.strings@.take(i as int) =~= self.strings@);
        assert(writer.data@ =~= start + result_bytes(self@.0, self@.1));
    }

    /// Length of the RPC result payload: command byte, length byte and
    /// strings, modulo 256.
    pub fn get_data_length(&self) -> (r: u8)
        ensures
            r == len_byte(result_bytes(self@.0, self@.1).len() as int),
    {
        let strings_len = Self::get_strings_data_length(self.strings.as_slice());
        proof {
            lemma_len_byte_add(2, strings_field(self@.1).len() as int);
        }
        ((2 + strings_len as u16) % 256) as u8
    }

    /// Length of the string fields, modulo 256.
    fn get_strings_data_length(data: &[String]) -> (r: u8)
        ensures
            r == len_byte(strings_field(strings_view(data@)).len() as int),
    {
        let mut acc: u8 = 0;
        let mut i: usize = 0;
        assert(strings_field(strings_view(data@.take(0))) =~= Seq::<u8>::empty());
        while i < data.len()
            invariant
                i <= data@.len(),
                acc == len_byte(strings_field(strings_view(data@.take(i as int))).len() as int),
            decreases data@.len() - i,
        {
            let ghost before = strings_view(data@.take(i as int));
            let n = data[i].as_str().as_bytes().len();
            proof {
                lemma_strings_field_push(before, data@[i as int]@);
                assert(strings_view(data@.take(i + 1)) =~= before.push(data@[i as int]@));
                lemma_len_byte_add(strings_field(before).len() as int, 1 + n);
                lemma_len_byte_add(1, n as int);
            }
            acc = ((acc as usize + 1 + (n % 256)) % 256) as u8;
            i = i + 1;
        }
        assert(data@.take(i as int) =~= data@);
        acc
    }
}

// Frame ==============================================

impl ImprovWifiPacketData {
    fn parse(parser: &mut Parser, data_type: u8) -> (r: Result<Self, ParseError>)
        requires
            old(parser).wf(),
        ensures
            final(parser).wf(),
            final(parser).data == old(parser).data,
            match parse_payload(old(parser).data@, old(parser).pos as int, data_type) {
                Ok((m, p)) => r matches Ok(v) && v@ == m && final(parser).pos == p,
                Err(e) => r matches Err(e2) && e2 == e,
            },
    {
        match data_type {
            0x01 => Ok(ImprovWifiPacketData::CurrentState(CurrentStateOption::parse(parser)?)),
            0x02 => Ok(ImprovWifiPacketData::ErrorState(ErrorStateOption::parse(parser)?)),
            0x03 => Ok(ImprovWifiPacketData::RPC(RPCCommandStruct::parse(parser)?)),
            0x04 => Ok(ImprovWifiPacketData::RPCResult(RPCResultStruct::parse(parser)?)),
            _ => Err(ParseError::InvalidDataType(data_type)),
        }
    }

    fn write(&self, writer: &mut Writer)
        ensures
            final(writer).data@ == old(writer).data@ + payload_bytes(self@),
    {
        let ghost start = writer.data@;
        match self {
            ImprovWifiPacketData::CurrentState(s) => s.write(writer),
            ImprovWifiPacketData::ErrorState(s) => s.write(writer),
            ImprovWifiPacketData::RPC(s) => s.write(writer),
            ImprovWifiPacketData::RPCResult(s) => s.write(writer),
        }
        assert(writer.data@ =~= start + payload_bytes(self@));
    }

    /// Length of the payload, modulo 256.
    pub fn get_data_length(&self) -> (r: u8)
        ensures
            r == len_byte(payload_bytes(self@).len() as int),
    {
        match self {
            ImprovWifiPacketData::CurrentState(current_state) => current_state.get_data_length(),
            ImprovWifiPacketData::ErrorState(error_state) => error_state.get_data_length(),
            ImprovWifiPacketData::RPC(rpc_command) => rpc_command.get_data_length(),
            ImprovWifiPacketData::RPCResult(rpc_result) => rpc_result.get_data_length(),
        }
    }

    fn get_type_id(&self) -> (r: u8)
        ensures
            r == type_id(self@),
    {
        match self {
            ImprovWifiPacketData::CurrentState(_) => 0x01,
            ImprovWifiPacketData::ErrorState(_) => 0x02,
            ImprovWifiPacketData::RPC(_) => 0x03,
            ImprovWifiPacketData::RPCResult(_) => 0x04,
        }
    }
}

impl ImprovWifiPacket {
    /// Decodes the frame at the start of `input.0`, and gives the bytes
    /// after it. On `Incomplete` nothing is consumed: the caller keeps the
    /// buffer and waits for more. Only byte-aligned input (`input.1 == 0`)
    /// is read.
    pub fn from_bytes(input: (&[u8], usize)) -> (r: Result<((&[u8], usize), Self), ParseError>)
        ensures
            input.1 != 0 ==> (r matches Err(e) && e == ParseError::Incomplete),
            input.1 == 0 ==> match decode_frame(input.0@) {
                Ok((m, n)) => r matches Ok((rest, packet)) && packet@ == m && rest.1 == 0
                    && rest.0@ == input.0@.subrange(n, input.0@.len() as int),
                Err(e) => r matches Err(e2) && e2 == e,
            },
    {
        let (input_data, bit_offset) = input;
        if bit_offset != 0 {
            return Err(ParseError::Incomplete);
        }
        let ghost b = input_data@;
        let mut parser = Parser::new(input_data);
        let magic = [0x49u8, 0x4Du8, 0x50u8, 0x52u8, 0x4Fu8, 0x56u8, 0x01u8];
        assert(magic@ =~= frame_magic());
        proof {
            if b.len() >= 7 {
                assert(b.subrange(0, 7) =~= b.take(7));
            }
        }
        parser.read_magic(&magic)?;
        let data_type = parser.read_u8()?;
        let _data_length = parser.read_u8()?;
        let data = ImprovWifiPacketData::parse(&mut parser, data_type)?;
        let ghost q = parser.pos as int;
        let checksum = parser.read_u8()?;
        AlwaysTen::parse(&mut parser)?;
        let checksum_end = parser.pos - 2;
        let calculated_checksum = wrapping_sum(slice_subrange(input_data, 0, checksum_end));
        assert(b.subrange(0, q) =~= b.take(q));
        if checksum != calculated_checksum {
            return Err(ParseError::InvalidChecksum);
        }
        let packet = ImprovWifiPacket { data };
        Ok(((slice_subrange(input_data, parser.pos, input_data.len()), 0), packet))
    }

    // builders

    pub fn new_current_state(current_state_option: CurrentStateOption) -> (r: Self)
        ensures
            r@ == FramePayload::CurrentState(current_state_option),
    {
        ImprovWifiPacket { data: ImprovWifiPacketData::CurrentState(current_state_option) }
    }

    pub fn new_error_state(error_state_option: ErrorStateOption) -> (r: Self)
        ensures
            r@ == FramePayload::ErrorState(error_state_option),
    {
        ImprovWifiPacket { data: ImprovWifiPacketData::ErrorState(error_state_option) }
    }

    pub fn new_rpc_result(rpc_result: RPCResultStruct) -> (r: Self)
        ensures
            r@ == FramePayload::Result(rpc_result@.0, rpc_result@.1),
    {
        ImprovWifiPacket { data: ImprovWifiPacketData::RPCResult(rpc_result) }
    }

    /// A `RequestCurrentState` command.
    pub fn new_rpc_command() -> (r: Self)
        ensures
            r@ == FramePayload::Command(CommandModel::RequestCurrentState),
    {
        let rpc_command = RPCCommandStruct { data: RPCCommand::RequestCurrentState };
        ImprovWifiPacket { data: ImprovWifiPacketData::RPC(rpc_command) }
    }

    /// Encodes the frame. The type and length bytes are derived from the
    /// payload; encoding never fails.
    pub fn to_bytes(&self) -> (r: Result<Vec<u8>, ParseError>)
        ensures
            r matches Ok(v) && v@ == encode_frame(self@),
    {
        let mut writer = Writer::new();
        writer.write_magic(&[0x49u8, 0x4Du8, 0x50u8, 0x52u8, 0x4Fu8, 0x56u8, 0x01u8]);
        let data_type = self.data.get_type_id();
        writer.write_u8(data_type);
        let data_length = self.data.get_data_length();
        writer.write_u8(data_length);
        self.data.write(&mut writer);
        assert(writer.data@ =~= frame_body(self@));
        let checksum = wrapping_sum(writer.as_slice());
        writer.write_u8(checksum);
        let always_ten = AlwaysTen {};
        always_ten.write(&mut writer);
        assert(writer.data@ =~= encode_frame(self@));
        Ok(writer.into_vec())
    }
}

} // verus!
