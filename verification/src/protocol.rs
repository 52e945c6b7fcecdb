//! Wire codec for the fastboot protocol: commands are rendered to ASCII
//! command lines, raw response frames are parsed into typed responses.
//! Everything here is pure; no transport is involved.

use vstd::prelude::*;
use vstd::string::StringExecFns;
use vstd::utf8::decode_utf8;
use vstd::utf8::valid_utf8;

verus! {

/// The prefix of `s` that stands before its first null byte; `s` itself
/// when no null byte occurs. A null acts as an end-of-string marker in
/// response frames: bytes beyond it are ignored.
pub open spec fn spec_truncate_null(s: Seq<u8>) -> Seq<u8>
    decreases s.len(),
{
    if s.len() == 0 {
        s
    } else if s[0] == 0u8 {
        Seq::empty()
    } else {
        seq![s[0]] + spec_truncate_null(s.skip(1))
    }
}

proof fn lemma_truncate_null_no_null(s: Seq<u8>)
    requires
        forall|i: int| 0 <= i < s.len() ==> s[i] != 0u8,
    ensures
        spec_truncate_null(s) == s,
    decreases s.len(),
{
    if s.len() != 0 {
        lemma_truncate_null_no_null(s.skip(1));
        assert(seq![s[0]] + s.skip(1) =~= s);
    }
}

proof fn lemma_truncate_null_at(s: Seq<u8>, pos: int)
    requires
        0 <= pos < s.len(),
        s[pos] == 0u8,
        forall|i: int| 0 <= i < pos ==> s[i] != 0u8,
    ensures
        spec_truncate_null(s) == s.take(pos),
    decreases pos,
{
    if pos == 0 {
        assert(s.take(0) =~= Seq::<u8>::empty());
    } else {
        lemma_truncate_null_at(s.skip(1), pos - 1);
        assert(seq![s[0]] + s.skip(1).take(pos - 1) =~= s.take(pos));
    }
}

/// The longest prefix of `bytes` holding no null byte.
pub fn bytes_slice_null(bytes: &[u8]) -> (r: &[u8])
    ensures
        r@ == spec_truncate_null(bytes@),
{
    let len = bytes.len();
    let mut i: usize = 0;
    while i < len
        invariant
            0 <= i <= len,
            len == bytes@.len(),
            forall|j: int| 0 <= j < i ==> bytes@[j] != 0u8,
        decreases len - i,
    {
        if bytes[i] == 0u8 {
            proof {
                lemma_truncate_null_at(bytes@, i as int);
            }
            return &bytes[0..i];
        }
        i += 1;
    }
    proof {
        lemma_truncate_null_no_null(bytes@);
        assert(bytes@.subrange(0, len as int) =~= bytes@);
    }
    &bytes[0..len]
}

/// Why a hexadecimal numeral failed to parse: no `0x` prefix where one
/// is required, an empty digit string, a character that is no base-16
/// digit, or a value that does not fit the target width.
#[derive(Debug, Clone, Copy, PartialEq, Eq, Structural)]
pub enum HexParseError {
    Invalid,
}

/// The ASCII characters accepted as base-16 digits: `0-9`, `a-f`, `A-F`.
pub open spec fn is_hex_digit(c: char) -> bool {
    let u = c as u32;
    (48 <= u && u <= 57) || (97 <= u && u <= 102) || (65 <= u && u <= 70)
}

/// The numeric value of a base-16 digit (0 for characters that are none).
pub open spec fn hex_digit_value(c: char) -> nat {
    let u = c as u32;
    if 48 <= u && u <= 57 {
        (u - 48) as nat
    } else if 97 <= u && u <= 102 {
        (u - 87) as nat
    } else if 65 <= u && u <= 70 {
        (u - 55) as nat
    } else {
        0
    }
}

/// The value of a base-16 numeral, most significant digit first.
pub open spec fn hex_value(s: Seq<char>) -> nat
    decreases s.len(),
{
    if s.len() == 0 {
        0
    } else {
        hex_value(s.drop_last()) * 16 + hex_digit_value(s.last())
    }
}

pub open spec fn all_hex_digits(s: Seq<char>) -> bool {
    forall|i: int| 0 <= i < s.len() ==> is_hex_digit(s[i])
}

/// Base-16 numerals may carry one leading `+` sign, as
/// `u32::from_str_radix` accepts it.
pub open spec fn spec_strip_sign(s: Seq<char>) -> Seq<char> {
    if s.len() > 0 && s[0] == '+' {
        s.skip(1)
    } else {
        s
    }
}

/// What parsing `s` as an unsigned base-16 numeral bounded by `max`
/// yields: the digits' value when `s` is an optional `+` sign followed
/// by one or more base-16 digits and the value is at most `max`;
/// nothing otherwise.
pub open spec fn spec_parse_hex(s: Seq<char>, max: nat) -> Option<nat> {
    let d = spec_strip_sign(s);
    if d.len() > 0 && all_hex_digits(d) && hex_value(d) <= max {
        Some(hex_value(d))
    } else {
        None
    }
}

/// What `parse_u32_hex` yields: the numeral must carry a `0x` prefix.
pub open spec fn spec_parse_u32_hex(s: Seq<char>) -> Option<nat> {
    if s.len() >= 2 && s[0] == '0' && s[1] == 'x' {
        spec_parse_hex(s.skip(2), u32::MAX as nat)
    } else {
        None
    }
}

/// What `parse_u64_hex` yields: the numeral must carry a `0x` prefix.
pub open spec fn spec_parse_u64_hex(s: Seq<char>) -> Option<nat> {
    if s.len() >= 2 && s[0] == '0' && s[1] == 'x' {
        spec_parse_hex(s.skip(2), u64::MAX as nat)
    } else {
        None
    }
}

/// A numeral's value only grows as digits are appended.
proof fn lemma_hex_prefix_le(s: Seq<char>, j: int)
    requires
        0 <= j <= s.len(),
    ensures
        hex_value(s.take(j)) <= hex_value(s),
    decreases s.len() - j,
{
    if j < s.len() {
        lemma_hex_prefix_le(s, j + 1);
        assert(s.take(j + 1).drop_last() =~= s.take(j));
        assert(s.take(j + 1).last() == s[j]);
        assert(hex_value(s.take(j)) * 16 + hex_digit_value(s[j]) >= hex_value(s.take(j)));
    } else {
        assert(s.take(j) =~= s);
    }
}

/// Parses the characters of `s` from position `from` on as an unsigned
/// base-16 numeral with an optional leading `+` sign, as
/// `from_str_radix` would.
fn parse_hex_chars(s: &str, from: usize) -> (r: Option<u64>)
    requires
        from as int <= s@.len(),
    ensures
        match r {
            Some(v) => spec_parse_hex(s@.skip(from as int), u64::MAX as nat) == Some(v as nat),
            None => spec_parse_hex(s@.skip(from as int), u64::MAX as nat) is None,
        },
{
    let len = s.unicode_len();
    let ghost arg = s@.skip(from as int);
    let mut i: usize = from;
    if i < len && s.get_char(i) == '+' {
        i += 1;
    }
    let ghost dstart = i as int;
    let ghost digits = s@.skip(dstart);
    proof {
        assert(digits =~= spec_strip_sign(arg));
    }
    if i == len {
        return None;
    }
    let mut acc: u128 = 0;
    while i < len
        invariant
            0 <= dstart <= i as int <= len,
            len == s@.len(),
            digits == s@.skip(dstart),
            digits == spec_strip_sign(s@.skip(from as int)),
            acc as nat == hex_value(digits.take(i - dstart)),
            acc <= u64::MAX as u128,
            all_hex_digits(digits.take(i - dstart)),
        decreases len - i,
    {
        let c = s.get_char(i);
        proof {
            assert(digits == s@.subrange(dstart, len as int));
            assert(s@.subrange(dstart, len as int)[i as int - dstart] == s@[i as int]);
            assert(digits[i as int - dstart] == c);
        }
        let u = c as u32;
        let d: u32 = if 48 <= u && u <= 57 {
            u - 48
        } else if 97 <= u && u <= 102 {
            u - 87
        } else if 65 <= u && u <= 70 {
            u - 55
        } else {
            proof {
                assert(!is_hex_digit(c));
            }
            return None;
        };
        proof {
            assert(digits.take(i - dstart + 1).drop_last() =~= digits.take(i - dstart));
            assert(digits.take(i - dstart + 1).last() == digits[i as int - dstart]);
            assert(hex_digit_value(c) == d as nat);
        }
        acc = acc * 16 + d as u128;
        i += 1;
        if acc > u64::MAX as u128 {
            proof {
                lemma_hex_prefix_le(digits, i - dstart);
            }
            return None;
        }
    }
    proof {
        assert(digits.take(len - dstart) =~= digits);
    }
    Some(acc as u64)
}

/// Parse a `0x`-prefixed base-16 string, e.g. `0x1234`, into a `u32`.
pub fn parse_u32_hex(hex: &str) -> (r: Result<u32, HexParseError>)
    ensures
        match r {
            Ok(v) => spec_parse_u32_hex(hex@) == Some(v as nat),
            Err(_) => spec_parse_u32_hex(hex@) is None,
        },
{
    if !(hex.unicode_len() >= 2 && hex.get_char(0) == '0' && hex.get_char(1) == 'x') {
        return Err(HexParseError::Invalid);
    }
    match parse_hex_chars(hex, 2) {
        Some(v) if v <= u32::MAX as u64 => Ok(v as u32),
        _ => Err(HexParseError::Invalid),
    }
}

/// Parse a `0x`-prefixed base-16 string, e.g. `0x1234`, into a `u64`.
pub fn parse_u64_hex(hex: &str) -> (r: Result<u64, HexParseError>)
    ensures
        match r {
            Ok(v) => spec_parse_u64_hex(hex@) == Some(v as nat),
            Err(_) => spec_parse_u64_hex(hex@) is None,
        },
{
    if !(hex.unicode_len() >= 2 && hex.get_char(0) == '0' && hex.get_char(1) == 'x') {
        return Err(HexParseError::Invalid);
    }
    match parse_hex_chars(hex, 2) {
        Some(v) => Ok(v),
        None => Err(HexParseError::Invalid),
    }
}

/// Fastboot commands.
#[derive(Debug)]
pub enum FastBootCommand {
    /// Get a variable value.
    GetVar(String),
    /// Announce a download of the given length to the device.
    Download(u32),
    /// Verify a partition.
    Verify(String),
    /// Flash the downloaded data to a partition.
    Flash(String),
    /// Erase a partition.
    Erase(String),
    /// Boot the downloaded data.
    Boot,
    /// Continue booting.
    Continue,
    /// Reboot the device.
    Reboot,
    /// Reboot into the bootloader.
    RebootBootloader,
    /// Power off the device.
    Powerdown,
}

/// The mathematical shape of a command: its string arguments as
/// character sequences.
pub enum CommandModel {
    GetVar(Seq<char>),
    Download(u32),
    Verify(Seq<char>),
    Flash(Seq<char>),
    Erase(Seq<char>),
    Boot,
    Continue,
    Reboot,
    RebootBootloader,
    Powerdown,
}

impl View for FastBootCommand {
    type V = CommandModel;

    open spec fn view(&self) -> CommandModel {
        match self {
            FastBootCommand::GetVar(v) => CommandModel::GetVar(v@),
            FastBootCommand::Download(n) => CommandModel::Download(*n),
            FastBootCommand::Verify(p) => CommandModel::Verify(p@),
            FastBootCommand::Flash(p) => CommandModel::Flash(p@),
            FastBootCommand::Erase(p) => CommandModel::Erase(p@),
            FastBootCommand::Boot => CommandModel::Boot,
            FastBootCommand::Continue => CommandModel::Continue,
            FastBootCommand::Reboot => CommandModel::Reboot,
            FastBootCommand::RebootBootloader => CommandModel::RebootBootloader,
            FastBootCommand::Powerdown => CommandModel::Powerdown,
        }
    }
}

/// The base-16 digit character for a value below 16.
pub open spec fn hex_char_of(d: u32) -> char {
    if d == 0 {
        '0'
    } else if d == 1 {
        '1'
    } else if d == 2 {
        '2'
    } else if d == 3 {
        '3'
    } else if d == 4 {
        '4'
    } else if d == 5 {
        '5'
    } else if d == 6 {
        '6'
    } else if d == 7 {
        '7'
    } else if d == 8 {
        '8'
    } else if d == 9 {
        '9'
    } else if d == 10 {
        'a'
    } else if d == 11 {
        'b'
    } else if d == 12 {
        'c'
    } else if d == 13 {
        'd'
    } else if d == 14 {
        'e'
    } else {
        'f'
    }
}

/// `n` rendered as exactly eight lowercase base-16 digits, most
/// significant first.
pub open spec fn spec_hex8(n: u32) -> Seq<char> {
    Seq::new(8, |i: int| hex_char_of((n >> (((7 - i) * 4) as u32)) & 0xf))
}

/// What a command looks like on the wire.
pub open spec fn spec_wire(c: CommandModel) -> Seq<char> {
    match c {
        CommandModel::GetVar(v) => "getvar:"@ + v,
        CommandModel::Download(n) => "download:"@ + spec_hex8(n),
        CommandModel::Verify(p) => "verity:"@ + p,
        CommandModel::Flash(p) => "flash:"@ + p,
        CommandModel::Erase(p) => "erase:"@ + p,
        CommandModel::Boot => "boot"@,
        CommandModel::Continue => "continue"@,
        CommandModel::Reboot => "reboot"@,
        CommandModel::RebootBootloader => "reboot-bootloader"@,
        CommandModel::Powerdown => "powerdown"@,
    }
}

/// Relies on `String::push`: appends exactly the one character.
#[verifier::external_body]
fn push_char(s: &mut String, c: char)
    ensures
        final(s)@ == old(s)@.push(c),
{
    s.push(c);
}

fn hex_char(d: u32) -> (c: char)
    requires
        d < 16,
    ensures
        c == hex_char_of(d),
{
    if d == 0 {
        '0'
    } else if d == 1 {
        '1'
    } else if d == 2 {
        '2'
    } else if d == 3 {
        '3'
    } else if d == 4 {
        '4'
    } else if d == 5 {
        '5'
    } else if d == 6 {
        '6'
    } else if d == 7 {
        '7'
    } else if d == 8 {
        '8'
    } else if d == 9 {
        '9'
    } else if d == 10 {
        'a'
    } else if d == 11 {
        'b'
    } else if d == 12 {
        'c'
    } else if d == 13 {
        'd'
    } else if d == 14 {
        'e'
    } else {
        'f'
    }
}

/// Appends the eight-digit base-16 rendering of `n`.
fn append_hex8(out: &mut String, n: u32)
    ensures
        final(out)@ == old(out)@ + spec_hex8(n),
{
    let mut i: usize = 0;
    while i < 8
        invariant
            0 <= i <= 8,
            out@ == old(out)@ + spec_hex8(n).take(i as int),
        decreases 8 - i,
    {
        let sh: u32 = ((7 - i) * 4) as u32;
        let d: u32 = (n >> sh) & 0xf;
        proof {
            assert((n >> sh) & 0xf < 16) by (bit_vector);
        }
        let c = hex_char(d);
        push_char(out, c);
        proof {
            assert(sh as int == (7 - i as int) * 4);
            assert(spec_hex8(n)[i as int] == c);
            assert(spec_hex8(n).take(i + 1) =~= spec_hex8(n).take(i as int).push(c));
            assert(old(out)@ + spec_hex8(n).take(i as int).push(c) =~= (old(out)@ + spec_hex8(
                n,
            ).take(i as int)).push(c));
        }
        i += 1;
    }
    proof {
        assert(spec_hex8(n).take(8) =~= spec_hex8(n));
    }
}

impl FastBootCommand {
    /// Render the command to its ASCII wire line; no terminator is
    /// appended, the transport frames the write.
    pub fn encode(&self) -> (r: String)
        ensures
            r@ == spec_wire(self@),
    {
        match self {
            FastBootCommand::GetVar(v) => {
                let mut s = String::from_str("getvar:");
                s.append(v.as_str());
                s
            },
            FastBootCommand::Download(n) => {
                let mut s = String::from_str("download:");
                append_hex8(&mut s, *n);
                s
            },
            FastBootCommand::Verify(p) => {
                let mut s = String::from_str("verity:");
                s.append(p.as_str());
                s
            },
            FastBootCommand::Flash(p) => {
                let mut s = String::from_str("flash:");
                s.append(p.as_str());
                s
            },
            FastBootCommand::Erase(p) => {
                let mut s = String::from_str("erase:");
                s.append(p.as_str());
                s
            },
            FastBootCommand::Boot => String::from_str("boot"),
            FastBootCommand::Continue => String::from_str("continue"),
            FastBootCommand::Reboot => String::from_str("reboot"),
            FastBootCommand::RebootBootloader => String::from_str("reboot-bootloader"),
            FastBootCommand::Powerdown => String::from_str("powerdown"),
        }
    }
}

/// Parse errors for fastboot responses.
#[derive(Debug, Clone, Copy, PartialEq, Eq, Structural)]
pub enum FastBootResponseParseError {
    /// Unknown response type.
    UnknownReply,
    /// Couldn't parse the DATA length.
    DataLength,
}

/// Fastboot responses; one is produced from each response frame.
#[derive(Debug, PartialEq, Eq)]
pub enum FastBootResponse {
    /// Command succeeded, with a command-specific value.
    Okay(String),
    /// Non-terminal information from the device.
    Info(String),
    /// Command failed for the provided reason.
    Fail(String),
    /// The device expects this amount of data to be sent.
    Data(u32),
}

/// The mathematical shape of a response: its payload as a character
/// sequence.
pub enum ResponseModel {
    Okay(Seq<char>),
    Info(Seq<char>),
    Fail(Seq<char>),
    Data(u32),
}

impl View for FastBootResponse {
    type V = ResponseModel;

    open spec fn view(&self) -> ResponseModel {
        match self {
            FastBootResponse::Okay(s) => ResponseModel::Okay(s@),
            FastBootResponse::Info(s) => ResponseModel::Info(s@),
            FastBootResponse::Fail(s) => ResponseModel::Fail(s@),
            FastBootResponse::Data(n) => ResponseModel::Data(*n),
        }
    }
}

/// What parsing a response from its tag and payload characters yields.
/// A `DATA` payload must be a base-16 numeral that fits a `u32`; any
/// tag other than the four known ones is an unknown reply.
pub open spec fn spec_from_parts(resp: Seq<char>, data: Seq<char>) -> Result<
    ResponseModel,
    FastBootResponseParseError,
> {
    if resp == seq!['O', 'K', 'A', 'Y'] {
        Ok(ResponseModel::Okay(data))
    } else if resp == seq!['I', 'N', 'F', 'O'] {
        Ok(ResponseModel::Info(data))
    } else if resp == seq!['F', 'A', 'I', 'L'] {
        Ok(ResponseModel::Fail(data))
    } else if resp == seq!['D', 'A', 'T', 'A'] {
        match spec_parse_hex(data, u32::MAX as nat) {
            Some(v) => Ok(ResponseModel::Data(v as u32)),
            None => Err(FastBootResponseParseError::DataLength),
        }
    } else {
        Err(FastBootResponseParseError::UnknownReply)
    }
}

/// What decoding a raw response frame yields. The first four bytes are
/// the tag; the remainder, truncated at the first null byte, is the
/// payload, decoded as UTF-8. A frame shorter than four bytes, or one
/// whose tag or payload is no valid UTF-8, is an unknown reply.
pub open spec fn spec_decode(bytes: Seq<u8>) -> Result<ResponseModel, FastBootResponseParseError> {
    if bytes.len() < 4 {
        Err(FastBootResponseParseError::UnknownReply)
    } else {
        let tag = bytes.subrange(0, 4);
        let payload = spec_truncate_null(bytes.skip(4));
        if !valid_utf8(tag) || !valid_utf8(payload) {
            Err(FastBootResponseParseError::UnknownReply)
        } else {
            spec_from_parts(decode_utf8(tag), decode_utf8(payload))
        }
    }
}

/// A parse result with its payload strings read as character sequences.
pub open spec fn decode_result_model(r: Result<FastBootResponse, FastBootResponseParseError>)
    -> Result<ResponseModel, FastBootResponseParseError> {
    match r {
        Ok(resp) => Ok(resp@),
        Err(e) => Err(e),
    }
}

/// Relies on `core::str::from_utf8`: it succeeds exactly on valid
/// UTF-8 input, and then yields the decoded characters.
#[verifier::external_body]
fn utf8_to_str(bytes: &[u8]) -> (r: Option<&str>)
    ensures
        r is Some <==> valid_utf8(bytes@),
        r matches Some(s) ==> s@ == decode_utf8(bytes@),
{
    core::str::from_utf8(bytes).ok()
}

/// Whether `s` is exactly the four given characters.
fn char4_matches(s: &str, c0: char, c1: char, c2: char, c3: char) -> (r: bool)
    ensures
        r == (s@ == seq![c0, c1, c2, c3]),
{
    if s.unicode_len() != 4 {
        return false;
    }
    let r = s.get_char(0) == c0 && s.get_char(1) == c1 && s.get_char(2) == c2 && s.get_char(3)
        == c3;
    proof {
        if r {
            assert(s@ =~= seq![c0, c1, c2, c3]);
        }
    }
    r
}

impl FastBootResponse {
    /// Parse a response from its already-decoded tag and payload.
    pub fn from_parts(resp: &str, data: &str) -> (r: Result<
        FastBootResponse,
        FastBootResponseParseError,
    >)
        ensures
            decode_result_model(r) == spec_from_parts(resp@, data@),
    {
        if char4_matches(resp, 'O', 'K', 'A', 'Y') {
            Ok(FastBootResponse::Okay(String::from_str(data)))
        } else if char4_matches(resp, 'I', 'N', 'F', 'O') {
            Ok(FastBootResponse::Info(String::from_str(data)))
        } else if char4_matches(resp, 'F', 'A', 'I', 'L') {
            Ok(FastBootResponse::Fail(String::from_str(data)))
        } else if char4_matches(resp, 'D', 'A', 'T', 'A') {
            proof {
                assert(data@.skip(0) =~= data@);
            }
            match parse_hex_chars(data, 0) {
                Some(v) if v <= u32::MAX as u64 => Ok(FastBootResponse::Data(v as u32)),
                _ => Err(FastBootResponseParseError::DataLength),
            }
        } else {
            Err(FastBootResponseParseError::UnknownReply)
        }
    }

    /// Parse a fastboot response from a raw frame. A frame that is no
    /// valid UTF-8 is reported as an unknown reply.
    pub fn from_bytes(bytes: &[u8]) -> (r: Result<FastBootResponse, FastBootResponseParseError>)
        ensures
            decode_result_model(r) == spec_decode(bytes@),
    {
        if bytes.len() < 4 {
            return Err(FastBootResponseParseError::UnknownReply);
        }
        let tag = &bytes[0..4];
        let rest = &bytes[4..bytes.len()];
        proof {
            assert(rest@ =~= bytes@.skip(4));
        }
        let payload = bytes_slice_null(rest);
        let resp = match utf8_to_str(tag) {
            Some(s) => s,
            None => {
                return Err(FastBootResponseParseError::UnknownReply);
            },
        };
        let data = match utf8_to_str(payload) {
            Some(s) => s,
            None => {
                return Err(FastBootResponseParseError::UnknownReply);
            },
        };
        Self::from_parts(resp, data)
    }
}

proof fn lemma_hex_char_of_value(d: u32)
    requires
        d < 16,
    ensures
        is_hex_digit(hex_char_of(d)),
        hex_char_of(d) != '+',
        hex_digit_value(hex_char_of(d)) == d as nat,
{
}

proof fn lemma_hex8_prefix_value(n: u32, k: int)
    requires
        1 <= k <= 8,
    ensures
        hex_value(spec_hex8(n).take(k)) == (n >> (((8 - k) * 4) as u32)) as nat,
    decreases k,
{
    let s = spec_hex8(n);
    let sh: u32 = ((8 - k) * 4) as u32;
    let d: u32 = (n >> sh) & 0xf;
    assert(s.take(k).drop_last() =~= s.take(k - 1));
    assert(s.take(k).last() == s[k - 1]);
    assert((n >> sh) & 0xf < 16) by (bit_vector);
    lemma_hex_char_of_value(d);
    assert(s[k - 1] == hex_char_of(d));
    if k == 1 {
        assert(s.take(0) =~= Seq::<char>::empty());
        assert(hex_value(s.take(0)) == 0);
        assert(hex_value(s.take(k)) == d as nat);
        assert((n >> 28u32) & 0xf == n >> 28u32) by (bit_vector);
        assert(sh == 28u32);
        assert(hex_value(s.take(k)) == (n >> sh) as nat);
    } else {
        lemma_hex8_prefix_value(n, k - 1);
        let sh4: u32 = ((9 - k) * 4) as u32;
        assert(hex_value(s.take(k)) == hex_value(s.take(k - 1)) * 16 + (d as nat));
        assert(hex_value(s.take(k - 1)) == (n >> sh4) as nat);
        assert((n >> sh4) * 16 + ((n >> sh) & 0xf) == (n >> sh)) by (bit_vector)
            requires
                sh <= 24 && sh4 == sh + 4,
        ;
        assert(hex_value(s.take(k)) == (n >> sh) as nat);
    }
}

/// Encoding a download length writes eight base-16 digits that parse
/// back to exactly the same value: the codec's numeric round trip.
pub proof fn lemma_download_digits_roundtrip(n: u32)
    ensures
        spec_parse_hex(spec_hex8(n), u32::MAX as nat) == Some(n as nat),
{
    let s = spec_hex8(n);
    assert forall|i: int| 0 <= i < s.len() implies is_hex_digit(s[i]) by {
        let sh: u32 = ((7 - i) * 4) as u32;
        let d: u32 = (n >> sh) & 0xf;
        assert((n >> sh) & 0xf < 16) by (bit_vector);
        lemma_hex_char_of_value(d);
    }
    assert(!is_hex_digit('+'));
    assert(s[0] != '+');
    assert(spec_strip_sign(s) == s);
    lemma_hex8_prefix_value(n, 8);
    assert(n >> 0u32 == n) by (bit_vector);
    assert(s.take(8) =~= s);
}

/// Frames shorter than the four tag bytes decode to an unknown reply.
pub proof fn lemma_short_frame_is_unknown(bytes: Seq<u8>)
    requires
        bytes.len() < 4,
    ensures
        spec_decode(bytes) == Err::<ResponseModel, FastBootResponseParseError>(
            FastBootResponseParseError::UnknownReply,
        ),
{
}

/// A frame whose four-byte tag is none of `OKAY`, `INFO`, `FAIL` and
/// `DATA` decodes to an unknown reply, whatever its payload holds.
pub proof fn lemma_unknown_tag_is_unknown(bytes: Seq<u8>)
    requires
        bytes.len() >= 4,
        valid_utf8(bytes.subrange(0, 4)) ==> {
            let tag = decode_utf8(bytes.subrange(0, 4));
            tag != seq!['O', 'K', 'A', 'Y'] && tag != seq!['I', 'N', 'F', 'O'] && tag != seq![
                'F',
                'A',
                'I',
                'L',
            ] && tag != seq!['D', 'A', 'T', 'A']
        },
    ensures
        spec_decode(bytes) == Err::<ResponseModel, FastBootResponseParseError>(
            FastBootResponseParseError::UnknownReply,
        ),
{
}

/// A `DATA` response parses exactly when its payload is a base-16
/// numeral that fits a `u32`; on any other payload the length is
/// reported unparseable.
pub proof fn lemma_data_length_parse(data: Seq<char>)
    ensures
        spec_from_parts(seq!['D', 'A', 'T', 'A'], data) == match spec_parse_hex(
            data,
            u32::MAX as nat,
        ) {
            Some(v) => Ok::<ResponseModel, FastBootResponseParseError>(
                ResponseModel::Data(v as u32),
            ),
            None => Err(FastBootResponseParseError::DataLength),
        },
{
}

/// Whatever stands behind the first null byte of a payload cannot
/// change what a frame decodes to, under any tag: decoding a frame
/// equals decoding its prefix before the null.
pub proof fn lemma_decode_strips_after_null(tag: Seq<u8>, payload: Seq<u8>, junk: Seq<u8>)
    requires
        tag.len() == 4,
        forall|i: int| 0 <= i < payload.len() ==> payload[i] != 0u8,
    ensures
        spec_decode(tag + payload + seq![0u8] + junk) == spec_decode(tag + payload),
{
    let framed = tag + payload + seq![0u8] + junk;
    let plain = tag + payload;
    assert(framed.subrange(0, 4) =~= tag);
    assert(plain.subrange(0, 4) =~= tag);
    assert(framed.skip(4) =~= payload + seq![0u8] + junk);
    assert(plain.skip(4) =~= payload);
    lemma_truncate_null_at(payload + seq![0u8] + junk, payload.len() as int);
    assert((payload + seq![0u8] + junk).take(payload.len() as int) =~= payload);
    lemma_truncate_null_no_null(payload);
}

} // verus!
