//! OMCI identity configuration and its fixed-width and hexadecimal encodings.
use vstd::prelude::*;
use vstd::string::{StrSliceExecFns, StringSliceAdditionalSpecFns};
use vstd::utf8::{decode_utf8, valid_utf8};

use super::bytes::{append_bytes, copy_bytes};
use super::text::{parse_unsigned, spec_parse_unsigned};

verus! {

/// The identity the ONU reports through OMCI, with its protocol options.
pub struct IdentityConfig {
    pub omcc_version: u8,
    pub disable_enhanced_security: bool,
    /// Seconds a data path may wait for PLOAM Alloc-IDs before it is reported as failed; 0 never fails.
    pub alloc_id_timeout: u32,
    pub vendor_id: Vec<u8>,
    pub equipment_id: Vec<u8>,
    pub hardware_version: Vec<u8>,
    pub software_version: Vec<u8>,
    pub loid: Vec<u8>,
    pub loid_password: Vec<u8>,
    pub operator_id: Vec<u8>,
    pub serial_number: Vec<u8>,
}

/// `OWRT`
pub open spec fn default_vendor_id() -> Seq<u8> {
    seq![0x4fu8, 0x57, 0x52, 0x54]
}

/// `AN7581-XG-PON-ONU`
pub open spec fn default_equipment_id() -> Seq<u8> {
    seq![0x41u8, 0x4e, 0x37, 0x35, 0x38, 0x31, 0x2d, 0x58, 0x47, 0x2d, 0x50, 0x4f, 0x4e, 0x2d, 0x4f, 0x4e, 0x55]
}

/// `AN7581`
pub open spec fn default_hardware_version() -> Seq<u8> {
    seq![0x41u8, 0x4e, 0x37, 0x35, 0x38, 0x31]
}

/// `OpenWrt`
pub open spec fn default_software_version() -> Seq<u8> {
    seq![0x4fu8, 0x70, 0x65, 0x6e, 0x57, 0x72, 0x74]
}

/// `CTC`
pub open spec fn default_operator_id() -> Seq<u8> {
    seq![0x43u8, 0x54, 0x43]
}

impl Default for IdentityConfig {
    fn default() -> (config: IdentityConfig)
        ensures
            config.omcc_version == 0xb0,
            !config.disable_enhanced_security,
            config.alloc_id_timeout == 30,
            config.vendor_id@ == default_vendor_id(),
            config.equipment_id@ == default_equipment_id(),
            config.hardware_version@ == default_hardware_version(),
            config.software_version@ == default_software_version(),
            config.loid@ == Seq::<u8>::empty(),
            config.loid_password@ == Seq::<u8>::empty(),
            config.operator_id@ == default_operator_id(),
            config.serial_number@ == Seq::<u8>::empty(),
    {
        let config = IdentityConfig {
            omcc_version: 0xb0,
            disable_enhanced_security: false,
            alloc_id_timeout: 30,
            vendor_id: vec![0x4f, 0x57, 0x52, 0x54],
            equipment_id: vec![0x41, 0x4e, 0x37, 0x35, 0x38, 0x31, 0x2d, 0x58, 0x47, 0x2d, 0x50, 0x4f, 0x4e, 0x2d, 0x4f, 0x4e, 0x55],
            hardware_version: vec![0x41, 0x4e, 0x37, 0x35, 0x38, 0x31],
            software_version: vec![0x4f, 0x70, 0x65, 0x6e, 0x57, 0x72, 0x74],
            loid: Vec::new(),
            loid_password: Vec::new(),
            operator_id: vec![0x43, 0x54, 0x43],
            serial_number: Vec::new(),
        };
        assert(config.vendor_id@ =~= default_vendor_id());
        assert(config.equipment_id@ =~= default_equipment_id());
        assert(config.hardware_version@ =~= default_hardware_version());
        assert(config.software_version@ =~= default_software_version());
        assert(config.operator_id@ =~= default_operator_id());
        config
    }
}

/// The OMCC version an `omcc_version` option selects: `0x86` where it says
/// so, `0xb0` otherwise.
pub open spec fn spec_omcc_version(option: Option<&str>) -> u8 {
    match option {
        Some(v) => if v@ == seq!['0', 'x', '8', '6'] { 0x86 } else { 0xb0 },
        None => 0xb0,
    }
}

/// Whether an option reads exactly `1`.
pub open spec fn spec_option_enabled(option: Option<&str>) -> bool {
    option matches Some(v) && v@ == seq!['1']
}

/// The Alloc-ID timeout an option gives: a decimal `u32`, or 30 seconds
/// where it is absent, empty or not such a number.
pub open spec fn spec_alloc_id_timeout(option: Option<&str>) -> u32 {
    match option {
        Some(v) => match spec_parse_unsigned(v@, 10, 0xffff_ffff) {
            Some(n) => n as u32,
            None => 30,
        },
        None => 30,
    }
}

/// The bytes of a non-empty text option, or `default` where it is absent or empty.
pub open spec fn option_bytes(option: Option<&str>, default: Seq<u8>) -> Seq<u8> {
    match option {
        Some(v) => if v@.len() > 0 { v.spec_bytes() } else { default },
        None => default,
    }
}

fn text_option(destination: &mut Vec<u8>, option: Option<&str>)
    ensures
        final(destination)@ == option_bytes(option, old(destination)@),
{
    if let Some(v) = option {
        if v.unicode_len() > 0 {
            *destination = v.as_bytes_vec();
        }
    }
}

impl IdentityConfig {
    /// The identity the options of the `omci` configuration section give:
    /// `omcc_version` (`0xb0`, or `0x86`), `disable_enhanced_security`
    /// (`1` disables it), `alloc_id_timeout` in seconds, and the identity
    /// texts. An absent or empty option keeps its default.
    pub fn from_options(
        omcc_version: Option<&str>,
        disable_enhanced_security: Option<&str>,
        alloc_id_timeout: Option<&str>,
        vendor_id: Option<&str>,
        equipment_id: Option<&str>,
        hardware_version: Option<&str>,
        software_version: Option<&str>,
        loid: Option<&str>,
        loid_password: Option<&str>,
        operator_id: Option<&str>,
        serial_number: Option<&str>,
    ) -> (config: IdentityConfig)
        ensures
            config.omcc_version == spec_omcc_version(omcc_version),
            config.disable_enhanced_security == spec_option_enabled(disable_enhanced_security),
            config.alloc_id_timeout == spec_alloc_id_timeout(alloc_id_timeout),
            config.vendor_id@ == option_bytes(vendor_id, default_vendor_id()),
            config.equipment_id@ == option_bytes(equipment_id, default_equipment_id()),
            config.hardware_version@ == option_bytes(hardware_version, default_hardware_version()),
            config.software_version@ == option_bytes(software_version, default_software_version()),
            config.loid@ == option_bytes(loid, Seq::empty()),
            config.loid_password@ == option_bytes(loid_password, Seq::empty()),
            config.operator_id@ == option_bytes(operator_id, default_operator_id()),
            config.serial_number@ == option_bytes(serial_number, Seq::empty()),
    {
        let mut config = IdentityConfig::default();
        config.omcc_version = match omcc_version {
            Some(v) => {
                let c = str_chars(v);
                if c.len() == 4 && c[0] == '0' && c[1] == 'x' && c[2] == '8' && c[3] == '6' {
                    assert(c@ =~= seq!['0', 'x', '8', '6']);
                    0x86
                } else {
                    0xb0
                }
            },
            None => 0xb0,
        };
        config.disable_enhanced_security = match disable_enhanced_security {
            Some(v) => {
                let c = str_chars(v);
                let enabled = c.len() == 1 && c[0] == '1';
                assert(enabled == (c@ =~= seq!['1']));
                enabled
            },
            None => false,
        };
        if let Some(v) = alloc_id_timeout {
            if let Some(n) = parse_unsigned(&str_chars(v), 10, 0xffff_ffff) {
                config.alloc_id_timeout = n as u32;
            }
        }
        text_option(&mut config.vendor_id, vendor_id);
        text_option(&mut config.equipment_id, equipment_id);
        text_option(&mut config.hardware_version, hardware_version);
        text_option(&mut config.software_version, software_version);
        text_option(&mut config.loid, loid);
        text_option(&mut config.loid_password, loid_password);
        text_option(&mut config.operator_id, operator_id);
        text_option(&mut config.serial_number, serial_number);
        config
    }
}

/// `value` cut or zero-padded to `width` bytes.
pub open spec fn spec_fixed_width(value: Seq<u8>, width: nat) -> Seq<u8> {
    Seq::new(width, |i: int| if i < value.len() { value[i] } else { 0u8 })
}

/// `value` cut or zero-padded to `width` bytes.
pub fn fixed_width(value: &[u8], width: usize) -> (output: Vec<u8>)
    ensures
        output@ == spec_fixed_width(value@, width as nat),
{
    let mut output: Vec<u8> = Vec::with_capacity(width);
    let mut i: usize = 0;
    while i < width
        invariant
            i <= width,
            output@ == spec_fixed_width(value@, i as nat),
        decreases width - i,
    {
        if i < value.len() {
            output.push(value[i]);
        } else {
            output.push(0);
        }
        assert(output@ =~= spec_fixed_width(value@, (i + 1) as nat));
        i += 1;
    }
    output
}

/// The value of an ASCII hexadecimal digit.
pub open spec fn spec_hex_nibble(byte: u8) -> Option<u8> {
    if 0x30 <= byte <= 0x39 {
        Some((byte - 0x30) as u8)
    } else if 0x61 <= byte <= 0x66 {
        Some((byte - 0x61 + 10) as u8)
    } else if 0x41 <= byte <= 0x46 {
        Some((byte - 0x41 + 10) as u8)
    } else {
        None
    }
}

pub fn hex_nibble(byte: u8) -> (nibble: Option<u8>)
    ensures
        nibble == spec_hex_nibble(byte),
{
    if 0x30 <= byte && byte <= 0x39 {
        Some(byte - 0x30)
    } else if 0x61 <= byte && byte <= 0x66 {
        Some(byte - 0x61 + 10)
    } else if 0x41 <= byte && byte <= 0x46 {
        Some(byte - 0x41 + 10)
    } else {
        None
    }
}

pub open spec fn all_hex(bytes: Seq<u8>) -> bool {
    forall|i: int| 0 <= i < bytes.len() ==> (#[trigger] spec_hex_nibble(bytes[i])) is Some
}

/// The bytes whose hexadecimal digits `bytes` spells, two digits a byte.
pub open spec fn spec_hex_value(bytes: Seq<u8>) -> Seq<u8> {
    Seq::new(
        bytes.len() / 2,
        |i: int| ((spec_hex_nibble(bytes[2 * i]).unwrap() * 16) + spec_hex_nibble(bytes[2 * i + 1]).unwrap()) as u8,
    )
}

pub enum HexError {
    OddDigitCount,
    NonHexDigit,
}

pub open spec fn spec_decode_hex(bytes: Seq<u8>) -> Result<Seq<u8>, HexError> {
    if bytes.len() % 2 != 0 {
        Err(HexError::OddDigitCount)
    } else if !all_hex(bytes) {
        Err(HexError::NonHexDigit)
    } else {
        Ok(spec_hex_value(bytes))
    }
}

/// Decodes hexadecimal digits; the error says why the input is not a byte string.
pub fn decode_hex_bytes(bytes: &[u8]) -> (output: Result<Vec<u8>, HexError>)
    ensures
        match (output, spec_decode_hex(bytes@)) {
            (Ok(v), Ok(w)) => v@ == w,
            (Err(HexError::OddDigitCount), Err(HexError::OddDigitCount)) => true,
            (Err(HexError::NonHexDigit), Err(HexError::NonHexDigit)) => true,
            _ => false,
        },
{
    if bytes.len() % 2 != 0 {
        return Err(HexError::OddDigitCount);
    }
    let mut output: Vec<u8> = Vec::with_capacity(bytes.len() / 2);
    let mut i: usize = 0;
    while i < bytes.len() / 2
        invariant
            bytes.len() % 2 == 0,
            i <= bytes.len() / 2,
            forall|k: int| 0 <= k < 2 * i ==> (#[trigger] spec_hex_nibble(bytes@[k])) is Some,
            output@ == spec_hex_value(bytes@.take(2 * i)),
        decreases bytes.len() / 2 - i,
    {
        let high = hex_nibble(bytes[2 * i]);
        let low = hex_nibble(bytes[2 * i + 1]);
        match (high, low) {
            (Some(high), Some(low)) => {
                assert(high < 16 && low < 16);
                let ghost before = output@;
                output.push((high << 4) | low);
                proof {
                    assert((high << 4) | low == (high * 16 + low) as u8) by (bit_vector)
                        requires high < 16u8, low < 16u8;
                    let t = bytes@.take(2 * i + 2);
                    assert forall|k: int| 0 <= k < i + 1 implies #[trigger] output@[k] == spec_hex_value(t)[k] by {
                        if k < i {
                            assert(before[k] == spec_hex_value(bytes@.take(2 * i))[k]);
                        }
                    }
                    assert(output@ =~= spec_hex_value(t));
                }
                i += 1;
            },
            _ => {
                proof {
                    if spec_hex_nibble(bytes@[2 * i as int]) is None {
                        assert(!all_hex(bytes@));
                    } else {
                        assert(!all_hex(bytes@) ) by {
                            assert(spec_hex_nibble(bytes@[2 * i + 1]) is None);
                        }
                    }
                }
                return Err(HexError::NonHexDigit);
            },
        }
    }
    assert(bytes@.take(bytes.len() as int) =~= bytes@);
    Ok(output)
}

/// Decodes a string of hexadecimal digits.
pub fn decode_hex(input: &str) -> (output: Result<Vec<u8>, &'static str>)
    ensures
        match spec_decode_hex(input.spec_bytes()) {
            Ok(w) => output matches Ok(v) && v@ == w,
            Err(HexError::OddDigitCount) => output matches Err(message) && message@ == "odd digit count"@,
            Err(HexError::NonHexDigit) => output matches Err(message) && message@ == "non-hex digit"@,
        },
{
    match decode_hex_bytes(input.as_bytes()) {
        Ok(v) => Ok(v),
        Err(HexError::OddDigitCount) => Err("odd digit count"),
        Err(HexError::NonHexDigit) => Err("non-hex digit"),
    }
}


/// `core::str::from_utf8`: the string is returned exactly where the bytes are
/// valid UTF-8, and its characters are the ones the bytes encode.
#[verifier::external_body]
fn str_from_utf8(bytes: &[u8]) -> (text: Option<&str>)
    ensures
        text is Some <==> valid_utf8(bytes@),
        text matches Some(t) ==> t@ == decode_utf8(bytes@),
{
    core::str::from_utf8(bytes).ok()
}

/// The Unicode `White_Space` characters, which `str::trim` removes.
pub open spec fn is_whitespace(c: char) -> bool {
    ||| '\t' <= c <= '\r'
    ||| c == ' '
    ||| c == '\u{85}'
    ||| c == '\u{a0}'
    ||| c == '\u{1680}'
    ||| '\u{2000}' <= c <= '\u{200a}'
    ||| c == '\u{2028}'
    ||| c == '\u{2029}'
    ||| c == '\u{202f}'
    ||| c == '\u{205f}'
    ||| c == '\u{3000}'
}

pub fn char_is_whitespace(c: char) -> (ws: bool)
    ensures
        ws == is_whitespace(c),
{
    ('\t' <= c && c <= '\r') || c == ' ' || c == '\u{85}' || c == '\u{a0}' || c == '\u{1680}'
        || ('\u{2000}' <= c && c <= '\u{200a}') || c == '\u{2028}' || c == '\u{2029}' || c == '\u{202f}'
        || c == '\u{205f}' || c == '\u{3000}'
}

pub open spec fn trim_start(s: Seq<char>) -> Seq<char>
    decreases s.len(),
{
    if s.len() > 0 && is_whitespace(s[0]) {
        trim_start(s.drop_first())
    } else {
        s
    }
}

pub open spec fn trim_end(s: Seq<char>) -> Seq<char>
    decreases s.len(),
{
    if s.len() > 0 && is_whitespace(s.last()) {
        trim_end(s.drop_last())
    } else {
        s
    }
}

/// `s` without leading and trailing white space.
pub open spec fn trim(s: Seq<char>) -> Seq<char> {
    trim_end(trim_start(s))
}

proof fn lemma_trim_start(s: Seq<char>, i: int)
    requires
        0 <= i <= s.len(),
        forall|k: int| 0 <= k < i ==> is_whitespace(#[trigger] s[k]),
        i == s.len() || !is_whitespace(s[i]),
    ensures
        trim_start(s) == s.skip(i),
    decreases i,
{
    if i == 0 {
        assert(s.skip(0) =~= s);
    } else {
        let t = s.drop_first();
        assert forall|k: int| 0 <= k < i - 1 implies is_whitespace(#[trigger] t[k]) by {
            assert(t[k] == s[k + 1]);
        }
        if i < s.len() {
            assert(t[i - 1] == s[i]);
        }
        lemma_trim_start(t, i - 1);
        assert(t.skip(i - 1) =~= s.skip(i));
    }
}

pub proof fn lemma_trim_end(s: Seq<char>, e: int)
    requires
        0 <= e <= s.len(),
        forall|k: int| e <= k < s.len() ==> is_whitespace(#[trigger] s[k]),
        e == 0 || !is_whitespace(s[e - 1]),
    ensures
        trim_end(s) == s.take(e),
    decreases s.len() - e,
{
    if e == s.len() {
        assert(s.take(e) =~= s);
    } else {
        let t = s.drop_last();
        assert forall|k: int| e <= k < t.len() implies is_whitespace(#[trigger] t[k]) by {
            assert(t[k] == s[k]);
        }
        if e > 0 {
            assert(t[e - 1] == s[e - 1]);
        }
        assert(is_whitespace(s.last()));
        lemma_trim_end(t, e);
        assert(t.take(e) =~= s.take(e));
    }
}

pub open spec fn is_ascii_chars(s: Seq<char>) -> bool {
    forall|i: int| 0 <= i < s.len() ==> (#[trigger] s[i] as u32) < 128
}

/// The bytes of ASCII characters.
pub open spec fn ascii_bytes(s: Seq<char>) -> Seq<u8> {
    s.map_values(|c: char| c as u8)
}

/// `hex:`
pub open spec fn hex_prefix() -> Seq<char> {
    seq!['h', 'e', 'x', ':']
}

/// The serial the ONU-G reports: eight bytes from the configured serial number,
/// or the vendor ID with a zero vendor-specific serial where it cannot be read.
pub open spec fn spec_onu_g_serial(vendor_id: Seq<u8>, serial: Seq<u8>) -> Seq<u8> {
    let fallback = spec_fixed_width(vendor_id, 4) + seq![0u8, 0, 0, 0];
    if serial.len() == 0 {
        fallback
    } else if serial.len() == 8 {
        serial
    } else if !valid_utf8(serial) {
        fallback
    } else {
        let text = trim(decode_utf8(serial));
        let raw = if text.len() >= 4 && text.take(4) == hex_prefix() { text.skip(4) } else { text };
        if raw.len() == 16 && is_ascii_chars(raw) && all_hex(ascii_bytes(raw)) {
            spec_hex_value(ascii_bytes(raw))
        } else if text.len() == 12 && is_ascii_chars(text) && all_hex(ascii_bytes(text.skip(4))) {
            ascii_bytes(text.take(4)) + spec_hex_value(ascii_bytes(text.skip(4)))
        } else {
            fallback
        }
    }
}

proof fn lemma_onu_g_serial_length(vendor_id: Seq<u8>, serial: Seq<u8>)
    ensures
        spec_onu_g_serial(vendor_id, serial).len() == 8,
{
}

pub fn str_chars(text: &str) -> (chars: Vec<char>)
    ensures
        chars@ == text@,
{
    let mut chars: Vec<char> = Vec::new();
    for c in it: text.chars()
        invariant
            chars@ == it.seq().take(it.index() as int),
            it.seq() == text@,
    {
        chars.push(c);
        assert(chars@ =~= it.seq().take(it.index() + 1));
    }
    assert(chars@ =~= text@);
    chars
}

/// Where the text of `chars` starts and ends once leading and trailing white
/// space is trimmed.
pub fn trim_bounds(chars: &Vec<char>) -> (bounds: (usize, usize))
    ensures
        bounds.0 <= bounds.1 <= chars@.len(),
        trim(chars@) == chars@.subrange(bounds.0 as int, bounds.1 as int),
{
    let ghost full = chars@;
    let mut start: usize = 0;
    while start < chars.len() && char_is_whitespace(chars[start])
        invariant
            start <= chars.len(),
            forall|k: int| 0 <= k < start ==> is_whitespace(#[trigger] chars@[k]),
        decreases chars.len() - start,
    {
        start += 1;
    }
    proof {
        lemma_trim_start(full, start as int);
    }
    let mut end: usize = chars.len();
    while end > start && char_is_whitespace(chars[end - 1])
        invariant
            start <= end <= chars.len(),
            forall|k: int| end <= k < chars.len() ==> is_whitespace(#[trigger] chars@[k]),
        decreases end,
    {
        end -= 1;
    }
    proof {
        let u = full.skip(start as int);
        assert forall|k: int| end - start <= k < u.len() implies is_whitespace(#[trigger] u[k]) by {
            assert(u[k] == full[k + start]);
        }
        if end > start {
            assert(u[end - start - 1] == full[end - 1]);
        }
        lemma_trim_end(u, end - start);
        assert(u.take(end - start) =~= full.subrange(start as int, end as int));
    }
    (start, end)
}

/// ASCII bytes of `chars[start..end]`, or `None` where a character is not ASCII.
fn ascii_range(chars: &Vec<char>, start: usize, end: usize) -> (bytes: Option<Vec<u8>>)
    requires
        start <= end <= chars.len(),
    ensures
        is_ascii_chars(chars@.subrange(start as int, end as int)) <==> bytes is Some,
        bytes matches Some(b) ==> b@ == ascii_bytes(chars@.subrange(start as int, end as int)),
{
    let ghost sub = chars@.subrange(start as int, end as int);
    let mut bytes: Vec<u8> = Vec::with_capacity(end - start);
    let mut i: usize = start;
    while i < end
        invariant
            start <= i <= end <= chars.len(),
            sub == chars@.subrange(start as int, end as int),
            is_ascii_chars(chars@.subrange(start as int, i as int)),
            bytes@ == ascii_bytes(chars@.subrange(start as int, i as int)),
        decreases end - i,
    {
        let c = chars[i];
        if (c as u32) >= 128 {
            assert(sub[i - start] == c);
            return None;
        }
        bytes.push(c as u8);
        proof {
            let s2 = chars@.subrange(start as int, i + 1);
            assert(s2 =~= chars@.subrange(start as int, i as int).push(c));
            assert(bytes@ =~= ascii_bytes(s2));
        }
        i += 1;
    }
    Some(bytes)
}

impl IdentityConfig {
    /// The eight-byte serial number ONU-G reports.
    pub fn onu_g_serial(&self) -> (serial: Vec<u8>)
        ensures
            serial@ == spec_onu_g_serial(self.vendor_id@, self.serial_number@),
            serial@.len() == 8,
    {
        proof {
            lemma_onu_g_serial_length(self.vendor_id@, self.serial_number@);
        }
        let mut fallback = fixed_width(self.vendor_id.as_slice(), 4);
        append_bytes(&mut fallback, &[0u8, 0, 0, 0]);
        assert(fallback@ =~= spec_fixed_width(self.vendor_id@, 4) + seq![0u8, 0, 0, 0]);
        if self.serial_number.len() == 0 {
            return fallback;
        }
        if self.serial_number.len() == 8 {
            return copy_bytes(self.serial_number.as_slice());
        }
        let text = match str_from_utf8(self.serial_number.as_slice()) {
            Some(text) => text,
            None => return fallback,
        };
        let chars = str_chars(text);
        let ghost full = chars@;
        let (start, end) = trim_bounds(&chars);
        let ghost text_chars = full.subrange(start as int, end as int);
        let len = end - start;
        let has_prefix = len >= 4 && chars[start] == 'h' && chars[start + 1] == 'e' && chars[start + 2] == 'x'
            && chars[start + 3] == ':';
        proof {
            if len >= 4 {
                assert(has_prefix == (text_chars.take(4) =~= hex_prefix()));
            }
        }
        let raw_start = if has_prefix { start + 4 } else { start };
        proof {
            let raw = if text_chars.len() >= 4 && text_chars.take(4) == hex_prefix() { text_chars.skip(4) } else { text_chars };
            assert(raw =~= full.subrange(raw_start as int, end as int));
        }
        if end - raw_start == 16 {
            if let Some(raw_bytes) = ascii_range(&chars, raw_start, end) {
                if let Ok(value) = decode_hex_bytes(raw_bytes.as_slice()) {
                    return value;
                }
            }
        }
        if len == 12 {
            if let Some(all) = ascii_range(&chars, start, end) {
                if let Some(tail) = ascii_range(&chars, start + 4, end) {
                    proof {
                        assert(full.subrange(start + 4, end as int) =~= text_chars.skip(4));
                    }
                    if let Ok(decoded) = decode_hex_bytes(tail.as_slice()) {
                        let head = ascii_range(&chars, start, start + 4);
                        proof {
                            assert(full.subrange(start as int, start + 4) =~= text_chars.take(4));
                            assert(is_ascii_chars(full.subrange(start as int, start + 4)));
                        }
                        let mut value = head.unwrap();
                        append_bytes(&mut value, decoded.as_slice());
                        return value;
                    }
                } else {
                    proof {
                        assert(full.subrange(start + 4, end as int) =~= text_chars.skip(4));
                        let t = text_chars.skip(4);
                        let k = choose|k: int| 0 <= k < t.len() && !((#[trigger] t[k] as u32) < 128);
                        assert(text_chars[k + 4] == t[k]);
                    }
                }
            }
        }
        fallback
    }
}

} // verus!
