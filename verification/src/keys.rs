//! Console key events (as the Windows console reports them) turned into
//! the VT byte sequences that a terminal would send for them.
use vstd::prelude::*;
use vstd::utf8::encode_scalar;

verus! {

/// A console key event (`KEY_EVENT_RECORD`).
#[derive(Debug, Clone, Copy)]
pub struct KeyEventRecord {
    pub key_down: i32,
    pub repeat_count: u16,
    pub virtual_key_code: u16,
    pub virtual_scan_code: u16,
    pub uchar: u16,
    pub control_key_state: u32,
}

/// A console input event (`INPUT_RECORD`): its type, and the event itself
/// as the 16 bytes that the console wrote.
#[derive(Debug, Clone, Copy)]
pub struct InputRecord {
    pub event_type: u16,
    pub _padding: u16,
    pub event: [u8; 16],
}

/// The `event_type` of a key event.
pub const KEY_EVENT: u16 = 0x0001;

/// What waiting on the console returns when nothing arrived in time.
pub const WAIT_TIMEOUT: u32 = 258;

pub const VK_BACK: u16 = 0x08;

pub const VK_TAB: u16 = 0x09;

pub const VK_RETURN: u16 = 0x0D;

pub const VK_ESCAPE: u16 = 0x1B;

/// Page Up.
pub const VK_PRIOR: u16 = 0x21;

/// Page Down.
pub const VK_NEXT: u16 = 0x22;

pub const VK_END: u16 = 0x23;

pub const VK_HOME: u16 = 0x24;

pub const VK_LEFT: u16 = 0x25;

pub const VK_UP: u16 = 0x26;

pub const VK_RIGHT: u16 = 0x27;

pub const VK_DOWN: u16 = 0x28;

pub const VK_INSERT: u16 = 0x2D;

pub const VK_DELETE: u16 = 0x2E;

pub const VK_F1: u16 = 0x70;

pub const VK_F12: u16 = 0x7B;

/// Left or right Ctrl held (`LEFT_CTRL_PRESSED | RIGHT_CTRL_PRESSED`).
pub const CTRL_MASK: u32 = 0x000C;

/// Left or right Alt held (`LEFT_ALT_PRESSED | RIGHT_ALT_PRESSED`).
pub const ALT_MASK: u32 = 0x0003;

/// Shift held.
pub const SHIFT_MASK: u32 = 0x0010;

// ---------------------------------------------------------------------------
// Decoding the event bytes
// ---------------------------------------------------------------------------

/// A little-endian 16-bit value.
pub open spec fn le16(b0: u8, b1: u8) -> int {
    b0 + 256 * b1
}

/// A little-endian 32-bit value.
pub open spec fn le32(b0: u8, b1: u8, b2: u8, b3: u8) -> int {
    b0 + 256 * b1 + 65536 * b2 + 16777216 * b3
}

/// The key event laid out in the 16 event bytes of an input record
/// (`KEY_EVENT_RECORD`, little-endian): `bKeyDown` at 0, `wRepeatCount` at
/// 4, `wVirtualKeyCode` at 6, `wVirtualScanCode` at 8, the UTF-16 character
/// at 10 and `dwControlKeyState` at 12.
pub open spec fn key_event_of(e: Seq<u8>) -> KeyEventRecord
    recommends
        e.len() == 16,
{
    KeyEventRecord {
        key_down: le32(e[0], e[1], e[2], e[3]) as i32,
        repeat_count: le16(e[4], e[5]) as u16,
        virtual_key_code: le16(e[6], e[7]) as u16,
        virtual_scan_code: le16(e[8], e[9]) as u16,
        uchar: le16(e[10], e[11]) as u16,
        control_key_state: le32(e[12], e[13], e[14], e[15]) as u32,
    }
}

fn read_le16(e: &[u8; 16], at: usize) -> (r: u16)
    requires
        at + 1 < 16,
    ensures
        r == le16(e@[at as int], e@[at + 1]),
{
    (e[at] as u16) + (e[at + 1] as u16) * 256
}

fn read_le32(e: &[u8; 16], at: usize) -> (r: u32)
    requires
        at + 3 < 16,
    ensures
        r == le32(e@[at as int], e@[at + 1], e@[at + 2], e@[at + 3]),
{
    (e[at] as u32) + (e[at + 1] as u32) * 256 + (e[at + 2] as u32) * 65536 + (e[at + 3] as u32)
        * 16777216
}

impl KeyEventRecord {
    /// The key event held in the event bytes of an input record.
    pub fn from_event_bytes(e: &[u8; 16]) -> (k: KeyEventRecord)
        ensures
            k == key_event_of(e@),
    {
        let down = read_le32(e, 0);
        KeyEventRecord {
            key_down: down as i32,
            repeat_count: read_le16(e, 4),
            virtual_key_code: read_le16(e, 6),
            virtual_scan_code: read_le16(e, 8),
            uchar: read_le16(e, 10),
            control_key_state: read_le32(e, 12),
        }
    }
}

// ---------------------------------------------------------------------------
// VT sequences for keys
// ---------------------------------------------------------------------------

/// Whether a UTF-16 unit is a Unicode scalar on its own (not a surrogate).
pub open spec fn is_scalar16(ch: u16) -> bool {
    !(0xD800 <= ch <= 0xDFFF)
}

/// The decimal digits of `n`, as ASCII bytes.
pub open spec fn decimal(n: nat) -> Seq<u8>
    decreases n,
{
    if n < 10 {
        seq![(0x30 + n) as u8]
    } else {
        decimal(n / 10).push((0x30 + n % 10) as u8)
    }
}

/// The sequence for an arrow key: `ESC [ dir`, or `ESC [ 1 ; m dir` with a
/// modifier parameter `m`.
pub open spec fn arrow_seq(dir: u8, modifier: Option<u32>) -> Seq<u8> {
    match modifier {
        None => seq![0x1Bu8, 0x5Bu8, dir],
        Some(m) => seq![0x1Bu8, 0x5Bu8, 0x31u8, 0x3Bu8] + decimal(m as nat) + seq![dir],
    }
}

/// The sequence for function key `Fn`, 1 to 12.
pub open spec fn f_key_bytes(n: u8) -> Option<Seq<u8>> {
    if n == 1 {
        Some(seq![0x1Bu8, 0x4Fu8, 0x50u8])
    } else if n == 2 {
        Some(seq![0x1Bu8, 0x4Fu8, 0x51u8])
    } else if n == 3 {
        Some(seq![0x1Bu8, 0x4Fu8, 0x52u8])
    } else if n == 4 {
        Some(seq![0x1Bu8, 0x4Fu8, 0x53u8])
    } else if n == 5 {
        Some(seq![0x1Bu8, 0x5Bu8, 0x31u8, 0x35u8, 0x7Eu8])
    } else if n == 6 {
        Some(seq![0x1Bu8, 0x5Bu8, 0x31u8, 0x37u8, 0x7Eu8])
    } else if n == 7 {
        Some(seq![0x1Bu8, 0x5Bu8, 0x31u8, 0x38u8, 0x7Eu8])
    } else if n == 8 {
        Some(seq![0x1Bu8, 0x5Bu8, 0x31u8, 0x39u8, 0x7Eu8])
    } else if n == 9 {
        Some(seq![0x1Bu8, 0x5Bu8, 0x32u8, 0x30u8, 0x7Eu8])
    } else if n == 10 {
        Some(seq![0x1Bu8, 0x5Bu8, 0x32u8, 0x31u8, 0x7Eu8])
    } else if n == 11 {
        Some(seq![0x1Bu8, 0x5Bu8, 0x32u8, 0x33u8, 0x7Eu8])
    } else if n == 12 {
        Some(seq![0x1Bu8, 0x5Bu8, 0x32u8, 0x34u8, 0x7Eu8])
    } else {
        None
    }
}

/// Whether Ctrl, Alt or Shift is held.
pub open spec fn ctrl_held(key: KeyEventRecord) -> bool {
    key.control_key_state & CTRL_MASK != 0
}

pub open spec fn alt_held(key: KeyEventRecord) -> bool {
    key.control_key_state & ALT_MASK != 0
}

pub open spec fn shift_held(key: KeyEventRecord) -> bool {
    key.control_key_state & SHIFT_MASK != 0
}

/// The xterm modifier parameter: 1 + 1 for Shift + 2 for Alt + 4 for Ctrl;
/// none without a modifier.
pub open spec fn modifier_param(key: KeyEventRecord) -> Option<u32> {
    if ctrl_held(key) || alt_held(key) || shift_held(key) {
        Some(
            (1 + (if shift_held(key) {
                1int
            } else {
                0
            }) + (if alt_held(key) {
                2int
            } else {
                0
            }) + (if ctrl_held(key) {
                4int
            } else {
                0
            })) as u32,
        )
    } else {
        None
    }
}

/// The bytes of a key that produced a character, if the character decides
/// them.
pub open spec fn char_key_bytes(key: KeyEventRecord) -> Option<Seq<u8>> {
    let ch = key.uchar;
    let vk = key.virtual_key_code;
    if vk == VK_RETURN {
        Some(seq![0x0Du8])
    } else if vk == VK_BACK {
        Some(seq![0x7Fu8])
    } else if vk == VK_TAB {
        if shift_held(key) {
            Some(seq![0x1Bu8, 0x5Bu8, 0x5Au8])
        } else {
            Some(seq![0x09u8])
        }
    } else if vk == VK_ESCAPE {
        Some(seq![0x1Bu8])
    } else if ctrl_held(key) && ch < 0x20 {
        if alt_held(key) {
            Some(seq![0x1Bu8, ch as u8])
        } else {
            Some(seq![ch as u8])
        }
    } else if alt_held(key) && !ctrl_held(key) && is_scalar16(ch) {
        Some(seq![0x1Bu8] + encode_scalar(ch as u32))
    } else if is_scalar16(ch) {
        Some(encode_scalar(ch as u32))
    } else {
        None
    }
}

/// The bytes of a special key (arrows, Home, End, Insert, Delete, Page Up,
/// Page Down, F1 to F12).
pub open spec fn special_key_bytes(key: KeyEventRecord) -> Option<Seq<u8>> {
    let vk = key.virtual_key_code;
    let m = modifier_param(key);
    if vk == VK_UP {
        Some(arrow_seq(0x41, m))
    } else if vk == VK_DOWN {
        Some(arrow_seq(0x42, m))
    } else if vk == VK_RIGHT {
        Some(arrow_seq(0x43, m))
    } else if vk == VK_LEFT {
        Some(arrow_seq(0x44, m))
    } else if vk == VK_HOME {
        Some(seq![0x1Bu8, 0x5Bu8, 0x48u8])
    } else if vk == VK_END {
        Some(seq![0x1Bu8, 0x5Bu8, 0x46u8])
    } else if vk == VK_INSERT {
        Some(seq![0x1Bu8, 0x5Bu8, 0x32u8, 0x7Eu8])
    } else if vk == VK_DELETE {
        Some(seq![0x1Bu8, 0x5Bu8, 0x33u8, 0x7Eu8])
    } else if vk == VK_PRIOR {
        Some(seq![0x1Bu8, 0x5Bu8, 0x35u8, 0x7Eu8])
    } else if vk == VK_NEXT {
        Some(seq![0x1Bu8, 0x5Bu8, 0x36u8, 0x7Eu8])
    } else if VK_F1 <= vk <= VK_F12 {
        f_key_bytes((vk - VK_F1 + 1) as u8)
    } else {
        None
    }
}

/// The VT bytes for a key event: those of the character it produced, where
/// there is one and it decides them, else those of the special key.
pub open spec fn key_bytes(key: KeyEventRecord) -> Option<Seq<u8>> {
    if key.uchar != 0 && char_key_bytes(key) is Some {
        char_key_bytes(key)
    } else {
        special_key_bytes(key)
    }
}

/// The UTF-8 encoding of a UTF-16 unit that is a scalar.
fn encode_unit(ch: u16) -> (r: Vec<u8>)
    requires
        is_scalar16(ch),
    ensures
        r@ == encode_scalar(ch as u32),
{
    let v = ch as u32;
    if v <= 0x7F {
        vec![(v & 0x7F) as u8]
    } else if v <= 0x7FF {
        vec![0xC0 | ((v >> 6) & 0x1F) as u8, 0x80 | (v & 0x3F) as u8]
    } else {
        vec![0xE0 | ((v >> 12) & 0x0F) as u8, 0x80 | ((v >> 6) & 0x3F) as u8, 0x80 | (v & 0x3F) as u8]
    }
}

/// The decimal digits of `n`, as ASCII bytes.
pub fn decimal_bytes(n: u32) -> (r: Vec<u8>)
    ensures
        r@ == decimal(n as nat),
    decreases n,
{
    if n < 10 {
        return vec![(0x30 + n) as u8];
    }
    let mut r = decimal_bytes(n / 10);
    r.push((0x30 + n % 10) as u8);
    r
}

/// The sequence for an arrow key, with an optional modifier parameter.
pub fn arrow_with_mod(dir: u8, modifier: Option<u32>) -> (r: Vec<u8>)
    ensures
        r@ == arrow_seq(dir, modifier),
{
    match modifier {
        None => vec![0x1B, 0x5B, dir],
        Some(m) => {
            let mut r: Vec<u8> = vec![0x1B, 0x5B, 0x31, 0x3B];
            let digits = decimal_bytes(m);
            let mut i: usize = 0;
            let ghost head = r@;
            while i < digits.len()
                invariant
                    i <= digits@.len(),
                    r@ == head + digits@.take(i as int),
                decreases digits@.len() - i,
            {
                r.push(digits[i]);
                i += 1;
                assert(r@ =~= head + digits@.take(i as int));
            }
            assert(digits@.take(digits@.len() as int) =~= digits@);
            r.push(dir);
            assert(r@ =~= arrow_seq(dir, modifier));
            r
        },
    }
}

/// The sequence for function key `Fn`, 1 to 12.
pub fn f_key_seq(n: u8) -> (r: Option<Vec<u8>>)
    ensures
        r matches Some(v) ==> f_key_bytes(n) == Some(v@),
        r is None <==> f_key_bytes(n) is None,
{
    let s: Vec<u8> = if n == 1 {
        vec![0x1B, 0x4F, 0x50]
    } else if n == 2 {
        vec![0x1B, 0x4F, 0x51]
    } else if n == 3 {
        vec![0x1B, 0x4F, 0x52]
    } else if n == 4 {
        vec![0x1B, 0x4F, 0x53]
    } else if n == 5 {
        vec![0x1B, 0x5B, 0x31, 0x35, 0x7E]
    } else if n == 6 {
        vec![0x1B, 0x5B, 0x31, 0x37, 0x7E]
    } else if n == 7 {
        vec![0x1B, 0x5B, 0x31, 0x38, 0x7E]
    } else if n == 8 {
        vec![0x1B, 0x5B, 0x31, 0x39, 0x7E]
    } else if n == 9 {
        vec![0x1B, 0x5B, 0x32, 0x30, 0x7E]
    } else if n == 10 {
        vec![0x1B, 0x5B, 0x32, 0x31, 0x7E]
    } else if n == 11 {
        vec![0x1B, 0x5B, 0x32, 0x33, 0x7E]
    } else if n == 12 {
        vec![0x1B, 0x5B, 0x32, 0x34, 0x7E]
    } else {
        return None;
    };
    Some(s)
}

/// The bytes of a key that produced a character, if the character decides
/// them.
fn char_key_seq(key: &KeyEventRecord) -> (r: Option<Vec<u8>>)
    ensures
        r matches Some(v) ==> char_key_bytes(*key) == Some(v@),
        r is None <==> char_key_bytes(*key) is None,
{
    let ctrl = key.control_key_state & CTRL_MASK != 0;
    let alt = key.control_key_state & ALT_MASK != 0;
    let shift = key.control_key_state & SHIFT_MASK != 0;
    let ch = key.uchar;
    let vk = key.virtual_key_code;
    if vk == VK_RETURN {
        return Some(vec![0x0D]);
    }
    if vk == VK_BACK {
        return Some(vec![0x7F]);
    }
    if vk == VK_TAB {
        if shift {
            return Some(vec![0x1B, 0x5B, 0x5A]);
        }
        return Some(vec![0x09]);
    }
    if vk == VK_ESCAPE {
        return Some(vec![0x1B]);
    }
    // Ctrl+key: the character is already the control code.
    if ctrl && ch < 0x20 {
        if alt {
            return Some(vec![0x1B, ch as u8]);
        }
        return Some(vec![ch as u8]);
    }
    let scalar = !(0xD800 <= ch && ch <= 0xDFFF);
    // Alt+key
    if alt && !ctrl && scalar {
        let mut r: Vec<u8> = vec![0x1B];
        let enc = encode_unit(ch);
        let mut i: usize = 0;
        while i < enc.len()
            invariant
                i <= enc@.len(),
                r@ == seq![0x1Bu8] + enc@.take(i as int),
            decreases enc@.len() - i,
        {
            r.push(enc[i]);
            i += 1;
            assert(r@ =~= seq![0x1Bu8] + enc@.take(i as int));
        }
        assert(enc@.take(enc@.len() as int) =~= enc@);
        return Some(r);
    }
    // A regular (possibly non-ASCII) character.
    if scalar {
        return Some(encode_unit(ch));
    }
    None
}

/// The VT bytes a terminal would send for a console key event.
pub fn win32_key_to_bytes(key: &KeyEventRecord) -> (r: Option<Vec<u8>>)
    ensures
        r matches Some(v) ==> key_bytes(*key) == Some(v@),
        r is None <==> key_bytes(*key) is None,
{
    let ctrl = key.control_key_state & CTRL_MASK != 0;
    let alt = key.control_key_state & ALT_MASK != 0;
    let shift = key.control_key_state & SHIFT_MASK != 0;

    if key.uchar != 0 {
        match char_key_seq(key) {
            Some(v) => {
                return Some(v);
            },
            None => {},
        }
    }
    let modifier: Option<u32> = if ctrl || alt || shift {
        let m: u32 = 1 + (if shift {
            1u32
        } else {
            0
        }) + (if alt {
            2u32
        } else {
            0
        }) + (if ctrl {
            4u32
        } else {
            0
        });
        Some(m)
    } else {
        None
    };
    assert(modifier == modifier_param(*key));
    let vk = key.virtual_key_code;
    if vk == VK_UP {
        Some(arrow_with_mod(0x41, modifier))
    } else if vk == VK_DOWN {
        Some(arrow_with_mod(0x42, modifier))
    } else if vk == VK_RIGHT {
        Some(arrow_with_mod(0x43, modifier))
    } else if vk == VK_LEFT {
        Some(arrow_with_mod(0x44, modifier))
    } else if vk == VK_HOME {
        Some(vec![0x1B, 0x5B, 0x48])
    } else if vk == VK_END {
        Some(vec![0x1B, 0x5B, 0x46])
    } else if vk == VK_INSERT {
        Some(vec![0x1B, 0x5B, 0x32, 0x7E])
    } else if vk == VK_DELETE {
        Some(vec![0x1B, 0x5B, 0x33, 0x7E])
    } else if vk == VK_PRIOR {
        Some(vec![0x1B, 0x5B, 0x35, 0x7E])
    } else if vk == VK_NEXT {
        Some(vec![0x1B, 0x5B, 0x36, 0x7E])
    } else if VK_F1 <= vk && vk <= VK_F12 {
        f_key_seq((vk - VK_F1 + 1) as u8)
    } else {
        None
    }
}

// ---------------------------------------------------------------------------
// Console input records
// ---------------------------------------------------------------------------

/// What a console input record sends to the shell: the bytes of a
/// key-down event and how many times to send them (its repeat count, at
/// least once); nothing for other events, key releases and keys without a
/// VT sequence.
pub open spec fn record_output(rec: InputRecord) -> Option<(Seq<u8>, u16)> {
    let key = key_event_of(rec.event@);
    if rec.event_type != KEY_EVENT || key.key_down == 0 {
        None
    } else {
        match key_bytes(key) {
            Some(b) => Some(
                (
                    b,
                    if key.repeat_count == 0 {
                        1u16
                    } else {
                        key.repeat_count
                    },
                ),
            ),
            None => None,
        }
    }
}

/// The bytes to send for a console input record, and how many times.
pub fn pending_key_output(rec: &InputRecord) -> (r: Option<(Vec<u8>, u16)>)
    ensures
        r matches Some((b, n)) ==> record_output(*rec) == Some((b@, n)),
        r is None <==> record_output(*rec) is None,
{
    if rec.event_type != KEY_EVENT {
        return None;
    }
    let key = KeyEventRecord::from_event_bytes(&rec.event);
    if key.key_down == 0 {
        return None;
    }
    match win32_key_to_bytes(&key) {
        Some(b) => {
            let times = if key.repeat_count == 0 {
                1
            } else {
                key.repeat_count
            };
            Some((b, times))
        },
        None => None,
    }
}

// ---------------------------------------------------------------------------
// Debug log
// ---------------------------------------------------------------------------

/// An upper-case hexadecimal digit.
pub open spec fn hex_digit(v: int) -> char {
    if v < 10 {
        (0x30 + v) as char
    } else {
        (0x41 + (v - 10)) as char
    }
}

/// A byte as `0x` and two upper-case hex digits (`{:#04X}` style, as the
/// debug log writes it).
pub open spec fn hex_byte(b: u8) -> Seq<char> {
    seq!['0', 'x', hex_digit(b as int / 16), hex_digit(b as int % 16)]
}

/// The bytes written as hex, separated by single spaces.
pub open spec fn hex_list(bytes: Seq<u8>) -> Seq<char>
    decreases bytes.len(),
{
    if bytes.len() == 0 {
        seq![]
    } else if bytes.len() == 1 {
        hex_byte(bytes[0])
    } else {
        hex_list(bytes.drop_last()) + seq![' '] + hex_byte(bytes.last())
    }
}

fn hex_char(v: u8) -> (c: char)
    requires
        v < 16,
    ensures
        c == hex_digit(v as int),
{
    if v < 10 {
        ((0x30 + v) as u8) as char
    } else {
        ((0x41 + (v - 10)) as u8) as char
    }
}

/// The bytes written as hex for the debug log: `0x1B 0x5B 0x41`.
pub fn hex_bytes(bytes: &[u8]) -> (r: String)
    ensures
        r@ == hex_list(bytes@),
{
    let mut out: Vec<char> = Vec::new();
    let mut i: usize = 0;
    assert(bytes@.take(0) =~= Seq::<u8>::empty());
    while i < bytes.len()
        invariant
            i <= bytes@.len(),
            out@ == hex_list(bytes@.take(i as int)),
        decreases bytes@.len() - i,
    {
        let b = bytes[i];
        let ghost before = out@;
        if i > 0 {
            out.push(' ');
        }
        out.push('0');
        out.push('x');
        out.push(hex_char(b / 16));
        out.push(hex_char(b % 16));
        assert(bytes@.take(i + 1).drop_last() =~= bytes@.take(i as int));
        if i == 0 {
            assert(out@ =~= hex_byte(b));
        } else {
            assert(out@ =~= before + seq![' '] + hex_byte(b));
        }
        i += 1;
    }
    assert(bytes@.take(bytes@.len() as int) =~= bytes@);
    crate::text::string_from_chars(out.as_slice())
}

/// The final byte of the sequence for an arrow key: `A` up, `B` down, `C`
/// right, `D` left.
pub open spec fn arrow_letter(vk: u16) -> u8 {
    if vk == VK_UP {
        0x41
    } else if vk == VK_DOWN {
        0x42
    } else if vk == VK_RIGHT {
        0x43
    } else {
        0x44
    }
}

/// An arrow key that produced no character sends the xterm sequence: plain
/// `ESC [ X` without modifiers, else `ESC [ 1 ; m X` whose modifier digit
/// `m` is one more than the sum of 1 for Shift, 2 for Alt and 4 for Ctrl
/// (Shift alone 2, Alt alone 3, Ctrl alone 5, Ctrl+Shift 6, all three 8).
pub proof fn lemma_arrow_modifier_code(key: KeyEventRecord)
    requires
        key.uchar == 0,
        key.virtual_key_code == VK_UP || key.virtual_key_code == VK_DOWN || key.virtual_key_code
            == VK_RIGHT || key.virtual_key_code == VK_LEFT,
    ensures
        ({
            let shift = key.control_key_state & SHIFT_MASK != 0;
            let alt = key.control_key_state & ALT_MASK != 0;
            let ctrl = key.control_key_state & CTRL_MASK != 0;
            let letter = arrow_letter(key.virtual_key_code);
            let m: int = 1 + (if shift {
                1int
            } else {
                0
            }) + (if alt {
                2int
            } else {
                0
            }) + (if ctrl {
                4int
            } else {
                0
            });
            &&& !shift && !alt && !ctrl ==> key_bytes(key) == Some(seq![0x1Bu8, 0x5Bu8, letter])
            &&& (shift || alt || ctrl) ==> key_bytes(key) == Some(
                seq![0x1Bu8, 0x5Bu8, 0x31u8, 0x3Bu8, (0x30 + m) as u8, letter],
            )
            &&& (shift && !alt && !ctrl) ==> m == 2
            &&& (alt && !shift && !ctrl) ==> m == 3
            &&& (ctrl && !shift && !alt) ==> m == 5
        }),
{
    let m = modifier_param(key);
    if m is Some {
        let v = m->0;
        assert(1 <= v <= 8);
        assert(decimal(v as nat) == seq![(0x30 + v) as u8]);
        assert(arrow_seq(arrow_letter(key.virtual_key_code), m) =~= seq![0x1Bu8, 0x5Bu8, 0x31u8, 0x3Bu8, (0x30 + v) as u8, arrow_letter(key.virtual_key_code)]);
    }
}

} // verus!
