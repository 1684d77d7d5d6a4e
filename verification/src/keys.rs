//! Keys, and what they send to a terminal.

use vstd::prelude::*;
use vstd::string::*;
use vstd::utf8::*;

verus! {

/// Which key it is.
#[derive(Debug, Clone, Copy, PartialEq, Eq, Structural)]
pub enum KeyCode {
    Backspace,
    Enter,
    Left,
    Right,
    Up,
    Down,
    Home,
    End,
    PageUp,
    PageDown,
    Tab,
    Delete,
    Insert,
    Esc,
    /// A key that writes a character.
    Char(char),
    /// Any other key.
    Other,
}

/// A key, with the keys held down with it.
#[derive(Debug, Clone, Copy, PartialEq, Eq, Structural)]
pub struct KeyEvent {
    pub code: KeyCode,
    pub control: bool,
    pub shift: bool,
}

/// The code of the control character of a character: the place of its letter in the
/// alphabet, and what follows from that for other characters.
pub open spec fn control_code(c: char) -> u8 {
    let small = if 'A' <= c <= 'Z' {
        c as int + 32
    } else {
        c as int
    };
    ((small - 96) % 256) as u8
}

/// What a key sends to a terminal, if anything.
pub open spec fn key_bytes(key: KeyEvent) -> Option<Seq<u8>> {
    match key.code {
        KeyCode::Char(c) => Some(
            if key.control {
                seq![control_code(c)]
            } else {
                encode_utf8(seq![c])
            },
        ),
        KeyCode::Enter => Some(
            if key.shift {
                seq![27u8, 91, 49, 51, 59, 50, 117]
            } else {
                seq![13u8]
            },
        ),
        KeyCode::Backspace => Some(seq![127u8]),
        KeyCode::Tab => Some(
            if key.shift {
                seq![27u8, 91, 90]
            } else {
                seq![9u8]
            },
        ),
        KeyCode::Esc => Some(seq![27u8]),
        KeyCode::Up => Some(seq![27u8, 91, 65]),
        KeyCode::Down => Some(seq![27u8, 91, 66]),
        KeyCode::Right => Some(seq![27u8, 91, 67]),
        KeyCode::Left => Some(seq![27u8, 91, 68]),
        KeyCode::Home => Some(seq![27u8, 91, 72]),
        KeyCode::End => Some(seq![27u8, 91, 70]),
        KeyCode::Delete => Some(seq![27u8, 91, 51, 126]),
        KeyCode::PageUp => Some(seq![27u8, 91, 53, 126]),
        KeyCode::PageDown => Some(seq![27u8, 91, 54, 126]),
        KeyCode::Insert => Some(seq![27u8, 91, 50, 126]),
        KeyCode::Other => None,
    }
}

/// Bytes that may be there, as a value.
pub open spec fn bytes_model(b: Option<Vec<u8>>) -> Option<Seq<u8>> {
    match b {
        Some(v) => Some(v@),
        None => None,
    }
}

/// What a key sends to a terminal, if anything.
pub fn key_to_bytes(key: KeyEvent) -> (r: Option<Vec<u8>>)
    ensures
        bytes_model(r) == key_bytes(key),
{
    let bytes: Vec<u8> = match key.code {
        KeyCode::Char(c) => {
            if key.control {
                vec![control_byte(c)]
            } else {
                character_bytes(c)
            }
        },
        KeyCode::Enter => {
            if key.shift {
                vec![27, 91, 49, 51, 59, 50, 117]
            } else {
                vec![13]
            }
        },
        KeyCode::Backspace => vec![127],
        KeyCode::Tab => {
            if key.shift {
                vec![27, 91, 90]
            } else {
                vec![9]
            }
        },
        KeyCode::Esc => vec![27],
        KeyCode::Up => vec![27, 91, 65],
        KeyCode::Down => vec![27, 91, 66],
        KeyCode::Right => vec![27, 91, 67],
        KeyCode::Left => vec![27, 91, 68],
        KeyCode::Home => vec![27, 91, 72],
        KeyCode::End => vec![27, 91, 70],
        KeyCode::Delete => vec![27, 91, 51, 126],
        KeyCode::PageUp => vec![27, 91, 53, 126],
        KeyCode::PageDown => vec![27, 91, 54, 126],
        KeyCode::Insert => vec![27, 91, 50, 126],
        KeyCode::Other => {
            return None;
        },
    };
    assert(bytes@ =~= key_bytes(key)->0);
    Some(bytes)
}

/// The code of the control character of a character.
fn control_byte(c: char) -> (b: u8)
    ensures
        b == control_code(c),
{
    let code: u32 = c as u32;
    let small: u32 = if 'A' <= c && c <= 'Z' { code + 32 } else { code };
    let b: u32 = (small + 160) % 256;
    assert((small + 160) % 256 == (small - 96) % 256) by (nonlinear_arith);
    b as u8
}

/// The bytes of a character.
fn character_bytes(c: char) -> (r: Vec<u8>)
    ensures
        r@ == encode_utf8(seq![c]),
{
    let mut s = String::new();
    s.push(c);
    assert(s@ =~= seq![c]);
    vstd::slice::slice_to_vec(s.as_str().as_bytes())
}

// ---------------------------------------------------------------------------
// Laws
// ---------------------------------------------------------------------------

/// A letter sends the same control character in upper and in lower case, and it is one.
pub proof fn law_control_letters(small: char, big: char)
    requires
        'a' <= small <= 'z',
        big as int + 32 == small as int,
    ensures
        control_code(small) == control_code(big),
        1 <= control_code(small) <= 26,
        control_code(small) == small as int - 96,
{
}

/// A character is sent in its UTF-8 form, and with control as the code that lies 96 below its small
/// letter.
pub proof fn law_characters_are_sent(c: char, shift: bool)
    ensures
        key_bytes(KeyEvent { code: KeyCode::Char(c), control: false, shift }) == Some(
            encode_utf8(seq![c]),
        ),
        'a' <= c <= 'z' ==> key_bytes(KeyEvent { code: KeyCode::Char(c), control: true, shift }) == Some(
            seq![(c as int - 96) as u8],
        ),
        'A' <= c <= 'Z' ==> key_bytes(KeyEvent { code: KeyCode::Char(c), control: true, shift }) == Some(
            seq![(c as int - 64) as u8],
        ),
{
}

/// The other keys are sent as terminals send them, whether control is held or not: the arrows and
/// the keys that move the cursor as escape sequences. Only enter and tab are sent otherwise with
/// shift.
pub proof fn law_other_keys_are_sent(control: bool, shift: bool)
    ensures
        ({
            let sent = |code: KeyCode| key_bytes(KeyEvent { code, control, shift });
            let csi = |end: Seq<u8>| Some(seq![0x1bu8, 0x5b] + end);
            &&& sent(KeyCode::Up) == csi(seq![0x41u8])
            &&& sent(KeyCode::Down) == csi(seq![0x42u8])
            &&& sent(KeyCode::Right) == csi(seq![0x43u8])
            &&& sent(KeyCode::Left) == csi(seq![0x44u8])
            &&& sent(KeyCode::Home) == csi(seq![0x48u8])
            &&& sent(KeyCode::End) == csi(seq![0x46u8])
            &&& sent(KeyCode::Insert) == csi(seq![0x32u8, 0x7e])
            &&& sent(KeyCode::Delete) == csi(seq![0x33u8, 0x7e])
            &&& sent(KeyCode::PageUp) == csi(seq![0x35u8, 0x7e])
            &&& sent(KeyCode::PageDown) == csi(seq![0x36u8, 0x7e])
            &&& sent(KeyCode::Backspace) == Some(seq![0x7fu8])
            &&& sent(KeyCode::Esc) == Some(seq![0x1bu8])
            &&& !shift ==> sent(KeyCode::Enter) == Some(seq![0x0du8])
            &&& shift ==> sent(KeyCode::Enter) == csi(seq![0x31u8, 0x33, 0x3b, 0x32, 0x75])
            &&& !shift ==> sent(KeyCode::Tab) == Some(seq![0x09u8])
            &&& shift ==> sent(KeyCode::Tab) == csi(seq![0x5au8])
            &&& sent(KeyCode::Other) is None
        }),
{
    let csi = |end: Seq<u8>| seq![0x1bu8, 0x5b] + end;
    assert(csi(seq![0x41u8]) =~= seq![27u8, 91, 65]);
    assert(csi(seq![0x42u8]) =~= seq![27u8, 91, 66]);
    assert(csi(seq![0x43u8]) =~= seq![27u8, 91, 67]);
    assert(csi(seq![0x44u8]) =~= seq![27u8, 91, 68]);
    assert(csi(seq![0x48u8]) =~= seq![27u8, 91, 72]);
    assert(csi(seq![0x46u8]) =~= seq![27u8, 91, 70]);
    assert(csi(seq![0x32u8, 0x7e]) =~= seq![27u8, 91, 50, 126]);
    assert(csi(seq![0x33u8, 0x7e]) =~= seq![27u8, 91, 51, 126]);
    assert(csi(seq![0x35u8, 0x7e]) =~= seq![27u8, 91, 53, 126]);
    assert(csi(seq![0x36u8, 0x7e]) =~= seq![27u8, 91, 54, 126]);
    assert(csi(seq![0x31u8, 0x33, 0x3b, 0x32, 0x75]) =~= seq![27u8, 91, 49, 51, 59, 50, 117]);
    assert(csi(seq![0x5au8]) =~= seq![27u8, 91, 90]);
}

} // verus!
