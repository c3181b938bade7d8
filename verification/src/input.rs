//! Encoding of key presses and pasted text into the bytes a terminal
//! application expects.

use vstd::prelude::*;
use vstd::utf8::encode_utf8;

use crate::connection_form::{all_digits, digits_value, parse_u16, unsigned_digits};
use crate::text::{chars_of, string_from_range};

verus! {

/// The largest paste accepted, in bytes.
pub const MAX_PASTE_BYTES: usize = 1024 * 1024;

/// A key on the keyboard, or text produced by it.
#[derive(Clone, Copy, Debug, PartialEq, Eq)]
pub enum Key<'a> {
    Text(&'a str),
    Enter,
    Backspace,
    Tab,
    Escape,
    ArrowUp,
    ArrowDown,
    ArrowRight,
    ArrowLeft,
    Home,
    End,
    Insert,
    Delete,
    PageUp,
    PageDown,
    Function(u8),
}

/// Modifier keys held with a key.
#[derive(Clone, Copy, Debug, Default, PartialEq, Eq, Structural)]
pub struct Modifiers {
    pub control: bool,
    pub alt: bool,
    pub shift: bool,
}

/// A key press with its modifiers.
#[derive(Clone, Copy, Debug, PartialEq, Eq)]
pub struct KeyInput<'a> {
    pub key: Key<'a>,
    pub modifiers: Modifiers,
}

impl<'a> KeyInput<'a> {
    /// A key with no modifier.
    pub fn new(key: Key<'a>) -> (r: Self)
        ensures
            r.key == key,
            r.modifiers == (Modifiers { control: false, alt: false, shift: false }),
    {
        KeyInput { key, modifiers: Modifiers { control: false, alt: false, shift: false } }
    }

    /// Typed text with no modifier.
    pub fn text(text: &'a str) -> (r: Self)
        ensures
            r.key == Key::Text(text),
            r.modifiers == (Modifiers { control: false, alt: false, shift: false }),
    {
        Self::new(Key::Text(text))
    }

    /// The same input with Control held.
    pub fn control(self) -> (r: Self)
        ensures
            r.key == self.key,
            r.modifiers == (Modifiers { control: true, ..self.modifiers }),
    {
        let mut r = self;
        r.modifiers.control = true;
        r
    }

    /// The same input with Alt held.
    pub fn alt(self) -> (r: Self)
        ensures
            r.key == self.key,
            r.modifiers == (Modifiers { alt: true, ..self.modifiers }),
    {
        let mut r = self;
        r.modifiers.alt = true;
        r
    }

    /// The same input with Shift held.
    pub fn shift(self) -> (r: Self)
        ensures
            r.key == self.key,
            r.modifiers == (Modifiers { shift: true, ..self.modifiers }),
    {
        let mut r = self;
        r.modifiers.shift = true;
        r
    }
}

/// Why a paste was refused.
#[derive(Clone, Copy, Debug, PartialEq, Eq, Structural)]
pub enum PasteError {
    TooLarge,
}

impl PasteError {
    /// The user-facing description.
    pub fn message(&self) -> (r: String)
        ensures
            r@ == "paste exceeds 1 MiB"@,
    {
        String::from_str("paste exceeds 1 MiB")
    }
}

/// The terminal modes that decide how input is encoded.
#[derive(Clone, Copy, Debug, Default, PartialEq, Eq, Structural)]
pub struct InputMode {
    /// DECCKM: cursor keys send SS3 sequences.
    pub app_cursor: bool,
    /// Pasted text is framed by bracketed-paste markers.
    pub bracketed_paste: bool,
}

/// The control byte for a single-byte text under Control, if it has one.
pub open spec fn control_byte_of(bytes: Seq<u8>) -> Option<u8> {
    if bytes.len() != 1 {
        None
    } else {
        let b = bytes[0];
        if 97 <= b <= 122 {
            Some((b - 96) as u8)
        } else if 65 <= b <= 90 {
            Some((b - 64) as u8)
        } else if b == 91 {
            Some(0x1bu8)
        } else if b == 92 {
            Some(0x1cu8)
        } else if b == 93 {
            Some(0x1du8)
        } else if b == 94 {
            Some(0x1eu8)
        } else if b == 95 {
            Some(0x1fu8)
        } else {
            None
        }
    }
}

/// `ESC [ x`.
pub open spec fn csi(x: u8) -> Seq<u8> {
    seq![0x1bu8, 0x5bu8, x]
}

/// `ESC O x`.
pub open spec fn ss3(x: u8) -> Seq<u8> {
    seq![0x1bu8, 0x4fu8, x]
}

/// `ESC [ d ~`.
pub open spec fn tilde1(d: u8) -> Seq<u8> {
    seq![0x1bu8, 0x5bu8, d, 0x7eu8]
}

/// `ESC [ d1 d2 ~`.
pub open spec fn tilde2(d1: u8, d2: u8) -> Seq<u8> {
    seq![0x1bu8, 0x5bu8, d1, d2, 0x7eu8]
}

/// The sequence a non-text key sends.
pub open spec fn key_sequence_of(key: Key, shift: bool, app_cursor: bool) -> Option<Seq<u8>> {
    match key {
        Key::Text(_) => None,
        Key::Enter => Some(seq![0x0du8]),
        Key::Backspace => Some(seq![0x7fu8]),
        Key::Tab => if shift {
            Some(csi(0x5a))
        } else {
            Some(seq![0x09u8])
        },
        Key::Escape => Some(seq![0x1bu8]),
        Key::ArrowUp => Some(if app_cursor { ss3(0x41) } else { csi(0x41) }),
        Key::ArrowDown => Some(if app_cursor { ss3(0x42) } else { csi(0x42) }),
        Key::ArrowRight => Some(if app_cursor { ss3(0x43) } else { csi(0x43) }),
        Key::ArrowLeft => Some(if app_cursor { ss3(0x44) } else { csi(0x44) }),
        Key::Home => Some(if app_cursor { ss3(0x48) } else { csi(0x48) }),
        Key::End => Some(if app_cursor { ss3(0x46) } else { csi(0x46) }),
        Key::Insert => Some(tilde1(0x32)),
        Key::Delete => Some(tilde1(0x33)),
        Key::PageUp => Some(tilde1(0x35)),
        Key::PageDown => Some(tilde1(0x36)),
        Key::Function(n) => if n == 1 {
            Some(ss3(0x50))
        } else if n == 2 {
            Some(ss3(0x51))
        } else if n == 3 {
            Some(ss3(0x52))
        } else if n == 4 {
            Some(ss3(0x53))
        } else if n == 5 {
            Some(tilde2(0x31, 0x35))
        } else if n == 6 {
            Some(tilde2(0x31, 0x37))
        } else if n == 7 {
            Some(tilde2(0x31, 0x38))
        } else if n == 8 {
            Some(tilde2(0x31, 0x39))
        } else if n == 9 {
            Some(tilde2(0x32, 0x30))
        } else if n == 10 {
            Some(tilde2(0x32, 0x31))
        } else if n == 11 {
            Some(tilde2(0x32, 0x33))
        } else if n == 12 {
            Some(tilde2(0x32, 0x34))
        } else {
            None
        },
    }
}

/// The bytes sent for a key press: an ESC prefix under Alt, then the text
/// (or its control byte under Control) or the key's sequence; nothing at
/// all when the key has no encoding.
pub open spec fn encoded_input(input: KeyInput, mode: InputMode) -> Seq<u8> {
    let prefix: Seq<u8> = if input.modifiers.alt {
        seq![0x1bu8]
    } else {
        seq![]
    };
    match input.key {
        Key::Text(t) => if input.modifiers.control {
            match control_byte_of(encode_utf8(t@)) {
                Some(b) => prefix.push(b),
                None => seq![],
            }
        } else {
            prefix + encode_utf8(t@)
        },
        k => match key_sequence_of(k, input.modifiers.shift, mode.app_cursor) {
            Some(s) => prefix + s,
            None => seq![],
        },
    }
}

/// The control byte for text typed with Control held.
fn control_byte(text: &str) -> (r: Option<u8>)
    ensures
        r == control_byte_of(encode_utf8(text@)),
{
    let bytes = text.as_bytes();
    if bytes.len() != 1 {
        return None;
    }
    let b = bytes[0];
    if 97 <= b && b <= 122 {
        Some(b - 96)
    } else if 65 <= b && b <= 90 {
        Some(b - 64)
    } else if b == 91 {
        Some(0x1b)
    } else if b == 92 {
        Some(0x1c)
    } else if b == 93 {
        Some(0x1d)
    } else if b == 94 {
        Some(0x1e)
    } else if b == 95 {
        Some(0x1f)
    } else {
        None
    }
}

/// The escape sequence of a non-text key.
fn key_sequence(key: Key, shift: bool, app_cursor: bool) -> (r: Option<Vec<u8>>)
    ensures
        match r {
            Some(v) => key_sequence_of(key, shift, app_cursor) == Some(v@),
            None => key_sequence_of(key, shift, app_cursor) is None,
        },
{
    let r = match key {
        Key::Text(_) => None,
        Key::Enter => Some(vec![0x0du8]),
        Key::Backspace => Some(vec![0x7fu8]),
        Key::Tab => if shift {
            Some(vec![0x1bu8, 0x5b, 0x5a])
        } else {
            Some(vec![0x09u8])
        },
        Key::Escape => Some(vec![0x1bu8]),
        Key::ArrowUp => Some(cursor_key(0x41, app_cursor)),
        Key::ArrowDown => Some(cursor_key(0x42, app_cursor)),
        Key::ArrowRight => Some(cursor_key(0x43, app_cursor)),
        Key::ArrowLeft => Some(cursor_key(0x44, app_cursor)),
        Key::Home => Some(cursor_key(0x48, app_cursor)),
        Key::End => Some(cursor_key(0x46, app_cursor)),
        Key::Insert => Some(vec![0x1bu8, 0x5b, 0x32, 0x7e]),
        Key::Delete => Some(vec![0x1bu8, 0x5b, 0x33, 0x7e]),
        Key::PageUp => Some(vec![0x1bu8, 0x5b, 0x35, 0x7e]),
        Key::PageDown => Some(vec![0x1bu8, 0x5b, 0x36, 0x7e]),
        Key::Function(n) => if n == 1 {
            Some(vec![0x1bu8, 0x4f, 0x50])
        } else if n == 2 {
            Some(vec![0x1bu8, 0x4f, 0x51])
        } else if n == 3 {
            Some(vec![0x1bu8, 0x4f, 0x52])
        } else if n == 4 {
            Some(vec![0x1bu8, 0x4f, 0x53])
        } else if n == 5 {
            Some(vec![0x1bu8, 0x5b, 0x31, 0x35, 0x7e])
        } else if n == 6 {
            Some(vec![0x1bu8, 0x5b, 0x31, 0x37, 0x7e])
        } else if n == 7 {
            Some(vec![0x1bu8, 0x5b, 0x31, 0x38, 0x7e])
        } else if n == 8 {
            Some(vec![0x1bu8, 0x5b, 0x31, 0x39, 0x7e])
        } else if n == 9 {
            Some(vec![0x1bu8, 0x5b, 0x32, 0x30, 0x7e])
        } else if n == 10 {
            Some(vec![0x1bu8, 0x5b, 0x32, 0x31, 0x7e])
        } else if n == 11 {
            Some(vec![0x1bu8, 0x5b, 0x32, 0x33, 0x7e])
        } else if n == 12 {
            Some(vec![0x1bu8, 0x5b, 0x32, 0x34, 0x7e])
        } else {
            None
        },
    };
    proof {
        if r is Some {
            assert(key_sequence_of(key, shift, app_cursor)->Some_0 =~= r->Some_0@);
        }
    }
    r
}

/// `ESC O x` in application cursor mode, `ESC [ x` otherwise.
fn cursor_key(x: u8, app_cursor: bool) -> (r: Vec<u8>)
    ensures
        r@ == if app_cursor { ss3(x) } else { csi(x) },
{
    let r = if app_cursor {
        vec![0x1bu8, 0x4f, x]
    } else {
        vec![0x1bu8, 0x5b, x]
    };
    assert(r@ =~= if app_cursor { ss3(x) } else { csi(x) });
    r
}

/// Appends `extra` to `out`.
fn extend(out: &mut Vec<u8>, extra: &[u8])
    ensures
        final(out)@ == old(out)@ + extra@,
{
    let mut i: usize = 0;
    while i < extra.len()
        invariant
            i <= extra@.len(),
            out@ == old(out)@ + extra@.take(i as int),
        decreases extra.len() - i,
    {
        out.push(extra[i]);
        i = i + 1;
        assert(out@ =~= old(out)@ + extra@.take(i as int));
    }
    assert(extra@.take(extra@.len() as int) =~= extra@);
}

/// Byte that ends a line in the pasted text: LF in bracketed mode, CR
/// otherwise.
pub open spec fn paste_newline(bracketed: bool) -> u8 {
    if bracketed {
        10u8
    } else {
        13u8
    }
}

/// The pasted bytes after filtering: NUL and ESC dropped, CR LF, CR and LF
/// each turned into one line end.
pub open spec fn paste_body(b: Seq<u8>, bracketed: bool) -> Seq<u8>
    decreases b.len(),
{
    if b.len() == 0 {
        seq![]
    } else if b[0] == 0 || b[0] == 0x1b {
        paste_body(b.drop_first(), bracketed)
    } else if b[0] == 13 {
        if b.len() > 1 && b[1] == 10 {
            seq![paste_newline(bracketed)] + paste_body(b.subrange(2, b.len() as int), bracketed)
        } else {
            seq![paste_newline(bracketed)] + paste_body(b.drop_first(), bracketed)
        }
    } else if b[0] == 10 {
        seq![paste_newline(bracketed)] + paste_body(b.drop_first(), bracketed)
    } else {
        seq![b[0]] + paste_body(b.drop_first(), bracketed)
    }
}

/// `ESC [ 200 ~`, which opens a bracketed paste.
pub open spec fn paste_start() -> Seq<u8> {
    seq![0x1bu8, 0x5bu8, 0x32u8, 0x30u8, 0x30u8, 0x7eu8]
}

/// `ESC [ 201 ~`, which closes a bracketed paste.
pub open spec fn paste_end() -> Seq<u8> {
    seq![0x1bu8, 0x5bu8, 0x32u8, 0x30u8, 0x31u8, 0x7eu8]
}

/// The bytes sent for a paste.
pub open spec fn pasted_bytes(text: Seq<char>, bracketed: bool) -> Seq<u8> {
    if bracketed {
        paste_start() + paste_body(encode_utf8(text), true) + paste_end()
    } else {
        paste_body(encode_utf8(text), false)
    }
}

/// Encodes key presses and pastes.
pub struct InputEncoder;

impl InputEncoder {
    /// The bytes a key press sends to the remote side.
    pub fn encode(input: KeyInput, mode: InputMode) -> (r: Vec<u8>)
        ensures
            r@ == encoded_input(input, mode),
    {
        let mut encoded: Vec<u8> = Vec::new();
        if input.modifiers.alt {
            encoded.push(0x1b);
        }
        let ghost prefix = encoded@;
        match input.key {
            Key::Text(text) => {
                if input.modifiers.control {
                    match control_byte(text) {
                        Some(byte) => {
                            encoded.push(byte);
                        },
                        None => {
                            encoded = Vec::new();
                        },
                    }
                } else {
                    extend(&mut encoded, text.as_bytes());
                }
            },
            key => {
                match key_sequence(key, input.modifiers.shift, mode.app_cursor) {
                    Some(sequence) => {
                        extend(&mut encoded, sequence.as_slice());
                    },
                    None => {
                        encoded = Vec::new();
                    },
                }
            },
        }
        proof {
            assert(encoded@ =~= encoded_input(input, mode));
        }
        encoded
    }

    /// The bytes a paste sends: at most `MAX_PASTE_BYTES` bytes of text,
    /// filtered, and framed by the bracketed-paste markers when that mode
    /// is on.
    pub fn paste(text: &str, mode: InputMode) -> (r: Result<Vec<u8>, PasteError>)
        ensures
            encode_utf8(text@).len() > MAX_PASTE_BYTES ==> r == Err::<Vec<u8>, PasteError>(
                PasteError::TooLarge,
            ),
            encode_utf8(text@).len() <= MAX_PASTE_BYTES ==> (r matches Ok(v) && v@ == pasted_bytes(
                text@,
                mode.bracketed_paste,
            )),
    {
        let bytes = text.as_bytes();
        if bytes.len() > MAX_PASTE_BYTES {
            return Err(PasteError::TooLarge);
        }
        let bracketed = mode.bracketed_paste;
        let newline: u8 = if bracketed {
            10
        } else {
            13
        };
        let mut output: Vec<u8> = Vec::new();
        if bracketed {
            let start = vec![0x1bu8, 0x5b, 0x32, 0x30, 0x30, 0x7e];
            extend(&mut output, start.as_slice());
            assert(start@ =~= paste_start());
        }
        let ghost head = output@;
        let n = bytes.len();
        let mut index: usize = 0;
        assert(bytes@.subrange(0, n as int) =~= bytes@);
        while index < n
            invariant
                n == bytes@.len(),
                index <= n,
                newline == paste_newline(bracketed),
                head + paste_body(bytes@, bracketed) == output@ + paste_body(
                    bytes@.subrange(index as int, n as int),
                    bracketed,
                ),
            decreases n - index,
        {
            let ghost rest = bytes@.subrange(index as int, n as int);
            let byte = bytes[index];
            if byte == 0 || byte == 0x1b {
                assert(rest.drop_first() =~= bytes@.subrange(index + 1, n as int));
            } else if byte == 13 {
                output.push(newline);
                if index + 1 < n && bytes[index + 1] == 10 {
                    assert(rest.subrange(2, rest.len() as int) =~= bytes@.subrange(index + 2, n as int));
                    index = index + 1;
                } else {
                    assert(rest.drop_first() =~= bytes@.subrange(index + 1, n as int));
                }
            } else if byte == 10 {
                output.push(newline);
                assert(rest.drop_first() =~= bytes@.subrange(index + 1, n as int));
            } else {
                output.push(byte);
                assert(rest.drop_first() =~= bytes@.subrange(index + 1, n as int));
            }
            index = index + 1;
        }
        assert(bytes@.subrange(n as int, n as int) =~= Seq::<u8>::empty());
        if bracketed {
            let end = vec![0x1bu8, 0x5b, 0x32, 0x30, 0x31, 0x7e];
            extend(&mut output, end.as_slice());
            assert(end@ =~= paste_end());
        }
        proof {
            assert(output@ =~= pasted_bytes(text@, bracketed));
        }
        Ok(output)
    }
}


/// Pasted text never carries NUL or ESC, and its line ends are uniform:
/// only LF in bracketed mode, only CR otherwise.
pub proof fn law_paste_body_is_filtered(b: Seq<u8>, bracketed: bool)
    ensures
        forall|i: int|
            0 <= i < paste_body(b, bracketed).len() ==> {
                let x = #[trigger] paste_body(b, bracketed)[i];
                &&& x != 0
                &&& x != 0x1b
                &&& bracketed ==> x != 13
                &&& !bracketed ==> x != 10
            },
    decreases b.len(),
{
    if b.len() > 0 {
        law_paste_body_is_filtered(b.drop_first(), bracketed);
        if b.len() > 1 {
            law_paste_body_is_filtered(b.subrange(2, b.len() as int), bracketed);
        }
        let body = paste_body(b, bracketed);
        assert forall|i: int| 0 <= i < body.len() implies {
            let x = #[trigger] body[i];
            &&& x != 0
            &&& x != 0x1b
            &&& bracketed ==> x != 13
            &&& !bracketed ==> x != 10
        } by {
            if b[0] == 0 || b[0] == 0x1b {
            } else if b[0] == 13 && b.len() > 1 && b[1] == 10 {
                if i > 0 {
                    assert(body[i] == paste_body(b.subrange(2, b.len() as int), bracketed)[i - 1]);
                }
            } else {
                if i > 0 {
                    assert(body[i] == paste_body(b.drop_first(), bracketed)[i - 1]);
                }
            }
        }
    }
}

/// `str::parse::<u8>`: an optional `+`, then one or more decimal digits
/// whose value fits in a byte.
pub open spec fn parsed_u8(s: Seq<char>) -> Option<u8> {
    let d = unsigned_digits(s);
    if d.len() > 0 && all_digits(d) && digits_value(d) <= 255 {
        Some(digits_value(d) as u8)
    } else {
        None
    }
}

/// Parses a byte as `str::parse::<u8>` does.
pub fn parse_u8(text: &str) -> (r: Option<u8>)
    ensures
        r == parsed_u8(text@),
{
    match parse_u16(text) {
        Some(v) => if v <= 255 {
            Some(v as u8)
        } else {
            None
        },
        None => None,
    }
}

/// Whether two texts are the same.
fn same_text(a: &str, b: &str) -> (r: bool)
    ensures
        r == (a@ == b@),
{
    let x = chars_of(a);
    let y = chars_of(b);
    if x.len() != y.len() {
        return false;
    }
    let mut i: usize = 0;
    while i < x.len()
        invariant
            x@ == a@,
            y@ == b@,
            x@.len() == y@.len(),
            i <= x@.len(),
            forall|k: int| 0 <= k < i ==> x@[k] == y@[k],
        decreases x.len() - i,
    {
        if x[i] != y[i] {
            return false;
        }
        i = i + 1;
    }
    assert(a@ =~= b@);
    true
}

/// The terminal key a key press names: editing and cursor keys by their
/// names, `f` and a number a function key (a name starting with `f` that
/// is not one names nothing), and any other key the text it types, if it
/// types one.
pub open spec fn named_key<'a>(name: Seq<char>, typed: Option<&'a str>) -> Option<Key<'a>> {
    if name == "enter"@ {
        Some(Key::Enter)
    } else if name == "backspace"@ {
        Some(Key::Backspace)
    } else if name == "tab"@ {
        Some(Key::Tab)
    } else if name == "escape"@ {
        Some(Key::Escape)
    } else if name == "up"@ {
        Some(Key::ArrowUp)
    } else if name == "down"@ {
        Some(Key::ArrowDown)
    } else if name == "right"@ {
        Some(Key::ArrowRight)
    } else if name == "left"@ {
        Some(Key::ArrowLeft)
    } else if name == "home"@ {
        Some(Key::Home)
    } else if name == "end"@ {
        Some(Key::End)
    } else if name == "insert"@ {
        Some(Key::Insert)
    } else if name == "delete"@ {
        Some(Key::Delete)
    } else if name == "pageup"@ {
        Some(Key::PageUp)
    } else if name == "pagedown"@ {
        Some(Key::PageDown)
    } else if name.len() > 0 && name[0] == 'f' {
        match parsed_u8(name.drop_first()) {
            Some(n) => Some(Key::Function(n)),
            None => None,
        }
    } else {
        match typed {
            Some(t) => Some(Key::Text(t)),
            None => None,
        }
    }
}

/// The key input of a key press: the key its name (or the text it types)
/// stands for, with the modifiers held.
pub fn key_input_for<'a>(name: &str, typed: Option<&'a str>, modifiers: Modifiers) -> (r: Option<KeyInput<'a>>)
    ensures
        r == match named_key(name@, typed) {
            Some(key) => Some(KeyInput { key, modifiers }),
            None => None,
        },
{
    let key = if same_text(name, "enter") {
        Key::Enter
    } else if same_text(name, "backspace") {
        Key::Backspace
    } else if same_text(name, "tab") {
        Key::Tab
    } else if same_text(name, "escape") {
        Key::Escape
    } else if same_text(name, "up") {
        Key::ArrowUp
    } else if same_text(name, "down") {
        Key::ArrowDown
    } else if same_text(name, "right") {
        Key::ArrowRight
    } else if same_text(name, "left") {
        Key::ArrowLeft
    } else if same_text(name, "home") {
        Key::Home
    } else if same_text(name, "end") {
        Key::End
    } else if same_text(name, "insert") {
        Key::Insert
    } else if same_text(name, "delete") {
        Key::Delete
    } else if same_text(name, "pageup") {
        Key::PageUp
    } else if same_text(name, "pagedown") {
        Key::PageDown
    } else {
        let chars = chars_of(name);
        if chars.len() > 0 && chars[0] == 'f' {
            let rest = string_from_range(&chars, 1, chars.len());
            assert(rest@ =~= name@.drop_first());
            match parse_u8(rest.as_str()) {
                Some(n) => Key::Function(n),
                None => {
                    return None;
                },
            }
        } else {
            match typed {
                Some(t) => Key::Text(t),
                None => {
                    return None;
                },
            }
        }
    };
    Some(KeyInput { key, modifiers })
}

/// The xterm sequence of function key F`n` (1 to 12): `ESC O P` to
/// `ESC O S` for F1 to F4, `ESC [ 15 ~`, `17`, `18`, `19`, `20`, `21`,
/// `23`, `24` `~` for F5 to F12.
pub open spec fn xterm_function_key(n: int) -> Seq<u8> {
    if n == 1 {
        seq![27u8, 79, 80]
    } else if n == 2 {
        seq![27u8, 79, 81]
    } else if n == 3 {
        seq![27u8, 79, 82]
    } else if n == 4 {
        seq![27u8, 79, 83]
    } else if n == 5 {
        seq![27u8, 91, 49, 53, 126]
    } else if n == 6 {
        seq![27u8, 91, 49, 55, 126]
    } else if n == 7 {
        seq![27u8, 91, 49, 56, 126]
    } else if n == 8 {
        seq![27u8, 91, 49, 57, 126]
    } else if n == 9 {
        seq![27u8, 91, 50, 48, 126]
    } else if n == 10 {
        seq![27u8, 91, 50, 49, 126]
    } else if n == 11 {
        seq![27u8, 91, 50, 51, 126]
    } else {
        seq![27u8, 91, 50, 52, 126]
    }
}

/// Function key F`n` pressed with `modifiers`.
pub open spec fn function_key(n: u8, modifiers: Modifiers) -> KeyInput<'static> {
    KeyInput { key: Key::Function(n), modifiers }
}

/// The xterm sequences of F1 to F12 differ from one another.
proof fn lemma_function_key_sequences_differ(a: int, b: int)
    requires
        1 <= a <= 12,
        1 <= b <= 12,
        a != b,
    ensures
        xterm_function_key(a) != xterm_function_key(b),
{
    let x = xterm_function_key(a);
    let y = xterm_function_key(b);
    if x.len() == y.len() {
        if x.len() == 3 {
            assert(x[2] != y[2]);
        } else {
            assert(x[2] != y[2] || x[3] != y[3]);
        }
    }
}

/// Each function key F1 to F12 sends its own xterm sequence, whatever the
/// cursor mode and Shift, behind an ESC under Alt (F6, for one, sends
/// `ESC [ 1 7 ~`); two different function keys never send the same bytes;
/// keys past F12 send nothing.
pub proof fn law_function_keys_send_their_own_sequence(a: u8, b: u8, modifiers: Modifiers, mode: InputMode)
    ensures
        1 <= a <= 12 ==> encoded_input(function_key(a, modifiers), mode) == (if modifiers.alt {
            seq![27u8]
        } else {
            Seq::<u8>::empty()
        }) + xterm_function_key(a as int),
        1 <= a <= 12 && 1 <= b <= 12 && a != b ==> encoded_input(function_key(a, modifiers), mode)
            != encoded_input(function_key(b, modifiers), mode),
        a == 0 || a > 12 ==> encoded_input(function_key(a, modifiers), mode).len() == 0,
        !modifiers.alt ==> encoded_input(function_key(6, modifiers), mode) == seq![27u8, 91, 49, 55, 126],
{
    let p: Seq<u8> = if modifiers.alt {
        seq![27u8]
    } else {
        Seq::<u8>::empty()
    };
    assert forall|n: u8| 1 <= n <= 12 implies #[trigger] encoded_input(function_key(n, modifiers), mode)
        == p + xterm_function_key(n as int) by {
        assert(encoded_input(function_key(n, modifiers), mode) =~= p + xterm_function_key(n as int));
    }
    assert(encoded_input(function_key(6, modifiers), mode) == p + xterm_function_key(6));
    if 1 <= a <= 12 && 1 <= b <= 12 && a != b {
        let x = p + xterm_function_key(a as int);
        let y = p + xterm_function_key(b as int);
        assert(encoded_input(function_key(a, modifiers), mode) == x);
        assert(encoded_input(function_key(b, modifiers), mode) == y);
        lemma_function_key_sequences_differ(a as int, b as int);
        if x == y {
            assert(x.subrange(p.len() as int, x.len() as int) =~= xterm_function_key(a as int));
            assert(y.subrange(p.len() as int, y.len() as int) =~= xterm_function_key(b as int));
        }
    }
}

/// `b` without NUL, ESC, CR and LF: the bytes a paste passes on as they are.
pub open spec fn plain_bytes(b: Seq<u8>) -> Seq<u8>
    decreases b.len(),
{
    if b.len() == 0 {
        b
    } else if b[0] == 0 || b[0] == 27 || b[0] == 13 || b[0] == 10 {
        plain_bytes(b.drop_first())
    } else {
        seq![b[0]] + plain_bytes(b.drop_first())
    }
}

proof fn lemma_plain_bytes_cons(x: u8, rest: Seq<u8>)
    ensures
        plain_bytes(seq![x] + rest) == (if x == 0 || x == 27 || x == 13 || x == 10 {
            plain_bytes(rest)
        } else {
            seq![x] + plain_bytes(rest)
        }),
{
    assert((seq![x] + rest).drop_first() =~= rest);
    assert((seq![x] + rest)[0] == x);
}

/// Every pasted byte other than NUL, ESC, CR and LF is sent unchanged and
/// in order: apart from the line ends it puts in, the paste body carries
/// exactly the pasted text's other bytes.
pub proof fn law_paste_keeps_plain_bytes(b: Seq<u8>, bracketed: bool)
    ensures
        plain_bytes(paste_body(b, bracketed)) == plain_bytes(b),
    decreases b.len(),
{
    if b.len() > 0 {
        let n = paste_newline(bracketed);
        law_paste_keeps_plain_bytes(b.drop_first(), bracketed);
        if b[0] == 0 || b[0] == 0x1b {
        } else if b[0] == 13 {
            if b.len() > 1 && b[1] == 10 {
                let rest = b.subrange(2, b.len() as int);
                assert(rest =~= b.drop_first().drop_first());
                law_paste_keeps_plain_bytes(rest, bracketed);
                lemma_plain_bytes_cons(n, paste_body(rest, bracketed));
                assert(plain_bytes(b.drop_first()) == plain_bytes(rest));
            } else {
                lemma_plain_bytes_cons(n, paste_body(b.drop_first(), bracketed));
            }
        } else if b[0] == 10 {
            lemma_plain_bytes_cons(n, paste_body(b.drop_first(), bracketed));
        } else {
            lemma_plain_bytes_cons(b[0], paste_body(b.drop_first(), bracketed));
        }
    }
}

/// A key pressed with no modifier.
pub open spec fn plain_key(key: Key) -> KeyInput {
    KeyInput { key, modifiers: Modifiers { control: false, alt: false, shift: false } }
}

/// The keys other than text and function keys send what an xterm sends:
/// CR for Enter, DEL for Backspace, HT for Tab (`ESC [ Z` with Shift), ESC
/// for Escape; the arrows, Home and End send `ESC [ x` (`ESC O x` in
/// application cursor mode) with x = A, B, C, D, H, F; Insert, Delete,
/// Page Up and Page Down send `ESC [ 2 ~`, `3`, `5`, `6` `~`.
pub proof fn law_named_keys_send_xterm_sequences(mode: InputMode)
    ensures
        encoded_input(plain_key(Key::Enter), mode) == seq![13u8],
        encoded_input(plain_key(Key::Backspace), mode) == seq![127u8],
        encoded_input(plain_key(Key::Tab), mode) == seq![9u8],
        encoded_input(
            KeyInput { key: Key::Tab, modifiers: Modifiers { control: false, alt: false, shift: true } },
            mode,
        ) == seq![27u8, 91, 90],
        encoded_input(plain_key(Key::Escape), mode) == seq![27u8],
        encoded_input(plain_key(Key::ArrowUp), mode) == seq![27u8, if mode.app_cursor { 79u8 } else { 91u8 }, 65],
        encoded_input(plain_key(Key::ArrowDown), mode) == seq![27u8, if mode.app_cursor { 79u8 } else { 91u8 }, 66],
        encoded_input(plain_key(Key::ArrowRight), mode) == seq![27u8, if mode.app_cursor { 79u8 } else { 91u8 }, 67],
        encoded_input(plain_key(Key::ArrowLeft), mode) == seq![27u8, if mode.app_cursor { 79u8 } else { 91u8 }, 68],
        encoded_input(plain_key(Key::Home), mode) == seq![27u8, if mode.app_cursor { 79u8 } else { 91u8 }, 72],
        encoded_input(plain_key(Key::End), mode) == seq![27u8, if mode.app_cursor { 79u8 } else { 91u8 }, 70],
        encoded_input(plain_key(Key::Insert), mode) == seq![27u8, 91, 50, 126],
        encoded_input(plain_key(Key::Delete), mode) == seq![27u8, 91, 51, 126],
        encoded_input(plain_key(Key::PageUp), mode) == seq![27u8, 91, 53, 126],
        encoded_input(plain_key(Key::PageDown), mode) == seq![27u8, 91, 54, 126],
{
    assert(encoded_input(plain_key(Key::Enter), mode) =~= seq![13u8]);
    assert(encoded_input(plain_key(Key::Backspace), mode) =~= seq![127u8]);
    assert(encoded_input(plain_key(Key::Tab), mode) =~= seq![9u8]);
    assert(encoded_input(
        KeyInput { key: Key::Tab, modifiers: Modifiers { control: false, alt: false, shift: true } },
        mode,
    ) =~= seq![27u8, 91, 90]);
    assert(encoded_input(plain_key(Key::Escape), mode) =~= seq![27u8]);
    assert(encoded_input(plain_key(Key::ArrowUp), mode) =~= seq![27u8, if mode.app_cursor { 79u8 } else { 91u8 }, 65]);
    assert(encoded_input(plain_key(Key::ArrowDown), mode) =~= seq![27u8, if mode.app_cursor { 79u8 } else { 91u8 }, 66]);
    assert(encoded_input(plain_key(Key::ArrowRight), mode) =~= seq![27u8, if mode.app_cursor { 79u8 } else { 91u8 }, 67]);
    assert(encoded_input(plain_key(Key::ArrowLeft), mode) =~= seq![27u8, if mode.app_cursor { 79u8 } else { 91u8 }, 68]);
    assert(encoded_input(plain_key(Key::Home), mode) =~= seq![27u8, if mode.app_cursor { 79u8 } else { 91u8 }, 72]);
    assert(encoded_input(plain_key(Key::End), mode) =~= seq![27u8, if mode.app_cursor { 79u8 } else { 91u8 }, 70]);
    assert(encoded_input(plain_key(Key::Insert), mode) =~= seq![27u8, 91, 50, 126]);
    assert(encoded_input(plain_key(Key::Delete), mode) =~= seq![27u8, 91, 51, 126]);
    assert(encoded_input(plain_key(Key::PageUp), mode) =~= seq![27u8, 91, 53, 126]);
    assert(encoded_input(plain_key(Key::PageDown), mode) =~= seq![27u8, 91, 54, 126]);
}

/// Control with a letter sends that letter's control code (its code with
/// the upper three bits cleared, the same for upper and lower case), and
/// Alt puts one ESC in front of whatever the key sends on its own.
pub proof fn law_control_and_alt(text: &str, key: Key, shift: bool, control: bool, mode: InputMode)
    ensures
        ({
            let b = encode_utf8(text@);
            b.len() == 1 && (65 <= b[0] <= 90 || 97 <= b[0] <= 122) ==> encoded_input(
                KeyInput { key: Key::Text(text), modifiers: Modifiers { control: true, alt: false, shift } },
                mode,
            ) == seq![(b[0] & 31u8) as u8]
        }),
        encoded_input(KeyInput { key, modifiers: Modifiers { control, alt: false, shift } }, mode).len() > 0
            ==> encoded_input(KeyInput { key, modifiers: Modifiers { control, alt: true, shift } }, mode) == seq![27u8]
            + encoded_input(KeyInput { key, modifiers: Modifiers { control, alt: false, shift } }, mode),
{
    let b = encode_utf8(text@);
    if b.len() == 1 && (65 <= b[0] <= 90 || 97 <= b[0] <= 122) {
        let x = b[0];
        assert(97 <= x <= 122 ==> (x & 31u8) == x - 96) by (bit_vector);
        assert(65 <= x <= 90 ==> (x & 31u8) == x - 64) by (bit_vector);
        assert(encoded_input(
            KeyInput { key: Key::Text(text), modifiers: Modifiers { control: true, alt: false, shift } },
            mode,
        ) =~= seq![(x & 31u8) as u8]);
    }
    let with = KeyInput { key, modifiers: Modifiers { control, alt: true, shift } };
    let without = KeyInput { key, modifiers: Modifiers { control, alt: false, shift } };
    match key {
        Key::Text(t) => {
            if control {
                assert(encoded_input(with, mode) =~= (if encoded_input(without, mode).len() == 0 {
                    Seq::<u8>::empty()
                } else {
                    seq![27u8] + encoded_input(without, mode)
                }));
            } else {
                assert(encoded_input(without, mode) =~= encode_utf8(t@));
                if encode_utf8(t@).len() == 0 {
                    assert(encoded_input(with, mode) =~= seq![27u8]);
                }
                assert(encoded_input(with, mode) =~= seq![27u8] + encode_utf8(t@));
            }
        },
        _ => {
            assert(encoded_input(with, mode) =~= (if encoded_input(without, mode).len() == 0 {
                Seq::<u8>::empty()
            } else {
                seq![27u8] + encoded_input(without, mode)
            }));
        },
    }
}

} // verus!
