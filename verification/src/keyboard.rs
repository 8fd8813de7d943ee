//! Keyboard input of a terminal: from a key press to the bytes that are
//! sent to the program that runs in the terminal.
use termwiz::input::{KeyCode, KeyCodeEncodeModes, KeyboardEncoding, Modifiers};
use vstd::prelude::*;

verus! {

/// `termwiz::input::KeyCode`: a key of the keyboard.
#[verifier::external_type_specification]
pub struct ExKeyCode(KeyCode);

/// `termwiz::input::KeyboardEncoding`: the scheme by which keys are encoded.
#[verifier::external_type_specification]
pub struct ExKeyboardEncoding(KeyboardEncoding);

/// `termwiz::Error`, which the encoder of termwiz returns where it fails.
#[verifier::external_type_specification]
#[verifier::external_body]
pub struct ExTermwizError(termwiz::Error);

/// The modifier keys that are held while a key is pressed.
#[derive(Clone, Copy, Debug, PartialEq, Eq, Structural)]
pub struct KeyModifiers {
    pub shift: bool,
    pub alt: bool,
    pub ctrl: bool,
    pub super_key: bool,
    pub leader: bool,
}

impl KeyModifiers {
    /// The modifiers as the bit set of `termwiz::input::Modifiers`.
    pub open spec fn spec_bits(self) -> u8 {
        ((if self.shift { 2int } else { 0 }) + (if self.alt { 4int } else { 0 }) + (if self.ctrl {
            8int
        } else {
            0
        }) + (if self.super_key { 16int } else { 0 }) + (if self.leader { 32int } else { 0 })) as u8
    }

    pub open spec fn spec_is_empty(self) -> bool {
        !self.shift && !self.alt && !self.ctrl && !self.super_key && !self.leader
    }

    /// No modifier is held.
    pub fn none() -> (m: KeyModifiers)
        ensures
            m.spec_is_empty(),
    {
        KeyModifiers { shift: false, alt: false, ctrl: false, super_key: false, leader: false }
    }

    pub fn is_empty(&self) -> (r: bool)
        ensures
            r == self.spec_is_empty(),
            r == (self.spec_bits() == 0),
    {
        !self.shift && !self.alt && !self.ctrl && !self.super_key && !self.leader
    }

    /// The modifiers as the bit set of `termwiz::input::Modifiers`.
    pub fn bits(&self) -> (b: u8)
        ensures
            b == self.spec_bits(),
    {
        let mut b: u8 = 0;
        if self.shift {
            b = b + 2;
        }
        if self.alt {
            b = b + 4;
        }
        if self.ctrl {
            b = b + 8;
        }
        if self.super_key {
            b = b + 16;
        }
        if self.leader {
            b = b + 32;
        }
        b
    }
}

/// Why a key press has no encoding.
#[derive(Clone, Copy, Debug, PartialEq, Eq, Structural)]
pub enum KeyError {
    /// Function keys are numbered from 1 to 12; this one is not.
    UnhandledFunctionKey(u8),
}

/// The key has an encoding: every key but a function key whose number is
/// not one of 1 to 12.
pub open spec fn encodable(key: KeyCode) -> bool {
    key matches KeyCode::Function(n) ==> 1 <= n <= 12
}

/// The characters that termwiz encodes a key press as, where the key is
/// encodable: a function of the key, the modifier bits, the encoding
/// scheme and the two modes.
pub uninterp spec fn key_encoding(
    key: KeyCode,
    modifier_bits: u8,
    encoding: KeyboardEncoding,
    newline_mode: bool,
    application_cursor_keys: bool,
) -> Seq<char>;

/// `termwiz::input::KeyCode::encode`, with the modifiers given as the bits
/// of a `termwiz::input::Modifiers`.  It fails exactly on function keys
/// that it has no sequence for, and else returns the encoding.  It panics
/// on the function key 0 without modifiers, which the precondition
/// excludes.
#[verifier::external_body]
fn encode_key(
    key: KeyCode,
    modifier_bits: u8,
    encoding: KeyboardEncoding,
    newline_mode: bool,
    application_cursor_keys: bool,
) -> (r: Result<String, termwiz::Error>)
    requires
        modifier_bits & 0xc1 == 0,
        !(key == KeyCode::Function(0) && modifier_bits == 0),
    ensures
        r is Ok <==> encodable(key),
        r matches Ok(s) ==> s@ == key_encoding(
            key,
            modifier_bits,
            encoding,
            newline_mode,
            application_cursor_keys,
        ),
{
    let modes = KeyCodeEncodeModes { encoding, newline_mode, application_cursor_keys };
    key.encode(Modifiers::from_bits_truncate(modifier_bits), modes)
}

/// Every set of modifiers is a valid bit set of termwiz.
proof fn lemma_modifier_bits(m: KeyModifiers)
    ensures
        m.spec_bits() & 0xc1 == 0,
        m.spec_bits() == 0 <==> m.spec_is_empty(),
{
    let b = m.spec_bits();
    assert(b == 0 || b == 2 || b == 4 || b == 6 || b == 8 || b == 10 || b == 12 || b == 14 || b == 16
        || b == 18 || b == 20 || b == 22 || b == 24 || b == 26 || b == 28 || b == 30 || b == 32 || b
        == 34 || b == 36 || b == 38 || b == 40 || b == 42 || b == 44 || b == 46 || b == 48 || b == 50
        || b == 52 || b == 54 || b == 56 || b == 58 || b == 60 || b == 62);
    assert(b % 2 == 0 && b <= 62 ==> b & 0xc1 == 0) by (bit_vector);
}

/// The keyboard side of a terminal's state.
#[derive(Debug)]
pub struct TerminalState {
    keyboard_encoding: KeyboardEncoding,
    newline_mode: bool,
    application_cursor_keys: bool,
    enable_csi_u_key_encoding: bool,
}

impl TerminalState {
    /// A terminal in the xterm encoding, with both modes off.
    /// `enable_csi_u_key_encoding` is the user's configuration.
    pub fn new(enable_csi_u_key_encoding: bool) -> (t: TerminalState)
        ensures
            t.keyboard_encoding() == KeyboardEncoding::Xterm,
            !t.newline_mode(),
            !t.application_cursor_keys(),
            t.csi_u_enabled() == enable_csi_u_key_encoding,
    {
        TerminalState {
            keyboard_encoding: KeyboardEncoding::Xterm,
            newline_mode: false,
            application_cursor_keys: false,
            enable_csi_u_key_encoding,
        }
    }

    /// The encoding that the program in the terminal asked for.
    pub closed spec fn keyboard_encoding(&self) -> KeyboardEncoding {
        self.keyboard_encoding
    }

    pub closed spec fn newline_mode(&self) -> bool {
        self.newline_mode
    }

    pub closed spec fn application_cursor_keys(&self) -> bool {
        self.application_cursor_keys
    }

    /// The configuration asks for the CSI-u encoding.
    pub closed spec fn csi_u_enabled(&self) -> bool {
        self.enable_csi_u_key_encoding
    }

    /// The encoding in effect: the configuration turns the xterm encoding
    /// into CSI-u and leaves every other encoding alone.
    pub open spec fn spec_effective_keyboard_encoding(&self) -> KeyboardEncoding {
        if self.keyboard_encoding() == KeyboardEncoding::Xterm && self.csi_u_enabled() {
            KeyboardEncoding::CsiU
        } else {
            self.keyboard_encoding()
        }
    }

    pub fn set_keyboard_encoding(&mut self, encoding: KeyboardEncoding)
        ensures
            final(self).keyboard_encoding() == encoding,
            final(self).newline_mode() == old(self).newline_mode(),
            final(self).application_cursor_keys() == old(self).application_cursor_keys(),
            final(self).csi_u_enabled() == old(self).csi_u_enabled(),
    {
        self.keyboard_encoding = encoding;
    }

    pub fn set_newline_mode(&mut self, on: bool)
        ensures
            final(self).newline_mode() == on,
            final(self).keyboard_encoding() == old(self).keyboard_encoding(),
            final(self).application_cursor_keys() == old(self).application_cursor_keys(),
            final(self).csi_u_enabled() == old(self).csi_u_enabled(),
    {
        self.newline_mode = on;
    }

    pub fn set_application_cursor_keys(&mut self, on: bool)
        ensures
            final(self).application_cursor_keys() == on,
            final(self).keyboard_encoding() == old(self).keyboard_encoding(),
            final(self).newline_mode() == old(self).newline_mode(),
            final(self).csi_u_enabled() == old(self).csi_u_enabled(),
    {
        self.application_cursor_keys = on;
    }

    /// The encoding in effect.
    pub fn effective_keyboard_encoding(&self) -> (encoding: KeyboardEncoding)
        ensures
            encoding == self.spec_effective_keyboard_encoding(),
    {
        match self.keyboard_encoding {
            KeyboardEncoding::Xterm => if self.enable_csi_u_key_encoding {
                KeyboardEncoding::CsiU
            } else {
                KeyboardEncoding::Xterm
            },
            KeyboardEncoding::CsiU => KeyboardEncoding::CsiU,
            KeyboardEncoding::Win32 => KeyboardEncoding::Win32,
        }
    }

    /// Translates a key press into the characters to send to the program
    /// in the terminal, under the encoding in effect and the two modes.
    /// The caller writes them to the pseudo-terminal.
    pub fn key_down(&self, key: KeyCode, mods: KeyModifiers) -> (r: Result<String, KeyError>)
        ensures
            match r {
                Ok(s) => encodable(key) && s@ == key_encoding(
                    key,
                    mods.spec_bits(),
                    self.spec_effective_keyboard_encoding(),
                    self.newline_mode(),
                    self.application_cursor_keys(),
                ),
                Err(e) => key matches KeyCode::Function(n) && !(1 <= n <= 12) && e
                    == KeyError::UnhandledFunctionKey(n),
            },
    {
        match key {
            KeyCode::Function(n) => {
                if n == 0 {
                    return Err(KeyError::UnhandledFunctionKey(n));
                }
            },
            _ => {},
        }
        proof {
            lemma_modifier_bits(mods);
        }
        let encoded = encode_key(
            key,
            mods.bits(),
            self.effective_keyboard_encoding(),
            self.newline_mode,
            self.application_cursor_keys,
        );
        key_down_result(key, encoded)
    }
}

/// What `key_down` answers, given what the encoder returned for `key`.
pub fn key_down_result(key: KeyCode, encoded: Result<String, termwiz::Error>) -> (r: Result<String, KeyError>)
    requires
        encoded is Ok <==> encodable(key),
    ensures
        match (r, encoded) {
            (Ok(s), Ok(t)) => s == t,
            (Err(e), Err(_)) => key matches KeyCode::Function(n) && e == KeyError::UnhandledFunctionKey(n),
            _ => false,
        },
{
    match encoded {
        Ok(s) => Ok(s),
        Err(_) => match key {
            KeyCode::Function(n) => Err(KeyError::UnhandledFunctionKey(n)),
            _ => {
                proof {
                    assert(false);
                }
                Err(KeyError::UnhandledFunctionKey(0))
            },
        },
    }
}

} // verus!
