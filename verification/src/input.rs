use vstd::prelude::*;

verus! {

/// Platform independent key. Provides methods to convert from the
/// keycodes of the platforms that deliver low-latency input.
#[derive(Debug, Clone, Copy, PartialEq, Eq, Hash, Structural)]
pub enum Key {
    A,
    B,
    C,
    D,
    E,
    F,
    G,
    H,
    I,
    J,
    K,
    L,
    M,
    N,
    O,
    P,
    Q,
    R,
    S,
    T,
    U,
    V,
    W,
    X,
    Y,
    Z,
    D0,
    D1,
    D2,
    D3,
    D4,
    D5,
    D6,
    D7,
    D8,
    D9,
    Comma,
    Dot,
    Minus,
    Equals,
    Semicolon,
    Quote,
    Backslash,
    Slash,
    Backtick,
    LeftBracket,
    RightBracket,
    Space,
    Enter,
    Tab,
    Backspace,
    Escape,
    Up,
    Down,
    Left,
    Right,
    Shift,
    Control,
    Alt,
    F1,
    F2,
    F3,
    F4,
    F5,
    F6,
    F7,
    F8,
    F9,
    F10,
    F11,
    F12,
    Unknown(u64),
}

/// The key that a macOS virtual keycode stands for.
pub open spec fn macos_key(keycode: u64) -> Key {
    match keycode {
        0 => Key::A,
        1 => Key::S,
        2 => Key::D,
        3 => Key::F,
        4 => Key::H,
        5 => Key::G,
        6 => Key::Z,
        7 => Key::X,
        8 => Key::C,
        9 => Key::V,
        11 => Key::B,
        12 => Key::Q,
        13 => Key::W,
        14 => Key::E,
        15 => Key::R,
        16 => Key::Y,
        17 => Key::T,
        18 => Key::D1,
        19 => Key::D2,
        20 => Key::D3,
        21 => Key::D4,
        22 => Key::D6,
        23 => Key::D5,
        24 => Key::Equals,
        25 => Key::D9,
        26 => Key::D7,
        27 => Key::Minus,
        28 => Key::D8,
        29 => Key::D0,
        30 => Key::RightBracket,
        31 => Key::O,
        32 => Key::U,
        33 => Key::LeftBracket,
        34 => Key::I,
        35 => Key::P,
        37 => Key::L,
        38 => Key::J,
        39 => Key::Quote,
        40 => Key::K,
        41 => Key::Semicolon,
        42 => Key::Backslash,
        43 => Key::Comma,
        44 => Key::Slash,
        45 => Key::N,
        46 => Key::M,
        47 => Key::Dot,
        49 => Key::Space,
        50 => Key::Backtick,
        53 => Key::Escape,
        55 => Key::Control,
        56 => Key::Shift,
        58 => Key::Alt,
        59 => Key::Control,
        60 => Key::Shift,
        61 => Key::Alt,
        62 => Key::Control,
        65 => Key::Dot,
        76 => Key::Enter,
        82 => Key::D0,
        83 => Key::D1,
        84 => Key::D2,
        85 => Key::D3,
        86 => Key::D4,
        87 => Key::D5,
        88 => Key::D6,
        89 => Key::D7,
        91 => Key::D8,
        92 => Key::D9,
        115 => Key::F1,
        116 => Key::F2,
        117 => Key::F3,
        118 => Key::F4,
        119 => Key::F5,
        120 => Key::F6,
        121 => Key::F7,
        122 => Key::F8,
        123 => Key::Left,
        124 => Key::Right,
        125 => Key::Down,
        126 => Key::Up,
        _ => Key::Unknown(keycode),
    }
}

/// The key that a Windows virtual-key code stands for.
pub open spec fn windows_key(keycode: u64) -> Key {
    match keycode {
        0x08 => Key::Backspace,
        0x09 => Key::Tab,
        0x0D => Key::Enter,
        0x10 => Key::Shift,
        0x11 => Key::Control,
        0x12 => Key::Alt,
        0x1B => Key::Escape,
        0x20 => Key::Space,
        0x25 => Key::Left,
        0x26 => Key::Up,
        0x27 => Key::Right,
        0x28 => Key::Down,
        0x30 => Key::D0,
        0x31 => Key::D1,
        0x32 => Key::D2,
        0x33 => Key::D3,
        0x34 => Key::D4,
        0x35 => Key::D5,
        0x36 => Key::D6,
        0x37 => Key::D7,
        0x38 => Key::D8,
        0x39 => Key::D9,
        0x41 => Key::A,
        0x42 => Key::B,
        0x43 => Key::C,
        0x44 => Key::D,
        0x45 => Key::E,
        0x46 => Key::F,
        0x47 => Key::G,
        0x48 => Key::H,
        0x49 => Key::I,
        0x4A => Key::J,
        0x4B => Key::K,
        0x4C => Key::L,
        0x4D => Key::M,
        0x4E => Key::N,
        0x4F => Key::O,
        0x50 => Key::P,
        0x51 => Key::Q,
        0x52 => Key::R,
        0x53 => Key::S,
        0x54 => Key::T,
        0x55 => Key::U,
        0x56 => Key::V,
        0x57 => Key::W,
        0x58 => Key::X,
        0x59 => Key::Y,
        0x5A => Key::Z,
        0x70 => Key::F1,
        0x71 => Key::F2,
        0x72 => Key::F3,
        0x73 => Key::F4,
        0x74 => Key::F5,
        0x75 => Key::F6,
        0x76 => Key::F7,
        0x77 => Key::F8,
        0x78 => Key::F9,
        0x79 => Key::F10,
        0x7A => Key::F11,
        0x7B => Key::F12,
        0xBC => Key::Comma,
        0xBE => Key::Dot,
        0xBD => Key::Minus,
        0xBB => Key::Equals,
        0xBA => Key::Semicolon,
        0xDE => Key::Quote,
        0xDC => Key::Backslash,
        0xBF => Key::Slash,
        0xC0 => Key::Backtick,
        0xDB => Key::LeftBracket,
        0xDD => Key::RightBracket,
        _ => Key::Unknown(keycode),
    }
}

/// Apple's documented virtual keycode (the `kVK_` constants of the
/// HIToolbox framework) of each key that `macos_key` recognises by it:
/// the letters, digits and punctuation of the ANSI layout, space, escape,
/// the left-hand modifiers, the arrows and the keypad's enter key. Tab,
/// backspace and the function keys have none here: `macos_key` does not
/// recognise tab and backspace, and numbers the function keys on a scheme
/// of its own.
pub open spec fn macos_code(key: Key) -> Option<u64> {
    match key {
        Key::A => Some(0u64),
        Key::S => Some(1u64),
        Key::D => Some(2u64),
        Key::F => Some(3u64),
        Key::H => Some(4u64),
        Key::G => Some(5u64),
        Key::Z => Some(6u64),
        Key::X => Some(7u64),
        Key::C => Some(8u64),
        Key::V => Some(9u64),
        Key::B => Some(11u64),
        Key::Q => Some(12u64),
        Key::W => Some(13u64),
        Key::E => Some(14u64),
        Key::R => Some(15u64),
        Key::Y => Some(16u64),
        Key::T => Some(17u64),
        Key::D1 => Some(18u64),
        Key::D2 => Some(19u64),
        Key::D3 => Some(20u64),
        Key::D4 => Some(21u64),
        Key::D6 => Some(22u64),
        Key::D5 => Some(23u64),
        Key::Equals => Some(24u64),
        Key::D9 => Some(25u64),
        Key::D7 => Some(26u64),
        Key::Minus => Some(27u64),
        Key::D8 => Some(28u64),
        Key::D0 => Some(29u64),
        Key::RightBracket => Some(30u64),
        Key::O => Some(31u64),
        Key::U => Some(32u64),
        Key::LeftBracket => Some(33u64),
        Key::I => Some(34u64),
        Key::P => Some(35u64),
        Key::L => Some(37u64),
        Key::J => Some(38u64),
        Key::Quote => Some(39u64),
        Key::K => Some(40u64),
        Key::Semicolon => Some(41u64),
        Key::Backslash => Some(42u64),
        Key::Comma => Some(43u64),
        Key::Slash => Some(44u64),
        Key::N => Some(45u64),
        Key::M => Some(46u64),
        Key::Dot => Some(47u64),
        Key::Space => Some(49u64),
        Key::Backtick => Some(50u64),
        Key::Escape => Some(53u64),
        Key::Shift => Some(56u64),
        Key::Alt => Some(58u64),
        Key::Control => Some(59u64),
        Key::Enter => Some(76u64),
        Key::Left => Some(123u64),
        Key::Right => Some(124u64),
        Key::Down => Some(125u64),
        Key::Up => Some(126u64),
        _ => None,
    }
}

/// Microsoft's documented virtual-key code (the `VK_` constants) of each
/// key.
pub open spec fn windows_code(key: Key) -> Option<u64> {
    match key {
        Key::Backspace => Some(0x08u64),
        Key::Tab => Some(0x09u64),
        Key::Enter => Some(0x0Du64),
        Key::Shift => Some(0x10u64),
        Key::Control => Some(0x11u64),
        Key::Alt => Some(0x12u64),
        Key::Escape => Some(0x1Bu64),
        Key::Space => Some(0x20u64),
        Key::Left => Some(0x25u64),
        Key::Up => Some(0x26u64),
        Key::Right => Some(0x27u64),
        Key::Down => Some(0x28u64),
        Key::D0 => Some(0x30u64),
        Key::D1 => Some(0x31u64),
        Key::D2 => Some(0x32u64),
        Key::D3 => Some(0x33u64),
        Key::D4 => Some(0x34u64),
        Key::D5 => Some(0x35u64),
        Key::D6 => Some(0x36u64),
        Key::D7 => Some(0x37u64),
        Key::D8 => Some(0x38u64),
        Key::D9 => Some(0x39u64),
        Key::A => Some(0x41u64),
        Key::B => Some(0x42u64),
        Key::C => Some(0x43u64),
        Key::D => Some(0x44u64),
        Key::E => Some(0x45u64),
        Key::F => Some(0x46u64),
        Key::G => Some(0x47u64),
        Key::H => Some(0x48u64),
        Key::I => Some(0x49u64),
        Key::J => Some(0x4Au64),
        Key::K => Some(0x4Bu64),
        Key::L => Some(0x4Cu64),
        Key::M => Some(0x4Du64),
        Key::N => Some(0x4Eu64),
        Key::O => Some(0x4Fu64),
        Key::P => Some(0x50u64),
        Key::Q => Some(0x51u64),
        Key::R => Some(0x52u64),
        Key::S => Some(0x53u64),
        Key::T => Some(0x54u64),
        Key::U => Some(0x55u64),
        Key::V => Some(0x56u64),
        Key::W => Some(0x57u64),
        Key::X => Some(0x58u64),
        Key::Y => Some(0x59u64),
        Key::Z => Some(0x5Au64),
        Key::F1 => Some(0x70u64),
        Key::F2 => Some(0x71u64),
        Key::F3 => Some(0x72u64),
        Key::F4 => Some(0x73u64),
        Key::F5 => Some(0x74u64),
        Key::F6 => Some(0x75u64),
        Key::F7 => Some(0x76u64),
        Key::F8 => Some(0x77u64),
        Key::F9 => Some(0x78u64),
        Key::F10 => Some(0x79u64),
        Key::F11 => Some(0x7Au64),
        Key::F12 => Some(0x7Bu64),
        Key::Comma => Some(0xBCu64),
        Key::Dot => Some(0xBEu64),
        Key::Minus => Some(0xBDu64),
        Key::Equals => Some(0xBBu64),
        Key::Semicolon => Some(0xBAu64),
        Key::Quote => Some(0xDEu64),
        Key::Backslash => Some(0xDCu64),
        Key::Slash => Some(0xBFu64),
        Key::Backtick => Some(0xC0u64),
        Key::LeftBracket => Some(0xDBu64),
        Key::RightBracket => Some(0xDDu64),
        Key::Unknown(_) => None,
    }
}

/// Every key with an Apple keycode is read back from that keycode, and a
/// keycode that stands for no key is reported as unknown with the keycode
/// itself.
pub proof fn lemma_macos_codes(key: Key, keycode: u64)
    ensures
        macos_code(key) matches Some(c) ==> macos_key(c) == key,
        macos_key(keycode) is Unknown ==> macos_key(keycode) == Key::Unknown(keycode),
        macos_key(keycode) matches Key::Unknown(c) ==> c == keycode,
{
}

/// Every key has a Windows virtual-key code and is read back from it;
/// every keycode read as a known key is that key's code; any other keycode
/// is reported as unknown with the keycode itself.
pub proof fn lemma_windows_codes(key: Key, keycode: u64)
    ensures
        !(key is Unknown) ==> windows_code(key) is Some,
        windows_code(key) matches Some(c) ==> windows_key(c) == key,
        !(windows_key(keycode) is Unknown) ==> windows_code(windows_key(keycode)) == Some(keycode),
        windows_key(keycode) is Unknown ==> windows_key(keycode) == Key::Unknown(keycode),
{
}

/// The other macOS keycodes that are read as keys: the keypad's digits
/// (82 to 89 and 91, 92) as the digits 0 to 9, 115 to 122 as the function
/// keys F1 to F8, the right-hand shift, option and control keys (60, 61,
/// 62) and the command key (55) as the modifiers of the left hand, the
/// keypad's decimal point (65) as the dot and its enter key (76) as enter.
/// Each is stated by the key's Windows code, which numbers the digits and
/// the function keys in order.
pub proof fn lemma_macos_other_codes(i: u64)
    ensures
        i < 8 ==> windows_code(macos_key((82 + i) as u64)) == Some((0x30 + i) as u64),
        8 <= i < 10 ==> windows_code(macos_key((83 + i) as u64)) == Some((0x30 + i) as u64),
        i < 8 ==> windows_code(macos_key((115 + i) as u64)) == Some((0x70 + i) as u64),
        macos_key(60) == macos_key(56) && macos_key(56) == Key::Shift,
        macos_key(61) == macos_key(58) && macos_key(58) == Key::Alt,
        macos_key(62) == macos_key(59) && macos_key(59) == Key::Control,
        macos_key(55) == Key::Control,
        macos_key(65) == macos_key(47) && macos_key(47) == Key::Dot,
        windows_code(macos_key(76)) == Some(0x0Du64),
{
}

impl Key {
    /// Converts a raw macOS keycode into a unified [`Key`].
    pub fn from_macos_keycode(keycode: u64) -> (r: Key)
        ensures
            r == macos_key(keycode),
    {
        match keycode {
            0 => Key::A,
            1 => Key::S,
            2 => Key::D,
            3 => Key::F,
            4 => Key::H,
            5 => Key::G,
            6 => Key::Z,
            7 => Key::X,
            8 => Key::C,
            9 => Key::V,
            11 => Key::B,
            12 => Key::Q,
            13 => Key::W,
            14 => Key::E,
            15 => Key::R,
            16 => Key::Y,
            17 => Key::T,
            18 => Key::D1,
            19 => Key::D2,
            20 => Key::D3,
            21 => Key::D4,
            22 => Key::D6,
            23 => Key::D5,
            24 => Key::Equals,
            25 => Key::D9,
            26 => Key::D7,
            27 => Key::Minus,
            28 => Key::D8,
            29 => Key::D0,
            30 => Key::RightBracket,
            31 => Key::O,
            32 => Key::U,
            33 => Key::LeftBracket,
            34 => Key::I,
            35 => Key::P,
            37 => Key::L,
            38 => Key::J,
            39 => Key::Quote,
            40 => Key::K,
            41 => Key::Semicolon,
            42 => Key::Backslash,
            43 => Key::Comma,
            44 => Key::Slash,
            45 => Key::N,
            46 => Key::M,
            47 => Key::Dot,
            49 => Key::Space,
            50 => Key::Backtick,
            53 => Key::Escape,
            55 => Key::Control,
            56 => Key::Shift,
            58 => Key::Alt,
            59 => Key::Control,
            60 => Key::Shift,
            61 => Key::Alt,
            62 => Key::Control,
            65 => Key::Dot,
            76 => Key::Enter,
            82 => Key::D0,
            83 => Key::D1,
            84 => Key::D2,
            85 => Key::D3,
            86 => Key::D4,
            87 => Key::D5,
            88 => Key::D6,
            89 => Key::D7,
            91 => Key::D8,
            92 => Key::D9,
            115 => Key::F1,
            116 => Key::F2,
            117 => Key::F3,
            118 => Key::F4,
            119 => Key::F5,
            120 => Key::F6,
            121 => Key::F7,
            122 => Key::F8,
            123 => Key::Left,
            124 => Key::Right,
            125 => Key::Down,
            126 => Key::Up,
            _ => Key::Unknown(keycode),
        }
    }

    /// Converts a raw Windows virtual-key code into a unified [`Key`].
    pub fn from_windows_keycode(keycode: u64) -> (r: Key)
        ensures
            r == windows_key(keycode),
    {
        match keycode {
            0x08 => Key::Backspace,
            0x09 => Key::Tab,
            0x0D => Key::Enter,
            0x10 => Key::Shift,
            0x11 => Key::Control,
            0x12 => Key::Alt,
            0x1B => Key::Escape,
            0x20 => Key::Space,
            0x25 => Key::Left,
            0x26 => Key::Up,
            0x27 => Key::Right,
            0x28 => Key::Down,
            0x30 => Key::D0,
            0x31 => Key::D1,
            0x32 => Key::D2,
            0x33 => Key::D3,
            0x34 => Key::D4,
            0x35 => Key::D5,
            0x36 => Key::D6,
            0x37 => Key::D7,
            0x38 => Key::D8,
            0x39 => Key::D9,
            0x41 => Key::A,
            0x42 => Key::B,
            0x43 => Key::C,
            0x44 => Key::D,
            0x45 => Key::E,
            0x46 => Key::F,
            0x47 => Key::G,
            0x48 => Key::H,
            0x49 => Key::I,
            0x4A => Key::J,
            0x4B => Key::K,
            0x4C => Key::L,
            0x4D => Key::M,
            0x4E => Key::N,
            0x4F => Key::O,
            0x50 => Key::P,
            0x51 => Key::Q,
            0x52 => Key::R,
            0x53 => Key::S,
            0x54 => Key::T,
            0x55 => Key::U,
            0x56 => Key::V,
            0x57 => Key::W,
            0x58 => Key::X,
            0x59 => Key::Y,
            0x5A => Key::Z,
            0x70 => Key::F1,
            0x71 => Key::F2,
            0x72 => Key::F3,
            0x73 => Key::F4,
            0x74 => Key::F5,
            0x75 => Key::F6,
            0x76 => Key::F7,
            0x77 => Key::F8,
            0x78 => Key::F9,
            0x79 => Key::F10,
            0x7A => Key::F11,
            0x7B => Key::F12,
            0xBC => Key::Comma,
            0xBE => Key::Dot,
            0xBD => Key::Minus,
            0xBB => Key::Equals,
            0xBA => Key::Semicolon,
            0xDE => Key::Quote,
            0xDC => Key::Backslash,
            0xBF => Key::Slash,
            0xC0 => Key::Backtick,
            0xDB => Key::LeftBracket,
            0xDD => Key::RightBracket,
            _ => Key::Unknown(keycode),
        }
    }
}

} // verus!
