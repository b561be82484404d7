//! The configuration: options, key bindings and window rules, and the
//! grammar of commands.

use vstd::prelude::*;
use crate::commands::{Command, Direction, MouseMove, Operation};
use crate::errors::Error;
use crate::ratio::Ratio;
use crate::systems::EdgePadding;
use crate::text::{same_text, split, split_text, texts, trim_text, trimmed};

verus! {

/// The direction that a word names.
pub open spec fn direction_of(word: Seq<char>) -> Option<Direction> {
    if word == "north"@ {
        Some(Direction::North)
    } else if word == "south"@ {
        Some(Direction::South)
    } else if word == "west"@ {
        Some(Direction::West)
    } else if word == "east"@ {
        Some(Direction::East)
    } else if word == "first"@ {
        Some(Direction::First)
    } else if word == "last"@ {
        Some(Direction::Last)
    } else {
        None
    }
}

/// The window operation that the words from `at` on name: `focus` and
/// `swap` take a direction, the others stand alone.
pub open spec fn operation_of(argv: Seq<Seq<char>>, at: int) -> Option<Operation> {
    if at >= argv.len() {
        None
    } else if argv[at] == "focus"@ {
        if at + 1 < argv.len() && direction_of(argv[at + 1]).is_some() {
            Some(Operation::Focus(direction_of(argv[at + 1]).unwrap()))
        } else {
            None
        }
    } else if argv[at] == "swap"@ {
        if at + 1 < argv.len() && direction_of(argv[at + 1]).is_some() {
            Some(Operation::Swap(direction_of(argv[at + 1]).unwrap()))
        } else {
            None
        }
    } else if argv[at] == "center"@ {
        Some(Operation::Center)
    } else if argv[at] == "resize"@ {
        Some(Operation::Resize)
    } else if argv[at] == "fullwidth"@ {
        Some(Operation::FullWidth)
    } else if argv[at] == "manage"@ {
        Some(Operation::Manage)
    } else if argv[at] == "equalize"@ {
        Some(Operation::Equalize)
    } else if argv[at] == "stack"@ {
        Some(Operation::Stack(true))
    } else if argv[at] == "unstack"@ {
        Some(Operation::Stack(false))
    } else if argv[at] == "nextdisplay"@ {
        Some(Operation::ToNextDisplay)
    } else {
        None
    }
}

/// The mouse operation that the words from `at` on name.
pub open spec fn mouse_move_of(argv: Seq<Seq<char>>, at: int) -> Option<MouseMove> {
    if at < argv.len() && argv[at] == "nextdisplay"@ {
        Some(MouseMove::ToNextDisplay)
    } else {
        None
    }
}

/// The command that a list of words names.
pub open spec fn command_of(argv: Seq<Seq<char>>) -> Option<Command> {
    if argv.len() == 0 {
        None
    } else if argv[0] == "printstate"@ {
        Some(Command::PrintState)
    } else if argv[0] == "window"@ {
        match operation_of(argv, 1) {
            Some(op) => Some(Command::Window(op)),
            None => None,
        }
    } else if argv[0] == "mouse"@ {
        match mouse_move_of(argv, 1) {
            Some(op) => Some(Command::Mouse(op)),
            None => None,
        }
    } else if argv[0] == "quit"@ {
        Some(Command::Quit)
    } else {
        None
    }
}

/// The views of a list of string slices.
pub open spec fn words(argv: Seq<&str>) -> Seq<Seq<char>> {
    Seq::new(argv.len(), |i: int| argv[i]@)
}

/// Reads a direction.
pub fn parse_direction(dir: &str) -> (r: Result<Direction, Error>)
    ensures
        match r {
            Ok(d) => direction_of(dir@) == Some(d),
            Err(e) => e == Error::InvalidConfig && direction_of(dir@).is_none(),
        },
{
    if same_text(dir, "north") {
        Ok(Direction::North)
    } else if same_text(dir, "south") {
        Ok(Direction::South)
    } else if same_text(dir, "west") {
        Ok(Direction::West)
    } else if same_text(dir, "east") {
        Ok(Direction::East)
    } else if same_text(dir, "first") {
        Ok(Direction::First)
    } else if same_text(dir, "last") {
        Ok(Direction::Last)
    } else {
        Err(Error::InvalidConfig)
    }
}

fn parse_direction_at(argv: &[&str], at: usize) -> (r: Result<Direction, Error>)
    ensures
        match r {
            Ok(d) => at < argv@.len() && direction_of(argv@[at as int]@) == Some(d),
            Err(e) => e == Error::InvalidConfig && (at >= argv@.len() || direction_of(
                argv@[at as int]@,
            ).is_none()),
        },
{
    if at < argv.len() {
        parse_direction(argv[at])
    } else {
        Err(Error::InvalidConfig)
    }
}

/// Reads a window operation from the words of `argv` from `at` on.
pub fn parse_operation(argv: &[&str], at: usize) -> (r: Result<Operation, Error>)
    ensures
        match r {
            Ok(op) => operation_of(words(argv@), at as int) == Some(op),
            Err(e) => e == Error::InvalidConfig && operation_of(words(argv@), at as int).is_none(),
        },
{
    if at >= argv.len() {
        return Err(Error::InvalidConfig);
    }
    let cmd = argv[at];
    assert(words(argv@)[at as int] == cmd@);
    if at + 1 < argv.len() {
        assert(words(argv@)[at + 1] == argv@[at + 1]@);
    }
    if same_text(cmd, "focus") {
        match parse_direction_at(argv, at + 1) {
            Ok(d) => Ok(Operation::Focus(d)),
            Err(e) => Err(e),
        }
    } else if same_text(cmd, "swap") {
        match parse_direction_at(argv, at + 1) {
            Ok(d) => Ok(Operation::Swap(d)),
            Err(e) => Err(e),
        }
    } else if same_text(cmd, "center") {
        Ok(Operation::Center)
    } else if same_text(cmd, "resize") {
        Ok(Operation::Resize)
    } else if same_text(cmd, "fullwidth") {
        Ok(Operation::FullWidth)
    } else if same_text(cmd, "manage") {
        Ok(Operation::Manage)
    } else if same_text(cmd, "equalize") {
        Ok(Operation::Equalize)
    } else if same_text(cmd, "stack") {
        Ok(Operation::Stack(true))
    } else if same_text(cmd, "unstack") {
        Ok(Operation::Stack(false))
    } else if same_text(cmd, "nextdisplay") {
        Ok(Operation::ToNextDisplay)
    } else {
        Err(Error::InvalidConfig)
    }
}

/// Reads a mouse operation from the words of `argv` from `at` on.
pub fn parse_mouse_move(argv: &[&str], at: usize) -> (r: Result<MouseMove, Error>)
    ensures
        match r {
            Ok(op) => mouse_move_of(words(argv@), at as int) == Some(op),
            Err(e) => e == Error::InvalidConfig && mouse_move_of(words(argv@), at as int).is_none(
            ),
        },
{
    if at >= argv.len() {
        return Err(Error::InvalidConfig);
    }
    assert(words(argv@)[at as int] == argv@[at as int]@);
    if same_text(argv[at], "nextdisplay") {
        Ok(MouseMove::ToNextDisplay)
    } else {
        Err(Error::InvalidConfig)
    }
}

/// Reads a command from its words, such as `window focus east`.
pub fn parse_command(argv: &[&str]) -> (r: Result<Command, Error>)
    ensures
        match r {
            Ok(c) => command_of(words(argv@)) == Some(c),
            Err(e) => e == Error::InvalidConfig && command_of(words(argv@)).is_none(),
        },
{
    if argv.len() == 0 {
        return Err(Error::InvalidConfig);
    }
    let cmd = argv[0];
    assert(words(argv@)[0] == cmd@);
    if same_text(cmd, "printstate") {
        Ok(Command::PrintState)
    } else if same_text(cmd, "window") {
        match parse_operation(argv, 1) {
            Ok(op) => Ok(Command::Window(op)),
            Err(e) => Err(e),
        }
    } else if same_text(cmd, "mouse") {
        match parse_mouse_move(argv, 1) {
            Ok(op) => Ok(Command::Mouse(op)),
            Err(e) => Err(e),
        }
    } else if same_text(cmd, "quit") {
        Ok(Command::Quit)
    } else {
        Err(Error::InvalidConfig)
    }
}

/// The modifier keys that are held with a key.
#[derive(Clone, Copy, Debug, PartialEq, Eq, Structural)]
pub struct Modifiers {
    pub alt: bool,
    pub shift: bool,
    pub cmd: bool,
    pub ctrl: bool,
}

impl Modifiers {
    /// No modifier.
    pub fn empty() -> (m: Modifiers)
        ensures
            m == (Modifiers { alt: false, shift: false, cmd: false, ctrl: false }),
    {
        Modifiers { alt: false, shift: false, cmd: false, ctrl: false }
    }
}

/// The modifiers that the first `k` of `names` add to `start`, or nothing
/// where one of them names no modifier.
pub open spec fn modifiers_of(names: Seq<Seq<char>>, k: int) -> Option<Modifiers>
    decreases k,
{
    if k <= 0 {
        Some(Modifiers { alt: false, shift: false, cmd: false, ctrl: false })
    } else {
        match modifiers_of(names, k - 1) {
            None => None,
            Some(m) => {
                let name = trimmed(names[k - 1]);
                if name == "alt"@ {
                    Some(Modifiers { alt: true, ..m })
                } else if name == "shift"@ {
                    Some(Modifiers { shift: true, ..m })
                } else if name == "cmd"@ {
                    Some(Modifiers { cmd: true, ..m })
                } else if name == "ctrl"@ {
                    Some(Modifiers { ctrl: true, ..m })
                } else {
                    None
                }
            },
        }
    }
}

/// Reads modifier names joined by `+`, such as `ctrl+alt`.
pub fn parse_modifiers(input: &str) -> (r: Result<Modifiers, Error>)
    ensures
        match r {
            Ok(m) => modifiers_of(split(input@, '+'), split(input@, '+').len() as int) == Some(m),
            Err(e) => e == Error::InvalidConfig && modifiers_of(
                split(input@, '+'),
                split(input@, '+').len() as int,
            ).is_none(),
        },
{
    let names = split_text(input, '+');
    let mut out = Modifiers::empty();
    let mut i: usize = 0;
    while i < names.len()
        invariant
            i <= names.len(),
            texts(names@) == split(input@, '+'),
            modifiers_of(texts(names@), i as int) == Some(out),
        decreases names.len() - i,
    {
        let name = trim_text(names[i].as_str());
        assert(texts(names@)[i as int] == names@[i as int]@);
        if same_text(name.as_str(), "alt") {
            out.alt = true;
        } else if same_text(name.as_str(), "shift") {
            out.shift = true;
        } else if same_text(name.as_str(), "cmd") {
            out.cmd = true;
        } else if same_text(name.as_str(), "ctrl") {
            out.ctrl = true;
        } else {
            proof {
                lemma_modifiers_fail(texts(names@), i + 1, names@.len() as int);
            }
            return Err(Error::InvalidConfig);
        }
        i += 1;
    }
    Ok(out)
}

proof fn lemma_modifiers_fail(names: Seq<Seq<char>>, k: int, n: int)
    requires
        0 <= k <= n,
        modifiers_of(names, k).is_none(),
    ensures
        modifiers_of(names, n).is_none(),
    decreases n - k,
{
    if k < n {
        lemma_modifiers_fail(names, k + 1, n);
    }
}

/// A key with its modifiers, and the command it gives.
#[derive(Debug)]
pub struct Keybinding {
    /// The name of the key.
    pub key: String,
    /// The code of the key on the keyboard.
    pub code: u8,
    pub modifiers: Modifiers,
    pub command: Command,
}

/// What a binding is as a value: the key's name, its code, its modifiers
/// and its command.
pub struct KeybindingView {
    pub key: Seq<char>,
    pub code: u8,
    pub modifiers: Modifiers,
    pub command: Command,
}

impl View for Keybinding {
    type V = KeybindingView;

    open spec fn view(&self) -> KeybindingView {
        KeybindingView {
            key: self.key@,
            code: self.code,
            modifiers: self.modifiers,
            command: self.command,
        }
    }
}

/// What a binding such as `ctrl+alt-q` reads as: the part after the dash
/// is the key, the part before it the modifiers; without a dash the whole
/// is the key. More than one dash, or a name that is no modifier, makes
/// it unreadable. The key's code and the command are not known yet.
pub open spec fn keybinding_of(input: Seq<char>) -> Option<KeybindingView> {
    let parts = split(input, '-');
    if parts.len() > 2 || parts.len() == 0 {
        None
    } else {
        let modifiers = if parts.len() == 2 {
            modifiers_of(split(trimmed(parts[0]), '+'), split(trimmed(parts[0]), '+').len() as int)
        } else {
            Some(Modifiers { alt: false, shift: false, cmd: false, ctrl: false })
        };
        match modifiers {
            None => None,
            Some(m) => Some(
                KeybindingView {
                    key: trimmed(parts.last()),
                    code: 0,
                    modifiers: m,
                    command: Command::Quit,
                },
            ),
        }
    }
}

impl Keybinding {
    /// Reads a binding such as `ctrl+alt-q`, `shift-tab` or `h`.
    pub fn parse(input: &str) -> (r: Result<Keybinding, Error>)
        ensures
            match r {
                Ok(k) => keybinding_of(input@) == Some(k@),
                Err(e) => e == Error::InvalidConfig && keybinding_of(input@).is_none(),
            },
    {
        let parts = split_text(input, '-');
        let n = parts.len();
        if n > 2 {
            return Err(Error::InvalidConfig);
        }
        assert(texts(parts@)[n - 1] == parts@[n - 1]@);
        assert(texts(parts@)[0] == parts@[0]@);
        let key = trim_text(parts[n - 1].as_str());
        let modifiers = if n == 2 {
            let names = trim_text(parts[0].as_str());
            match parse_modifiers(names.as_str()) {
                Ok(m) => m,
                Err(e) => {
                    return Err(e);
                },
            }
        } else {
            Modifiers::empty()
        };
        Ok(Keybinding { key, code: 0, modifiers, command: Command::Quit })
    }
}

/// A table of key names and codes as values.
pub open spec fn key_table(v: Seq<(&'static str, u8)>) -> Seq<(Seq<char>, u8)> {
    Seq::new(v.len(), |i: int| (v[i].0@, v[i].1))
}

/// The keys whose meaning depends on the keyboard layout, named as on a US keyboard, with the code of each.
pub open spec fn virtual_keys() -> Seq<(Seq<char>, u8)> {
    seq![
        ("a"@, 0x00u8),
        ("s"@, 0x01u8),
        ("d"@, 0x02u8),
        ("f"@, 0x03u8),
        ("h"@, 0x04u8),
        ("g"@, 0x05u8),
        ("z"@, 0x06u8),
        ("x"@, 0x07u8),
        ("c"@, 0x08u8),
        ("v"@, 0x09u8),
        ("section"@, 0x0au8),
        ("b"@, 0x0bu8),
        ("q"@, 0x0cu8),
        ("w"@, 0x0du8),
        ("e"@, 0x0eu8),
        ("r"@, 0x0fu8),
        ("y"@, 0x10u8),
        ("t"@, 0x11u8),
        ("1"@, 0x12u8),
        ("2"@, 0x13u8),
        ("3"@, 0x14u8),
        ("4"@, 0x15u8),
        ("6"@, 0x16u8),
        ("5"@, 0x17u8),
        ("equal"@, 0x18u8),
        ("9"@, 0x19u8),
        ("7"@, 0x1au8),
        ("minus"@, 0x1bu8),
        ("8"@, 0x1cu8),
        ("0"@, 0x1du8),
        ("rightbracket"@, 0x1eu8),
        ("o"@, 0x1fu8),
        ("u"@, 0x20u8),
        ("leftbracket"@, 0x21u8),
        ("i"@, 0x22u8),
        ("p"@, 0x23u8),
        ("l"@, 0x25u8),
        ("j"@, 0x26u8),
        ("quote"@, 0x27u8),
        ("k"@, 0x28u8),
        ("semicolon"@, 0x29u8),
        ("backslash"@, 0x2au8),
        ("comma"@, 0x2bu8),
        ("slash"@, 0x2cu8),
        ("n"@, 0x2du8),
        ("m"@, 0x2eu8),
        ("period"@, 0x2fu8),
        ("grave"@, 0x32u8),
        ("keypaddecimal"@, 0x41u8),
        ("keypadmultiply"@, 0x43u8),
        ("keypadplus"@, 0x45u8),
        ("keypadclear"@, 0x47u8),
        ("keypaddivide"@, 0x4bu8),
        ("keypadenter"@, 0x4cu8),
        ("keypadminus"@, 0x4eu8),
        ("keypadequals"@, 0x51u8),
        ("keypad0"@, 0x52u8),
        ("keypad1"@, 0x53u8),
        ("keypad2"@, 0x54u8),
        ("keypad3"@, 0x55u8),
        ("keypad4"@, 0x56u8),
        ("keypad5"@, 0x57u8),
        ("keypad6"@, 0x58u8),
        ("keypad7"@, 0x59u8),
        ("keypad8"@, 0x5bu8),
        ("keypad9"@, 0x5cu8),
    ]
}

/// The keys whose meaning depends on the keyboard layout, named as on a US keyboard, with the code of each.
pub fn virtual_keycode() -> (r: Vec<(&'static str, u8)>)
    ensures
        key_table(r@) == virtual_keys(),
{
    let r = vec![
        ("a", 0x00u8),
        ("s", 0x01u8),
        ("d", 0x02u8),
        ("f", 0x03u8),
        ("h", 0x04u8),
        ("g", 0x05u8),
        ("z", 0x06u8),
        ("x", 0x07u8),
        ("c", 0x08u8),
        ("v", 0x09u8),
        ("section", 0x0au8),
        ("b", 0x0bu8),
        ("q", 0x0cu8),
        ("w", 0x0du8),
        ("e", 0x0eu8),
        ("r", 0x0fu8),
        ("y", 0x10u8),
        ("t", 0x11u8),
        ("1", 0x12u8),
        ("2", 0x13u8),
        ("3", 0x14u8),
        ("4", 0x15u8),
        ("6", 0x16u8),
        ("5", 0x17u8),
        ("equal", 0x18u8),
        ("9", 0x19u8),
        ("7", 0x1au8),
        ("minus", 0x1bu8),
        ("8", 0x1cu8),
        ("0", 0x1du8),
        ("rightbracket", 0x1eu8),
        ("o", 0x1fu8),
        ("u", 0x20u8),
        ("leftbracket", 0x21u8),
        ("i", 0x22u8),
        ("p", 0x23u8),
        ("l", 0x25u8),
        ("j", 0x26u8),
        ("quote", 0x27u8),
        ("k", 0x28u8),
        ("semicolon", 0x29u8),
        ("backslash", 0x2au8),
        ("comma", 0x2bu8),
        ("slash", 0x2cu8),
        ("n", 0x2du8),
        ("m", 0x2eu8),
        ("period", 0x2fu8),
        ("grave", 0x32u8),
        ("keypaddecimal", 0x41u8),
        ("keypadmultiply", 0x43u8),
        ("keypadplus", 0x45u8),
        ("keypadclear", 0x47u8),
        ("keypaddivide", 0x4bu8),
        ("keypadenter", 0x4cu8),
        ("keypadminus", 0x4eu8),
        ("keypadequals", 0x51u8),
        ("keypad0", 0x52u8),
        ("keypad1", 0x53u8),
        ("keypad2", 0x54u8),
        ("keypad3", 0x55u8),
        ("keypad4", 0x56u8),
        ("keypad5", 0x57u8),
        ("keypad6", 0x58u8),
        ("keypad7", 0x59u8),
        ("keypad8", 0x5bu8),
        ("keypad9", 0x5cu8),
    ];
    assert(key_table(r@) =~= virtual_keys());
    r
}
/// The keys that mean the same on every keyboard layout, with the code of each.
pub open spec fn literal_keys() -> Seq<(Seq<char>, u8)> {
    seq![
        ("return"@, 0x24u8),
        ("tab"@, 0x30u8),
        ("space"@, 0x31u8),
        ("delete"@, 0x33u8),
        ("escape"@, 0x35u8),
        ("command"@, 0x37u8),
        ("shift"@, 0x38u8),
        ("capslock"@, 0x39u8),
        ("option"@, 0x3au8),
        ("control"@, 0x3bu8),
        ("rightcommand"@, 0x36u8),
        ("rightshift"@, 0x3cu8),
        ("rightoption"@, 0x3du8),
        ("rightcontrol"@, 0x3eu8),
        ("function"@, 0x3fu8),
        ("f17"@, 0x40u8),
        ("volumeup"@, 0x48u8),
        ("volumedown"@, 0x49u8),
        ("mute"@, 0x4au8),
        ("f18"@, 0x4fu8),
        ("f19"@, 0x50u8),
        ("f20"@, 0x5au8),
        ("f5"@, 0x60u8),
        ("f6"@, 0x61u8),
        ("f7"@, 0x62u8),
        ("f3"@, 0x63u8),
        ("f8"@, 0x64u8),
        ("f9"@, 0x65u8),
        ("f11"@, 0x67u8),
        ("f13"@, 0x69u8),
        ("f16"@, 0x6au8),
        ("f14"@, 0x6bu8),
        ("f10"@, 0x6du8),
        ("contextualmenu"@, 0x6eu8),
        ("f12"@, 0x6fu8),
        ("f15"@, 0x71u8),
        ("help"@, 0x72u8),
        ("home"@, 0x73u8),
        ("pageup"@, 0x74u8),
        ("forwarddelete"@, 0x75u8),
        ("f4"@, 0x76u8),
        ("end"@, 0x77u8),
        ("f2"@, 0x78u8),
        ("pagedown"@, 0x79u8),
        ("f1"@, 0x7au8),
        ("leftarrow"@, 0x7bu8),
        ("rightarrow"@, 0x7cu8),
        ("downarrow"@, 0x7du8),
        ("uparrow"@, 0x7eu8),
    ]
}

/// The keys that mean the same on every keyboard layout, with the code of each.
pub fn literal_keycode() -> (r: Vec<(&'static str, u8)>)
    ensures
        key_table(r@) == literal_keys(),
{
    let r = vec![
        ("return", 0x24u8),
        ("tab", 0x30u8),
        ("space", 0x31u8),
        ("delete", 0x33u8),
        ("escape", 0x35u8),
        ("command", 0x37u8),
        ("shift", 0x38u8),
        ("capslock", 0x39u8),
        ("option", 0x3au8),
        ("control", 0x3bu8),
        ("rightcommand", 0x36u8),
        ("rightshift", 0x3cu8),
        ("rightoption", 0x3du8),
        ("rightcontrol", 0x3eu8),
        ("function", 0x3fu8),
        ("f17", 0x40u8),
        ("volumeup", 0x48u8),
        ("volumedown", 0x49u8),
        ("mute", 0x4au8),
        ("f18", 0x4fu8),
        ("f19", 0x50u8),
        ("f20", 0x5au8),
        ("f5", 0x60u8),
        ("f6", 0x61u8),
        ("f7", 0x62u8),
        ("f3", 0x63u8),
        ("f8", 0x64u8),
        ("f9", 0x65u8),
        ("f11", 0x67u8),
        ("f13", 0x69u8),
        ("f16", 0x6au8),
        ("f14", 0x6bu8),
        ("f10", 0x6du8),
        ("contextualmenu", 0x6eu8),
        ("f12", 0x6fu8),
        ("f15", 0x71u8),
        ("help", 0x72u8),
        ("home", 0x73u8),
        ("pageup", 0x74u8),
        ("forwarddelete", 0x75u8),
        ("f4", 0x76u8),
        ("end", 0x77u8),
        ("f2", 0x78u8),
        ("pagedown", 0x79u8),
        ("f1", 0x7au8),
        ("leftarrow", 0x7bu8),
        ("rightarrow", 0x7cu8),
        ("downarrow", 0x7du8),
        ("uparrow", 0x7eu8),
    ];
    assert(key_table(r@) =~= literal_keys());
    r
}

/// The code that the first entry of `table` named `key` gives, if any.
pub open spec fn lookup(table: Seq<(Seq<char>, u8)>, key: Seq<char>) -> Option<u8>
    decreases table.len(),
{
    if table.len() == 0 {
        None
    } else if table[0].0 == key {
        Some(table[0].1)
    } else {
        lookup(table.drop_first(), key)
    }
}

/// A table of key names and codes, read from the keyboard layout, as values.
pub open spec fn layout_table(v: Seq<(String, u8)>) -> Seq<(Seq<char>, u8)> {
    Seq::new(v.len(), |i: int| (v[i].0@, v[i].1))
}

/// The code of the key named `key`: what the keyboard layout says, and
/// else what the table of layout-independent keys says.
pub open spec fn code_of(layout: Seq<(Seq<char>, u8)>, key: Seq<char>) -> Option<u8> {
    match lookup(layout, key) {
        Some(code) => Some(code),
        None => lookup(literal_keys(), key),
    }
}

proof fn lemma_lookup_skip(table: Seq<(Seq<char>, u8)>, key: Seq<char>, k: int)
    requires
        0 <= k <= table.len(),
        forall|j: int| 0 <= j < k ==> table[j].0 != key,
    ensures
        lookup(table, key) == lookup(table.subrange(k, table.len() as int), key),
    decreases k,
{
    if k > 0 {
        lemma_lookup_skip(table.drop_first(), key, k - 1);
        assert(table.drop_first().subrange(k - 1, table.len() - 1) =~= table.subrange(
            k,
            table.len() as int,
        ));
    } else {
        assert(table.subrange(0, table.len() as int) =~= table);
    }
}

/// Finds the code of the key named `key`, first in the table read from
/// the keyboard layout, then among the layout-independent keys.
pub fn find_keycode(layout: &Vec<(String, u8)>, key: &str) -> (r: Option<u8>)
    ensures
        r == code_of(layout_table(layout@), key@),
{
    let ghost table = layout_table(layout@);
    let mut i: usize = 0;
    while i < layout.len()
        invariant
            i <= layout.len(),
            table == layout_table(layout@),
            forall|j: int| 0 <= j < i ==> table[j].0 != key@,
        decreases layout.len() - i,
    {
        assert(table[i as int].0 == layout@[i as int].0@);
        if same_text(layout[i].0.as_str(), key) {
            proof {
                lemma_lookup_skip(table, key@, i as int);
            }
            return Some(layout[i].1);
        }
        i += 1;
    }
    proof {
        lemma_lookup_skip(table, key@, table.len() as int);
    }
    assert(lookup(table, key@).is_none());
    let fixed = literal_keycode();
    let ghost fixed_table = key_table(fixed@);
    let mut k: usize = 0;
    while k < fixed.len()
        invariant
            k <= fixed.len(),
            fixed_table == key_table(fixed@),
            fixed_table == literal_keys(),
            lookup(layout_table(layout@), key@).is_none(),
            forall|j: int| 0 <= j < k ==> fixed_table[j].0 != key@,
        decreases fixed.len() - k,
    {
        assert(fixed_table[k as int].0 == fixed@[k as int].0@);
        if same_text(fixed[k].0, key) {
            proof {
                lemma_lookup_skip(fixed_table, key@, k as int);
            }
            return Some(fixed[k].1);
        }
        k += 1;
    }
    proof {
        lemma_lookup_skip(fixed_table, key@, fixed_table.len() as int);
    }
    None
}

/// One binding or several for the same command.
#[derive(Debug)]
pub enum OneOrMore {
    Single(Keybinding),
    Multiple(Vec<Keybinding>),
}

impl OneOrMore {
    /// The bindings as values, in order.
    pub open spec fn bindings(&self) -> Seq<KeybindingView> {
        match self {
            OneOrMore::Single(one) => seq![one@],
            OneOrMore::Multiple(many) => Seq::new(many@.len(), |i: int| many@[i]@),
        }
    }

    /// All the bindings, in order.
    pub fn all(&self) -> (r: Vec<&Keybinding>)
        ensures
            r@.len() == self.bindings().len(),
            forall|i: int| 0 <= i < r@.len() ==> (#[trigger] r@[i])@ == self.bindings()[i],
    {
        let mut out: Vec<&Keybinding> = Vec::new();
        match self {
            OneOrMore::Single(one) => {
                out.push(one);
            },
            OneOrMore::Multiple(many) => {
                let mut i: usize = 0;
                while i < many.len()
                    invariant
                        i <= many.len(),
                        out@.len() == i,
                        forall|j: int| 0 <= j < i ==> (#[trigger] out@[j])@ == many@[j]@,
                    decreases many.len() - i,
                {
                    out.push(&many[i]);
                    i += 1;
                }
            },
        }
        out
    }
}

/// A binding with the command that `expr` names and the code of its key.
/// The code stays as it is where the key is not known.
pub open spec fn bound(
    binding: KeybindingView,
    command: Command,
    layout: Seq<(Seq<char>, u8)>,
) -> KeybindingView {
    KeybindingView {
        command,
        code: match code_of(layout, binding.key) {
            Some(code) => code,
            None => binding.code,
        },
        ..binding
    }
}

/// The bindings for the command that `expr` names by its words joined with
/// `_`, such as `window_focus_east`.
pub open spec fn bound_all(
    expr: Seq<char>,
    bindings: Seq<KeybindingView>,
    layout: Seq<(Seq<char>, u8)>,
) -> Option<Seq<KeybindingView>> {
    match command_of(split(expr, '_')) {
        None => None,
        Some(command) => Some(
            Seq::new(bindings.len(), |i: int| bound(bindings[i], command, layout)),
        ),
    }
}

/// The views of a list of bindings.
pub open spec fn binding_views(v: Seq<Keybinding>) -> Seq<KeybindingView> {
    Seq::new(v.len(), |i: int| v[i]@)
}

/// Gives every binding of `bindings` the command that `expr` names and the
/// code of its key, and adds it to `out`.
pub fn bind_keys(
    out: &mut Vec<Keybinding>,
    expr: &str,
    bindings: &OneOrMore,
    layout: &Vec<(String, u8)>,
) -> (r: Result<(), Error>)
    ensures
        match r {
            Ok(_) => bound_all(expr@, bindings.bindings(), layout_table(layout@)).is_some()
                && binding_views(final(out)@) == binding_views(old(out)@) + bound_all(
                expr@,
                bindings.bindings(),
                layout_table(layout@),
            ).unwrap(),
            Err(e) => e == Error::InvalidConfig && bound_all(
                expr@,
                bindings.bindings(),
                layout_table(layout@),
            ).is_none() && final(out)@ == old(out)@,
        },
{
    let pieces = split_text(expr, '_');
    let mut argv: Vec<&str> = Vec::new();
    let mut i: usize = 0;
    while i < pieces.len()
        invariant
            i <= pieces.len(),
            argv@.len() == i,
            forall|j: int| 0 <= j < i ==> (#[trigger] argv@[j])@ == pieces@[j]@,
        decreases pieces.len() - i,
    {
        argv.push(pieces[i].as_str());
        i += 1;
    }
    assert(words(argv@) =~= texts(pieces@));
    let command = match parse_command(argv.as_slice()) {
        Ok(command) => command,
        Err(e) => {
            return Err(e);
        },
    };
    let all = bindings.all();
    let ghost before = binding_views(out@);
    let ghost target = bound_all(expr@, bindings.bindings(), layout_table(layout@)).unwrap();
    let mut k: usize = 0;
    while k < all.len()
        invariant
            k <= all.len(),
            all@.len() == bindings.bindings().len(),
            target.len() == all@.len(),
            forall|j: int| 0 <= j < all@.len() ==> (#[trigger] all@[j])@ == bindings.bindings()[j],
            forall|j: int|
                0 <= j < target.len() ==> #[trigger] target[j] == bound(
                    bindings.bindings()[j],
                    command,
                    layout_table(layout@),
                ),
            binding_views(out@) == before + target.take(k as int),
        decreases all.len() - k,
    {
        let binding = all[k];
        let code = match find_keycode(layout, binding.key.as_str()) {
            Some(code) => code,
            None => binding.code,
        };
        let ghost prior = binding_views(out@);
        out.push(
            Keybinding { key: binding.key.clone(), code, modifiers: binding.modifiers, command },
        );
        proof {
            assert(binding_views(out@) =~= prior.push(target[k as int]));
            assert(prior.push(target[k as int]) =~= before + target.take(k + 1));
        }
        k += 1;
    }
    assert(target.take(target.len() as int) =~= target);
    Ok(())
}

/// The options that shape the behaviour of the window manager. An option
/// that is not set has its default.
#[derive(Debug)]
pub struct MainOptions {
    /// Whether a window gets the focus when the mouse moves over it.
    pub focus_follows_mouse: Option<bool>,
    /// Whether the mouse is centered on a window that gets the focus.
    pub mouse_follows_focus: Option<bool>,
    /// With so many fingers a swipe scrolls the strip.
    pub swipe_gesture_fingers: Option<usize>,
    /// The widths that resizing cycles through, as fractions of the
    /// display's width.
    pub preset_column_widths: Vec<Ratio>,
    /// How fast windows move, in thousandths of a tenth of the display's
    /// width per second.
    pub animation_speed: Option<u64>,
    /// Whether a window that gets the focus by the keyboard is centered.
    pub auto_center: Option<bool>,
    /// How much of the display's height an off-screen window keeps.
    pub sliver_height: Option<Ratio>,
    /// How many pixels of an off-screen window stay in view.
    pub sliver_width: Option<u16>,
    pub padding_top: Option<u16>,
    pub padding_bottom: Option<u16>,
    pub padding_left: Option<u16>,
    pub padding_right: Option<u16>,
    /// No longer used.
    pub continuous_swipe: Option<bool>,
    /// Whether a swipe may scroll the strip past its ends.
    pub free_slide: Option<bool>,
}

/// The widths that resizing cycles through where none are configured.
pub fn default_preset_column_widths() -> (r: Vec<Ratio>)
    ensures
        r@ == seq![Ratio(250_000), Ratio(333_330), Ratio(500_000), Ratio(666_670), Ratio(750_000)],
{
    vec![Ratio(250_000), Ratio(333_330), Ratio(500_000), Ratio(666_670), Ratio(750_000)]
}

impl MainOptions {
    /// No option set, and no preset widths.
    pub fn new() -> (o: MainOptions)
        ensures
            o.focus_follows_mouse.is_none(),
            o.mouse_follows_focus.is_none(),
            o.swipe_gesture_fingers.is_none(),
            o.preset_column_widths@.len() == 0,
            o.animation_speed.is_none(),
            o.auto_center.is_none(),
            o.sliver_height.is_none(),
            o.sliver_width.is_none(),
            o.padding_top.is_none(),
            o.padding_bottom.is_none(),
            o.padding_left.is_none(),
            o.padding_right.is_none(),
            o.continuous_swipe.is_none(),
            o.free_slide.is_none(),
    {
        MainOptions {
            focus_follows_mouse: None,
            mouse_follows_focus: None,
            swipe_gesture_fingers: None,
            preset_column_widths: Vec::new(),
            animation_speed: None,
            auto_center: None,
            sliver_height: None,
            sliver_width: None,
            padding_top: None,
            padding_bottom: None,
            padding_left: None,
            padding_right: None,
            continuous_swipe: None,
            free_slide: None,
        }
    }
}

/// A rule for the windows whose title matches a pattern.
#[derive(Debug)]
pub struct WindowParams {
    /// A regular expression that the window's title has to match.
    pub title: String,
    /// The bundle that the window's application has to be of, if any.
    pub bundle_id: Option<String>,
    /// Whether the window floats instead of being tiled.
    pub floating: Option<bool>,
    /// Where in the strip the window is put.
    pub index: Option<usize>,
    pub vertical_padding: Option<i32>,
    pub horizontal_padding: Option<i32>,
    /// Whether the focus stays where it is when the window appears.
    pub dont_focus: Option<bool>,
    /// The width the window is given at first, as a fraction of the
    /// display's width.
    pub width: Option<Ratio>,
}

/// A rule as a value.
pub struct WindowParamsView {
    pub title: Seq<char>,
    pub bundle_id: Option<Seq<char>>,
    pub floating: Option<bool>,
    pub index: Option<usize>,
    pub vertical_padding: Option<i32>,
    pub horizontal_padding: Option<i32>,
    pub dont_focus: Option<bool>,
    pub width: Option<Ratio>,
}

impl View for WindowParams {
    type V = WindowParamsView;

    open spec fn view(&self) -> WindowParamsView {
        WindowParamsView {
            title: self.title@,
            bundle_id: match self.bundle_id {
                Some(id) => Some(id@),
                None => None,
            },
            floating: self.floating,
            index: self.index,
            vertical_padding: self.vertical_padding,
            horizontal_padding: self.horizontal_padding,
            dont_focus: self.dont_focus,
            width: self.width,
        }
    }
}

/// Whether the regular expression `pattern` finds a match anywhere in
/// `haystack`; nothing where `pattern` is no regular expression.
pub uninterp spec fn regex_search(pattern: Seq<char>, haystack: Seq<char>) -> Option<bool>;

/// Compiles `pattern` with `regex::Regex::new` and asks `Regex::is_match`
/// whether it matches anywhere in `haystack`. The answer depends on the
/// two strings alone and is known here only by its name, `regex_search`.
/// A pattern that does not compile gives no answer.
#[verifier::external_body]
fn search(pattern: &str, haystack: &str) -> (r: Option<bool>)
    ensures
        r == regex_search(pattern@, haystack@),
{
    match regex::Regex::new(pattern) {
        Ok(re) => Some(re.is_match(haystack)),
        Err(_) => None,
    }
}

/// Whether a rule applies to a window: the rule names no bundle or the
/// bundle of the window's application, and the rule's pattern was found
/// in the window's title.
pub open spec fn rule_applies(
    rule: WindowParamsView,
    found: Option<bool>,
    bundle_id: Seq<char>,
) -> bool {
    (rule.bundle_id.is_none() || rule.bundle_id.unwrap() == bundle_id) && found == Some(true)
}

impl WindowParams {
    /// A rule for the titles that match `title`, which sets nothing yet.
    /// A `title` that is no regular expression is refused.
    pub fn new(title: String, bundle_id: Option<String>) -> (r: Result<WindowParams, Error>)
        ensures
            match r {
                Ok(p) => regex_search(title@, Seq::<char>::empty()).is_some() && p@ == (
                WindowParamsView {
                    title: title@,
                    bundle_id: match bundle_id {
                        Some(id) => Some(id@),
                        None => None,
                    },
                    floating: None,
                    index: None,
                    vertical_padding: None,
                    horizontal_padding: None,
                    dont_focus: None,
                    width: None,
                }),
                Err(e) => e == Error::InvalidConfig && regex_search(
                    title@,
                    Seq::<char>::empty(),
                ).is_none(),
            },
    {
        let empty = String::new();
        match search(title.as_str(), empty.as_str()) {
            Some(_) => Ok(
                WindowParams {
                    title,
                    bundle_id,
                    floating: None,
                    index: None,
                    vertical_padding: None,
                    horizontal_padding: None,
                    dont_focus: None,
                    width: None,
                },
            ),
            None => Err(Error::InvalidConfig),
        }
    }

    /// Decides whether the rule applies, given whether its pattern was
    /// found in the window's title.
    pub fn applies(&self, found: Option<bool>, bundle_id: &str) -> (r: bool)
        ensures
            r == rule_applies(self@, found, bundle_id@),
    {
        let bundle_match = match &self.bundle_id {
            Some(id) => same_text(id.as_str(), bundle_id),
            None => true,
        };
        bundle_match && match found {
            Some(found) => found,
            None => false,
        }
    }

    /// Whether the rule applies to a window with this title that belongs
    /// to an application of this bundle.
    pub fn matches(&self, title: &str, bundle_id: &str) -> (r: bool)
        ensures
            r == rule_applies(self@, regex_search(self.title@, title@), bundle_id@),
    {
        let found = search(self.title.as_str(), title);
        self.applies(found, bundle_id)
    }

    /// A copy of the rule.
    pub fn duplicate(&self) -> (r: WindowParams)
        ensures
            r@ == self@,
    {
        WindowParams {
            title: self.title.clone(),
            bundle_id: match &self.bundle_id {
                Some(id) => Some(id.clone()),
                None => None,
            },
            floating: self.floating,
            index: self.index,
            vertical_padding: self.vertical_padding,
            horizontal_padding: self.horizontal_padding,
            dont_focus: self.dont_focus,
            width: self.width,
        }
    }
}

/// The views of a list of rules.
pub open spec fn rule_views(v: Seq<WindowParams>) -> Seq<WindowParamsView> {
    Seq::new(v.len(), |i: int| v[i]@)
}

/// Those of the first `k` rules that apply to a window with this title
/// and bundle, in order.
pub open spec fn matching_rules(
    rules: Seq<WindowParamsView>,
    title: Seq<char>,
    bundle_id: Seq<char>,
    k: int,
) -> Seq<WindowParamsView>
    decreases k,
{
    if k <= 0 {
        Seq::empty()
    } else if rule_applies(rules[k - 1], regex_search(rules[k - 1].title, title), bundle_id) {
        matching_rules(rules, title, bundle_id, k - 1).push(rules[k - 1])
    } else {
        matching_rules(rules, title, bundle_id, k - 1)
    }
}

/// The configuration in force.
#[derive(Debug)]
pub struct Config {
    options: MainOptions,
    bindings: Vec<Keybinding>,
    windows: Vec<WindowParams>,
}

/// The command of the first of the first `k` bindings for the key `code`
/// held with `mask`.
pub open spec fn keybind_of(
    bindings: Seq<KeybindingView>,
    code: u8,
    mask: Modifiers,
    from: int,
) -> Option<Command>
    decreases bindings.len() - from,
{
    if from < 0 || from >= bindings.len() {
        None
    } else if bindings[from].code == code && bindings[from].modifiers == mask {
        Some(bindings[from].command)
    } else {
        keybind_of(bindings, code, mask, from + 1)
    }
}

impl Config {
    pub closed spec fn spec_options(&self) -> MainOptions {
        self.options
    }

    /// The key bindings, in the order they are looked through.
    pub closed spec fn spec_bindings(&self) -> Seq<KeybindingView> {
        binding_views(self.bindings@)
    }

    /// The window rules, in the order they are looked through.
    pub closed spec fn spec_windows(&self) -> Seq<WindowParamsView> {
        rule_views(self.windows@)
    }

    /// A configuration with these options, bindings and window rules.
    pub fn new(options: MainOptions, bindings: Vec<Keybinding>, windows: Vec<WindowParams>) -> (c:
        Config)
        ensures
            c.spec_options() == options,
            c.spec_bindings() == binding_views(bindings@),
            c.spec_windows() == rule_views(windows@),
    {
        Config { options, bindings, windows }
    }

    /// The options as they were set.
    pub fn options(&self) -> (o: &MainOptions)
        ensures
            *o == self.spec_options(),
    {
        &self.options
    }

    pub open spec fn spec_focus_follows_mouse(&self) -> bool {
        self.spec_options().focus_follows_mouse != Some(false)
    }

    /// Whether the focus follows the mouse; it does unless told otherwise.
    #[verifier::when_used_as_spec(spec_focus_follows_mouse)]
    pub fn focus_follows_mouse(&self) -> (r: bool)
        ensures
            r == self.spec_focus_follows_mouse(),
    {
        match self.options.focus_follows_mouse {
            Some(on) => on,
            None => true,
        }
    }

    pub open spec fn spec_mouse_follows_focus(&self) -> bool {
        self.spec_options().mouse_follows_focus != Some(false)
    }

    /// Whether the mouse follows the focus; it does unless told otherwise.
    #[verifier::when_used_as_spec(spec_mouse_follows_focus)]
    pub fn mouse_follows_focus(&self) -> (r: bool)
        ensures
            r == self.spec_mouse_follows_focus(),
    {
        match self.options.mouse_follows_focus {
            Some(on) => on,
            None => true,
        }
    }

    pub open spec fn spec_auto_center(&self) -> bool {
        self.spec_options().auto_center == Some(true)
    }

    /// Whether a newly focused window is centered; not unless asked for.
    #[verifier::when_used_as_spec(spec_auto_center)]
    pub fn auto_center(&self) -> (r: bool)
        ensures
            r == self.spec_auto_center(),
    {
        match self.options.auto_center {
            Some(on) => on,
            None => false,
        }
    }

    pub open spec fn spec_free_slide(&self) -> bool {
        self.spec_options().free_slide == Some(true)
    }

    /// Whether a swipe may scroll past the ends of the strip; not unless
    /// asked for.
    #[verifier::when_used_as_spec(spec_free_slide)]
    pub fn free_slide(&self) -> (r: bool)
        ensures
            r == self.spec_free_slide(),
    {
        match self.options.free_slide {
            Some(on) => on,
            None => false,
        }
    }

    /// With how many fingers a swipe scrolls the strip, if with any.
    pub fn swipe_gesture_fingers(&self) -> (r: Option<usize>)
        ensures
            r == self.spec_options().swipe_gesture_fingers,
    {
        self.options.swipe_gesture_fingers
    }

    pub open spec fn spec_animation_speed(&self) -> u64 {
        let speed = match self.spec_options().animation_speed {
            Some(speed) => speed,
            None => 1_000_000_000,
        };
        if speed < 5_000 {
            500
        } else {
            speed / 10
        }
    }

    /// How fast windows move, in thousandths of the display's width per
    /// second. Without a configured speed windows move at once, as good as;
    /// a configured speed counts as at least half a width per second.
    #[verifier::when_used_as_spec(spec_animation_speed)]
    pub fn animation_speed(&self) -> (r: u64)
        ensures
            r == self.spec_animation_speed(),
    {
        let speed: u64 = match self.options.animation_speed {
            Some(speed) => speed,
            None => 1_000_000_000,
        };
        if speed < 5_000 {
            500
        } else {
            speed / 10
        }
    }

    pub open spec fn spec_sliver_height(&self) -> Ratio {
        match self.spec_options().sliver_height {
            Some(Ratio(h)) => if h < 100_000 {
                Ratio(100_000)
            } else if h > 1_000_000 {
                Ratio(1_000_000)
            } else {
                Ratio(h)
            },
            None => Ratio(1_000_000),
        }
    }

    /// How much of the display's height an off-screen window keeps: all of
    /// it by default, and never less than a tenth.
    #[verifier::when_used_as_spec(spec_sliver_height)]
    pub fn sliver_height(&self) -> (r: Ratio)
        ensures
            r == self.spec_sliver_height(),
    {
        match self.options.sliver_height {
            Some(Ratio(h)) => if h < 100_000 {
                Ratio(100_000)
            } else if h > 1_000_000 {
                Ratio(1_000_000)
            } else {
                Ratio(h)
            },
            None => Ratio(1_000_000),
        }
    }

    pub open spec fn spec_sliver_width(&self) -> i32 {
        match self.spec_options().sliver_width {
            Some(w) => if w < 1 {
                1
            } else {
                w as i32
            },
            None => 5,
        }
    }

    /// How many pixels of an off-screen window stay in view: five by
    /// default, and never less than one.
    #[verifier::when_used_as_spec(spec_sliver_width)]
    pub fn sliver_width(&self) -> (r: i32)
        ensures
            r == self.spec_sliver_width(),
    {
        match self.options.sliver_width {
            Some(w) => if w < 1 {
                1
            } else {
                w as i32
            },
            None => 5,
        }
    }

    pub open spec fn spec_edge_padding(&self) -> EdgePadding {
        let o = self.spec_options();
        EdgePadding {
            top: match o.padding_top {
                Some(p) => p as i32,
                None => 0,
            },
            right: match o.padding_right {
                Some(p) => p as i32,
                None => 0,
            },
            bottom: match o.padding_bottom {
                Some(p) => p as i32,
                None => 0,
            },
            left: match o.padding_left {
                Some(p) => p as i32,
                None => 0,
            },
        }
    }

    /// The padding kept free at the edges of a display; none by default.
    #[verifier::when_used_as_spec(spec_edge_padding)]
    pub fn edge_padding(&self) -> (r: EdgePadding)
        ensures
            r == self.spec_edge_padding(),
    {
        EdgePadding {
            top: match self.options.padding_top {
                Some(p) => p as i32,
                None => 0,
            },
            right: match self.options.padding_right {
                Some(p) => p as i32,
                None => 0,
            },
            bottom: match self.options.padding_bottom {
                Some(p) => p as i32,
                None => 0,
            },
            left: match self.options.padding_left {
                Some(p) => p as i32,
                None => 0,
            },
        }
    }

    /// The widths that resizing cycles through, as they were set.
    pub fn preset_column_widths(&self) -> (r: &Vec<Ratio>)
        ensures
            r@ == self.spec_options().preset_column_widths@,
    {
        &self.options.preset_column_widths
    }

    /// The command bound to the key `keycode` held with `mask`: that of
    /// the first such binding.
    pub fn find_keybind(&self, keycode: u8, mask: &Modifiers) -> (r: Option<Command>)
        ensures
            r == keybind_of(self.spec_bindings(), keycode, *mask, 0),
    {
        let mut i: usize = 0;
        while i < self.bindings.len()
            invariant
                i <= self.bindings.len(),
                keybind_of(self.spec_bindings(), keycode, *mask, 0) == keybind_of(
                    self.spec_bindings(),
                    keycode,
                    *mask,
                    i as int,
                ),
            decreases self.bindings.len() - i,
        {
            let bind = &self.bindings[i];
            assert(self.spec_bindings()[i as int] == bind@);
            if bind.code == keycode && bind.modifiers == *mask {
                return Some(bind.command);
            }
            i += 1;
        }
        None
    }

    /// The rules that apply to a window with this title that belongs to an
    /// application of this bundle, in the order of the configuration.
    pub fn find_window_properties(&self, title: &str, bundle_id: &str) -> (r: Vec<WindowParams>)
        ensures
            rule_views(r@) == matching_rules(
                self.spec_windows(),
                title@,
                bundle_id@,
                self.spec_windows().len() as int,
            ),
    {
        let mut out: Vec<WindowParams> = Vec::new();
        let mut i: usize = 0;
        while i < self.windows.len()
            invariant
                i <= self.windows.len(),
                rule_views(out@) == matching_rules(
                    self.spec_windows(),
                    title@,
                    bundle_id@,
                    i as int,
                ),
            decreases self.windows.len() - i,
        {
            let rule = &self.windows[i];
            assert(self.spec_windows()[i as int] == rule@);
            if rule.matches(title, bundle_id) {
                let ghost before = rule_views(out@);
                out.push(rule.duplicate());
                assert(rule_views(out@) =~= before.push(rule@));
            }
            i += 1;
        }
        out
    }
}

} // verus!
