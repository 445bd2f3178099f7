//! What the keys do.

use vstd::prelude::*;
use vstd::slice::*;

verus! {

pub const XK_ESCAPE: u32 = 0xff1b;

pub const XK_RETURN: u32 = 0xff0d;

pub const XK_LEFT: u32 = 0xff51;

pub const XK_UP: u32 = 0xff52;

pub const XK_RIGHT: u32 = 0xff53;

pub const XK_DOWN: u32 = 0xff54;

/// The letter `h`.
pub const XK_H: u32 = 0x68;

/// The letter `j`.
pub const XK_J: u32 = 0x6a;

/// The letter `k`.
pub const XK_K: u32 = 0x6b;

/// The letter `l`.
pub const XK_L: u32 = 0x6c;

pub const XK_SUPER_L: u32 = 0xffeb;

pub const XK_SUPER_R: u32 = 0xffec;

/// What a key asks of the overview.
#[derive(Debug, Clone, Copy, PartialEq, Eq, Structural)]
pub enum KeyAction {
    Close,
    Confirm,
    Left,
    Right,
    Up,
    Down,
}

/// Which symbols the keys of the keyboard carry: `keysyms_per_keycode` for each key, from the
/// key `min_keycode` on.
#[derive(Debug)]
pub struct KeyMap {
    pub min_keycode: u8,
    pub keysyms_per_keycode: usize,
    pub keysyms: Vec<u32>,
}

/// How many keys there are from `min` to `max`.
pub open spec fn key_count(min: u8, max: u8) -> int {
    if max < min {
        1
    } else if max - min >= 0xff {
        0xff
    } else {
        max - min + 1
    }
}

/// How many keys to ask the server about, which has the keys from `min_keycode` to
/// `max_keycode`; at most as many as one request can name.
pub fn keycode_count(min_keycode: u8, max_keycode: u8) -> (count: u8)
    ensures
        count == key_count(min_keycode, max_keycode),
{
    max_keycode.saturating_sub(min_keycode).saturating_add(1)
}

/// What a key with these symbols does; the first line that applies decides.
pub open spec fn action_of(keysyms: Seq<u32>) -> Option<KeyAction> {
    if keysyms.contains(XK_ESCAPE) {
        Some(KeyAction::Close)
    } else if keysyms.contains(XK_RETURN) {
        Some(KeyAction::Confirm)
    } else if keysyms.contains(XK_LEFT) || keysyms.contains(XK_H) {
        Some(KeyAction::Left)
    } else if keysyms.contains(XK_RIGHT) || keysyms.contains(XK_L) {
        Some(KeyAction::Right)
    } else if keysyms.contains(XK_UP) || keysyms.contains(XK_K) {
        Some(KeyAction::Up)
    } else if keysyms.contains(XK_DOWN) || keysyms.contains(XK_J) {
        Some(KeyAction::Down)
    } else {
        None
    }
}

fn carries(keysyms: &[u32], keysym: u32) -> (found: bool)
    ensures
        found == keysyms@.contains(keysym),
{
    let mut i: usize = 0;
    while i < keysyms.len()
        invariant
            i <= keysyms@.len(),
            forall|j: int| 0 <= j < i ==> keysyms@[j] != keysym,
        decreases keysyms@.len() - i,
    {
        if keysyms[i] == keysym {
            assert(keysyms@[i as int] == keysym);
            return true;
        }
        i += 1;
    }
    false
}

impl KeyMap {
    /// The symbols of a key, if the map has the key.
    pub open spec fn symbols(self, keycode: u8) -> Option<Seq<u32>> {
        let start = (keycode - self.min_keycode) * self.keysyms_per_keycode;
        let end = start + self.keysyms_per_keycode;
        if keycode < self.min_keycode || end > self.keysyms@.len() {
            None
        } else {
            Some(self.keysyms@.subrange(start, end))
        }
    }

    /// The symbols of a key.
    pub fn keysyms_for_keycode(&self, keycode: u8) -> (keysyms: Option<&[u32]>)
        ensures
            match self.symbols(keycode) {
                None => keysyms is None,
                Some(symbols) => keysyms is Some && keysyms->0@ == symbols,
            },
    {
        if keycode < self.min_keycode {
            return None;
        }
        let known: usize = self.keysyms.len();
        let offset: usize = (keycode - self.min_keycode) as usize;
        let count: usize = self.keysyms_per_keycode;
        assert(0 <= offset * count) by (nonlinear_arith)
            requires
                0 <= offset,
                0 <= count,
        ;
        let start: usize = match offset.checked_mul(count) {
            Some(start) => start,
            None => return None,
        };
        let end: usize = match start.checked_add(count) {
            Some(end) => end,
            None => return None,
        };
        if end > known {
            return None;
        }
        Some(slice_subrange(self.keysyms.as_slice(), start, end))
    }

    /// What a key does.
    pub fn action_for_keycode(&self, keycode: u8) -> (action: Option<KeyAction>)
        ensures
            action == (match self.symbols(keycode) {
                None => None,
                Some(symbols) => action_of(symbols),
            }),
    {
        let keysyms: &[u32] = match self.keysyms_for_keycode(keycode) {
            Some(keysyms) => keysyms,
            None => return None,
        };
        if carries(keysyms, XK_ESCAPE) {
            return Some(KeyAction::Close);
        }
        if carries(keysyms, XK_RETURN) {
            return Some(KeyAction::Confirm);
        }
        if carries(keysyms, XK_LEFT) || carries(keysyms, XK_H) {
            return Some(KeyAction::Left);
        }
        if carries(keysyms, XK_RIGHT) || carries(keysyms, XK_L) {
            return Some(KeyAction::Right);
        }
        if carries(keysyms, XK_UP) || carries(keysyms, XK_K) {
            return Some(KeyAction::Up);
        }
        if carries(keysyms, XK_DOWN) || carries(keysyms, XK_J) {
            return Some(KeyAction::Down);
        }
        None
    }

    /// Whether a key is one of the two super keys.
    pub fn is_super_keycode(&self, keycode: u8) -> (result: bool)
        ensures
            result == (match self.symbols(keycode) {
                None => false,
                Some(symbols) => symbols.contains(XK_SUPER_L) || symbols.contains(XK_SUPER_R),
            }),
    {
        match self.keysyms_for_keycode(keycode) {
            Some(keysyms) => carries(keysyms, XK_SUPER_L) || carries(keysyms, XK_SUPER_R),
            None => false,
        }
    }
}

/// A key with one symbol does what the symbol stands for: Escape closes, Return picks, and the
/// arrows and `h`, `j`, `k` and `l` move. A key without any of these does nothing.
pub proof fn law_symbols_stand_for_actions(symbols: Seq<u32>, symbol: u32)
    requires
        symbols.len() > 0,
        forall|i: int| 0 <= i < symbols.len() ==> #[trigger] symbols[i] == symbol || symbols[i]
            == 0,
        symbols.contains(symbol),
    ensures
        action_of(symbols) == (if symbol == 0xff1b {
            Some(KeyAction::Close)
        } else if symbol == 0xff0d {
            Some(KeyAction::Confirm)
        } else if symbol == 0xff51 || symbol == 0x68 {
            Some(KeyAction::Left)
        } else if symbol == 0xff53 || symbol == 0x6c {
            Some(KeyAction::Right)
        } else if symbol == 0xff52 || symbol == 0x6b {
            Some(KeyAction::Up)
        } else if symbol == 0xff54 || symbol == 0x6a {
            Some(KeyAction::Down)
        } else {
            None
        }),
{
    assert forall|other: u32| other != symbol && other != 0 implies !#[trigger] symbols.contains(
        other,
    ) by {}
}

/// A key with several symbols does what comes first of closing, picking, left, right, up and
/// down: adding a symbol to a key never makes it do a later one of these.
pub proof fn law_more_symbols_never_defer(symbols: Seq<u32>, more: u32)
    ensures
        action_of(symbols) matches Some(action) ==> {
            &&& action_of(symbols.push(more)) matches Some(now)
            &&& turn(now) <= turn(action)
        },
        !symbols.contains(0xff1b) && more != 0xff1b ==> action_of(symbols.push(more)) != Some(
            KeyAction::Close,
        ),
{
    assert forall|symbol: u32| #[trigger] symbols.contains(symbol) implies symbols.push(
        more,
    ).contains(symbol) by {
        let i = choose|i: int| 0 <= i < symbols.len() && symbols[i] == symbol;
        assert(symbols.push(more)[i] == symbol);
    }
    assert forall|symbol: u32| #[trigger] symbols.push(more).contains(symbol) implies symbol
        == more || symbols.contains(symbol) by {
        let i = choose|i: int|
            0 <= i < symbols.push(more).len() && symbols.push(more)[i] == symbol;
        if i < symbols.len() {
            assert(symbols[i] == symbol);
        }
    }
}

/// The turn in which an action is looked for.
pub open spec fn turn(action: KeyAction) -> int {
    match action {
        KeyAction::Close => 0,
        KeyAction::Confirm => 1,
        KeyAction::Left => 2,
        KeyAction::Right => 3,
        KeyAction::Up => 4,
        KeyAction::Down => 5,
    }
}

/// The symbols of a key are its share of the list, key by key from the first; a key below the
/// first or past the list has none.
pub proof fn law_keys_have_their_share(map: KeyMap, keycode: u8, i: int)
    requires
        0 <= i < map.keysyms_per_keycode,
    ensures
        ({
            let place = (keycode - map.min_keycode) * map.keysyms_per_keycode + i;
            match map.symbols(keycode) {
                Some(symbols) => {
                    &&& symbols.len() == map.keysyms_per_keycode
                    &&& 0 <= place < map.keysyms@.len()
                    &&& symbols[i] == map.keysyms@[place]
                },
                None => keycode < map.min_keycode || (keycode - map.min_keycode + 1)
                    * map.keysyms_per_keycode > map.keysyms@.len(),
            }
        }),
{
    let before = keycode - map.min_keycode;
    let share = map.keysyms_per_keycode as int;
    assert((before + 1) * share == before * share + share) by (nonlinear_arith);
    if before >= 0 {
        assert(before * share >= 0) by (nonlinear_arith)
            requires
                before >= 0,
                share >= 0,
        ;
    }
}

/// All the keys from the first to the last are asked about, as far as one request can.
pub proof fn law_all_keys_are_asked_about(min: u8, max: u8)
    ensures
        min <= max && !(min == 0 && max == 255) ==> min + key_count(min, max) - 1 == max,
        min == 0 && max == 255 ==> key_count(min, max) == 255,
        max < min ==> key_count(min, max) == 1,
{
}

}
