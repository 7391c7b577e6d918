//! Characters of key events. The host hands over the code point of a typed character, but the
//! decoded event holds only its lowest byte; here it is put right.

use vstd::prelude::*;

use crate::host::{BareKey, Key};
use crate::plugin::{Event, EventV};

verus! {

/// The code point of a character: any number up to `0x10FFFF` but the surrogates.
pub open spec fn scalar(n: int) -> bool {
    0 <= n <= 0xD7FF || 0xE000 <= n <= 0x10FFFF
}

/// `char::from_u32` gives the character of a code point, and nothing for a number that is none.
pub assume_specification[ char::from_u32 ](i: u32) -> (r: Option<char>)
    ensures
        r is Some == scalar(i as int),
        r is Some ==> r->0 as int == i,
;

/// The character that a key event names by its code point.
pub fn decoded_char(raw: Option<i32>) -> (r: Option<char>)
    ensures
        r is Some == (raw is Some && scalar(raw->0 as int)),
        r is Some ==> r->0 as int == raw->0,
{
    match raw {
        Some(raw) => if raw >= 0 {
            char::from_u32(raw as u32)
        } else {
            None
        },
        None => None,
    }
}

/// The event with this character in place of the one that was decoded.
pub open spec fn restored(event: EventV, decoded: Option<char>) -> EventV {
    match (event, decoded) {
        (EventV::InterceptedKeyPress(key), Some(c)) => EventV::InterceptedKeyPress(
            Key { bare: BareKey::Char(c), ..key },
        ),
        _ => event,
    }
}

/// Puts the character into a key event.
pub fn restore_char_key(event: Event, decoded: Option<char>) -> (r: Event)
    ensures
        r@ == restored(event@, decoded),
{
    match decoded {
        Some(c) => match event {
            Event::InterceptedKeyPress(key) => Event::InterceptedKeyPress(
                Key { bare: BareKey::Char(c), ..key },
            ),
            other => other,
        },
        None => event,
    }
}

/// Every character survives: the event of a typed character names that very character.
pub proof fn law_typed_character_survives(key: Key, c: char, raw: i32)
    requires
        raw == c as int,
    ensures
        scalar(raw as int),
        restored(EventV::InterceptedKeyPress(key), Some(c)) == EventV::InterceptedKeyPress(
            Key { bare: BareKey::Char(c), ..key },
        ),
{
}

} // verus!
