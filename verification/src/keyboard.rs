//! Keyboard input for the snake game: translating key events into the game's
//! keys and remembering the latest one until it is taken.
use vstd::prelude::*;

verus! {

/// Event type of a key press or release.
pub const EV_KEY: u16 = 1;
/// Key code of `q`.
pub const KEY_Q: u16 = 16;
/// Key code of `w`.
pub const KEY_W: u16 = 17;
/// Key code of `a`.
pub const KEY_A: u16 = 30;
/// Key code of `s`.
pub const KEY_S: u16 = 31;
/// Key code of `d`.
pub const KEY_D: u16 = 32;

/// An input event as the keyboard device reports it.
#[derive(Clone, Copy, Debug, PartialEq, Eq, Structural)]
pub struct KeyEvent {
    /// Event type; [`EV_KEY`] for keys.
    pub event_type: u16,
    /// Key code.
    pub code: u16,
    /// Non-zero for a press or repeat, zero for a release.
    pub value: u32,
}

/// The game key of a key code: `w`, `a`, `s`, `d` or `q`.
pub open spec fn spec_keycode_to_ascii(code: u16) -> Option<u8> {
    if code == KEY_W {
        Some(119u8)
    } else if code == KEY_A {
        Some(97u8)
    } else if code == KEY_S {
        Some(115u8)
    } else if code == KEY_D {
        Some(100u8)
    } else if code == KEY_Q {
        Some(113u8)
    } else {
        None
    }
}

/// The game key of a key code, if it is one of `w`, `a`, `s`, `d`, `q`.
pub fn keycode_to_ascii(code: u16) -> (key: Option<u8>)
    ensures
        key == spec_keycode_to_ascii(code),
{
    match code {
        KEY_W => Some(119),
        KEY_A => Some(97),
        KEY_S => Some(115),
        KEY_D => Some(100),
        KEY_Q => Some(113),
        _ => None,
    }
}

/// The latest key that has not been taken yet.
pub struct KeyLatch {
    /// Zero when no key is waiting, otherwise the key plus one.
    pub last: usize,
}

/// The latch after `events`, starting from `last`: each press of a game key
/// replaces what it holds.
pub open spec fn latched_after(last: usize, events: Seq<KeyEvent>) -> usize
    decreases events.len(),
{
    if events.len() == 0 {
        last
    } else {
        let before = latched_after(last, events.drop_last());
        let e = events.last();
        if e.event_type == EV_KEY && e.value != 0 && spec_keycode_to_ascii(e.code) is Some {
            (spec_keycode_to_ascii(e.code).unwrap() as usize + 1) as usize
        } else {
            before
        }
    }
}

impl KeyLatch {
    /// A latch with no key waiting.
    pub fn new() -> (latch: Self)
        ensures
            latch.last == 0,
    {
        KeyLatch { last: 0 }
    }
}

/// Remembers the latest game key pressed among the pending `events`.
pub fn refresh(latch: &mut KeyLatch, events: &Vec<KeyEvent>)
    ensures
        final(latch).last == latched_after(old(latch).last, events@),
{
    let mut i: usize = 0;
    while i < events.len()
        invariant
            i <= events@.len(),
            latch.last == latched_after(old(latch).last, events@.subrange(0, i as int)),
        decreases events@.len() - i,
    {
        let event = events[i];
        if event.event_type == EV_KEY && event.value != 0 {
            if let Some(byte) = keycode_to_ascii(event.code) {
                latch.last = byte as usize + 1;
            }
        }
        proof {
            assert(events@.subrange(0, i + 1).drop_last() =~= events@.subrange(0, i as int));
        }
        i += 1;
    }
    proof {
        assert(events@.subrange(0, events@.len() as int) =~= events@);
    }
}

/// The key that a latch value stands for.
pub open spec fn latched_key(last: usize) -> Option<u8> {
    if last == 0 {
        None
    } else {
        Some((last - 1) as u8)
    }
}

/// Takes the latest game key, after the pending `events`, and empties the
/// latch.
pub fn take(latch: &mut KeyLatch, events: &Vec<KeyEvent>) -> (key: Option<u8>)
    ensures
        key == latched_key(latched_after(old(latch).last, events@)),
        final(latch).last == 0,
{
    refresh(latch, events);
    let val = latch.last;
    latch.last = 0;
    if val == 0 {
        None
    } else {
        Some((val - 1) as u8)
    }
}

/// A key pressed and taken is gone: taking again with no new events gives
/// nothing, and a game key pressed last is what the next take gives.
pub proof fn lemma_take_latest(last: usize, events: Seq<KeyEvent>, e: KeyEvent)
    requires
        e.event_type == EV_KEY,
        e.value != 0,
        spec_keycode_to_ascii(e.code) is Some,
    ensures
        latched_key(latched_after(0, Seq::empty())) is None,
        latched_key(latched_after(last, events.push(e))) == spec_keycode_to_ascii(e.code),
{
    assert(events.push(e).drop_last() =~= events);
}

} // verus!
