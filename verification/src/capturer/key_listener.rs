//! The clip hotkey of the capturer: left Control together with N.
use vstd::prelude::*;
use crate::key_listener::{Key, KeyEvent};

verus! {

/// Which of the hotkey's keys are held.
pub struct KeyFlags {
    pub ctrl: bool,
    pub n: bool,
}

/// The flags after `event`, before the hotkey check.
pub open spec fn flags_after(flags: KeyFlags, event: KeyEvent) -> KeyFlags {
    match event {
        KeyEvent::KeyPress(Key::ControlLeft) => KeyFlags { ctrl: true, n: flags.n },
        KeyEvent::KeyRelease(Key::ControlLeft) => KeyFlags { ctrl: false, n: flags.n },
        KeyEvent::KeyPress(Key::KeyN) => KeyFlags { ctrl: flags.ctrl, n: true },
        KeyEvent::KeyRelease(Key::KeyN) => KeyFlags { ctrl: flags.ctrl, n: false },
        _ => flags,
    }
}

/// Tracks left Control and N and fires when both are held; firing
/// consumes the N, so holding both fires once.
pub struct KeyListener {
    key_flags: KeyFlags,
}

impl KeyListener {
    /// The flags held.
    pub closed spec fn flags(&self) -> KeyFlags {
        self.key_flags
    }

    /// A listener with neither key held.
    pub fn new() -> (l: Self)
        ensures
            l.flags() == (KeyFlags { ctrl: false, n: false }),
    {
        KeyListener { key_flags: KeyFlags { ctrl: false, n: false } }
    }

    /// Updates the flags for `event`; returns whether the hotkey fires,
    /// which is when both keys are held afterwards, and then clears N.
    pub fn handle_event(&mut self, event: KeyEvent) -> (fire: bool)
        ensures
            ({
                let f = flags_after(old(self).flags(), event);
                &&& fire == (f.ctrl && f.n)
                &&& final(self).flags() == (if fire { KeyFlags { ctrl: f.ctrl, n: false } } else { f })
            }),
            (fire, final(self).flags()) == hotkey_step(old(self).flags(), event),
            event == KeyEvent::KeyRelease(Key::KeyN) ==> !fire && !final(self).flags().n,
            event == KeyEvent::KeyRelease(Key::ControlLeft) ==> !fire && !final(self).flags().ctrl,
            !(final(self).flags().ctrl && final(self).flags().n),
    {
        match event {
            KeyEvent::KeyPress(Key::ControlLeft) => self.key_flags.ctrl = true,
            KeyEvent::KeyRelease(Key::ControlLeft) => self.key_flags.ctrl = false,
            KeyEvent::KeyPress(Key::KeyN) => self.key_flags.n = true,
            KeyEvent::KeyRelease(Key::KeyN) => self.key_flags.n = false,
            _ => {},
        }
        if self.key_flags.ctrl && self.key_flags.n {
            self.key_flags.n = false;
            true
        } else {
            false
        }
    }
}

/// What one event does to the listener: whether the hotkey fires, and the
/// flags held afterwards.
pub open spec fn hotkey_step(flags: KeyFlags, event: KeyEvent) -> (bool, KeyFlags) {
    let f = flags_after(flags, event);
    if f.ctrl && f.n {
        (true, KeyFlags { ctrl: f.ctrl, n: false })
    } else {
        (false, f)
    }
}

/// Releasing N never fires the hotkey, leaves N not held and Control as it
/// was, whatever was held before.
pub proof fn law_hotkey_release_n_clears_n(flags: KeyFlags)
    ensures
        !hotkey_step(flags, KeyEvent::KeyRelease(Key::KeyN)).0,
        !hotkey_step(flags, KeyEvent::KeyRelease(Key::KeyN)).1.n,
        hotkey_step(flags, KeyEvent::KeyRelease(Key::KeyN)).1.ctrl == flags.ctrl,
{
}

/// Once N has been released, no event but N going down again fires the
/// hotkey: in particular Control going down alone stays silent.
pub proof fn law_hotkey_silent_after_n_released(flags: KeyFlags, event: KeyEvent)
    requires
        event != KeyEvent::KeyPress(Key::KeyN),
    ensures
        !hotkey_step(hotkey_step(flags, KeyEvent::KeyRelease(Key::KeyN)).1, event).0,
        !hotkey_step(
            hotkey_step(flags, KeyEvent::KeyRelease(Key::KeyN)).1,
            KeyEvent::KeyPress(Key::ControlLeft),
        ).0,
{
}

/// From any state in which the two keys are not both held (every state a
/// listener reaches), the hotkey fires only on the key press that completes
/// it: N going down while Control is held, or Control going down while N
/// is held. And after any event the two are never both held.
pub proof fn law_hotkey_fires_on_completing_press(flags: KeyFlags, event: KeyEvent)
    ensures
        !(hotkey_step(flags, event).1.ctrl && hotkey_step(flags, event).1.n),
        !(flags.ctrl && flags.n) && hotkey_step(flags, event).0 ==> {
            ||| event == KeyEvent::KeyPress(Key::KeyN) && flags.ctrl
            ||| event == KeyEvent::KeyPress(Key::ControlLeft) && flags.n
        },
        flags.ctrl ==> hotkey_step(flags, KeyEvent::KeyPress(Key::KeyN)).0,
        flags.n ==> hotkey_step(flags, KeyEvent::KeyPress(Key::ControlLeft)).0,
{
}

/// After the hotkey fires it cannot fire again until N goes down anew:
/// every other event leaves it silent.
pub proof fn law_hotkey_fires_once_per_press(flags: KeyFlags, event: KeyEvent)
    requires
        !flags.n,
        event != KeyEvent::KeyPress(Key::KeyN),
    ensures
        !flags_after(flags, event).n,
{
}

} // verus!
