//! The hotkey: from key state reports to press and release events.
use crate::common::types::HotkeyEvent;
use crate::text;
use vstd::prelude::*;

verus! {

/// The flag that is set while the Fn key is down.
pub const FN_FLAG: u64 = 0x80_0000;

/// The flag that is set while a Command key is down.
pub const COMMAND_FLAG: u64 = 0x10_0000;

/// The key code of the right Command key.
pub const RIGHT_COMMAND: u16 = 0x36;

/// The name of the Fn key in the configuration.
pub const FN_KEY: &'static str = "fn";

/// The name of the right Command (Meta) key in the configuration.
pub const RIGHT_COMMAND_KEY: &'static str = "right_cmd";

/// The event that a report of the hotkey's state gives: a change of state is an
/// event, a repeated report is none.
pub open spec fn key_event(was_down: bool, down: bool) -> Option<HotkeyEvent> {
    if down && !was_down {
        Some(HotkeyEvent::Pressed)
    } else if !down && was_down {
        Some(HotkeyEvent::Released)
    } else {
        None
    }
}

/// What a change of the modifier flags says about the hotkey: the Fn flag for
/// the Fn key; for the right Command key its own key code, and the Command flag.
/// Of any other key the flags say nothing.
pub open spec fn flags_report(key: Seq<char>, keycode: u16, flags: u64) -> Option<bool> {
    if key == FN_KEY@ {
        Some(flags & FN_FLAG != 0)
    } else if key == RIGHT_COMMAND_KEY@ && keycode == RIGHT_COMMAND {
        Some(flags & COMMAND_FLAG == COMMAND_FLAG)
    } else {
        None
    }
}

/// What the press or release of a key says about the hotkey: all there is to say
/// where it is that key, and nothing where it is another.
pub open spec fn key_report(hotkey: Seq<char>, key: Seq<char>, down: bool) -> Option<bool> {
    if key == hotkey {
        Some(down)
    } else {
        None
    }
}

/// Whether the hotkey is one that is listened for by changes of the modifier
/// flags: the Fn key or the right Command key.
pub open spec fn is_modifier(key: Seq<char>) -> bool {
    key == FN_KEY@ || key == RIGHT_COMMAND_KEY@
}

/// Hotkey listener: keeps the hotkey's state and turns reports of it into press
/// and release events.
pub struct HotkeyListener {
    hotkey: String,
    pressed: bool,
    press_count: u64,
    release_count: u64,
}

impl HotkeyListener {
    /// The configured hotkey.
    pub closed spec fn key(self) -> Seq<char> {
        self.hotkey@
    }

    /// Whether the hotkey is held down.
    pub closed spec fn down(self) -> bool {
        self.pressed
    }

    /// How often the hotkey was pressed, modulo the counter's range.
    pub closed spec fn presses(self) -> u64 {
        self.press_count
    }

    /// How often the hotkey was released, modulo the counter's range.
    pub closed spec fn releases(self) -> u64 {
        self.release_count
    }

    /// The listener after a report of the hotkey's state, where there was one,
    /// and the event that it gives.
    pub open spec fn reported(
        before: HotkeyListener,
        report: Option<bool>,
        after: HotkeyListener,
        event: Option<HotkeyEvent>,
    ) -> bool {
        &&& after.key() == before.key()
        &&& match report {
            Some(down) => {
                &&& event == key_event(before.down(), down)
                &&& after.down() == down
                &&& after.presses() == (if event == Some(HotkeyEvent::Pressed) {
                    before.presses().wrapping_add(1)
                } else {
                    before.presses()
                })
                &&& after.releases() == (if event == Some(HotkeyEvent::Released) {
                    before.releases().wrapping_add(1)
                } else {
                    before.releases()
                })
            },
            None => event is None && after == before,
        }
    }

    /// A listener for the given hotkey, which is taken to be up.
    pub fn new(hotkey: String) -> (r: HotkeyListener)
        ensures
            r.key() == hotkey@,
            !r.down(),
            r.presses() == 0,
            r.releases() == 0,
    {
        HotkeyListener { hotkey, pressed: false, press_count: 0, release_count: 0 }
    }

    /// Whether the hotkey is the Fn key.
    pub fn is_fn_key(&self) -> (r: bool)
        ensures
            r == (self.key() == FN_KEY@),
    {
        text::same_text(self.hotkey.as_str(), FN_KEY)
    }

    /// Whether the hotkey is listened for by changes of the modifier flags; any
    /// other is listened for by its key events.
    pub fn uses_flags(&self) -> (r: bool)
        ensures
            r == is_modifier(self.key()),
    {
        self.is_fn_key() || text::same_text(self.hotkey.as_str(), RIGHT_COMMAND_KEY)
    }

    /// Whether to warn that the hotkey cannot be had: the Fn key, anywhere but on
    /// macOS.
    pub fn needs_warning(&self, on_macos: bool) -> (r: bool)
        ensures
            r == (self.key() == FN_KEY@ && !on_macos),
    {
        self.is_fn_key() && !on_macos
    }

    /// The name of the key that is listened for.
    pub fn key_name(&self) -> (r: String)
        ensures
            r@ == (if self.key() == FN_KEY@ {
                "Fn"@
            } else if self.key() == RIGHT_COMMAND_KEY@ {
                "Right Command"@
            } else {
                self.key()
            }),
    {
        if self.is_fn_key() {
            "Fn".to_owned()
        } else if text::same_text(self.hotkey.as_str(), RIGHT_COMMAND_KEY) {
            "Right Command".to_owned()
        } else {
            self.hotkey.clone()
        }
    }

    /// How often the hotkey was pressed and released.
    pub fn counts(&self) -> (r: (u64, u64))
        ensures
            r == (self.presses(), self.releases()),
    {
        (self.press_count, self.release_count)
    }

    /// Takes in the hotkey's state.
    fn set_down(&mut self, down: bool) -> (event: Option<HotkeyEvent>)
        ensures
            HotkeyListener::reported(*old(self), Some(down), *final(self), event),
    {
        let was: bool = self.pressed;
        self.pressed = down;
        if down && !was {
            self.press_count = self.press_count.wrapping_add(1);
            Some(HotkeyEvent::Pressed)
        } else if !down && was {
            self.release_count = self.release_count.wrapping_add(1);
            Some(HotkeyEvent::Released)
        } else {
            None
        }
    }

    /// Takes in a change of the modifier flags.
    pub fn on_flags_changed(&mut self, keycode: u16, flags: u64) -> (event: Option<HotkeyEvent>)
        ensures
            HotkeyListener::reported(
                *old(self),
                flags_report(old(self).key(), keycode, flags),
                *final(self),
                event,
            ),
    {
        if self.is_fn_key() {
            self.set_down(flags & FN_FLAG != 0)
        } else if keycode == RIGHT_COMMAND && text::same_text(
            self.hotkey.as_str(),
            RIGHT_COMMAND_KEY,
        ) {
            self.set_down(flags & COMMAND_FLAG == COMMAND_FLAG)
        } else {
            None
        }
    }

    /// Takes in the press (`down`) or release of the key with the given name.
    pub fn on_key(&mut self, key: &str, down: bool) -> (event: Option<HotkeyEvent>)
        ensures
            HotkeyListener::reported(
                *old(self),
                key_report(old(self).key(), key@, down),
                *final(self),
                event,
            ),
    {
        if text::same_text(key, self.hotkey.as_str()) {
            self.set_down(down)
        } else {
            None
        }
    }
}

// ── Laws ─────────────────────────────────────────────────────────────────────

/// The hotkey's state after a run of reports, from a given state on.
pub open spec fn state_after(down: bool, reports: Seq<Option<bool>>) -> bool
    decreases reports.len(),
{
    if reports.len() == 0 {
        down
    } else {
        match reports.last() {
            Some(d) => d,
            None => state_after(down, reports.drop_last()),
        }
    }
}

/// The events of a run of reports, from a given state on.
pub open spec fn events_of(down: bool, reports: Seq<Option<bool>>) -> Seq<HotkeyEvent>
    decreases reports.len(),
{
    if reports.len() == 0 {
        seq![]
    } else {
        let before = events_of(down, reports.drop_last());
        match reports.last() {
            Some(d) => match key_event(state_after(down, reports.drop_last()), d) {
                Some(e) => before.push(e),
                None => before,
            },
            None => before,
        }
    }
}

/// However the key's state is reported, the events of a listener that starts
/// with the key up are presses and releases in turn, a press first; the last is
/// a press exactly while the key is down.
pub proof fn law_events_alternate(reports: Seq<Option<bool>>)
    ensures
        ({
            let events = events_of(false, reports);
            &&& forall|k: int|
                0 <= k < events.len() ==> (#[trigger] events[k] == HotkeyEvent::Pressed <==> k % 2
                    == 0)
            &&& state_after(false, reports) <==> events.len() % 2 == 1
        }),
    decreases reports.len(),
{
    if reports.len() > 0 {
        law_events_alternate(reports.drop_last());
    }
}

/// A report that repeats the key's state gives no event: key repeats change
/// nothing.
pub proof fn law_repeats_are_ignored(down: bool, reports: Seq<Option<bool>>)
    requires
        reports.len() > 0,
        reports.last() == Some(state_after(down, reports.drop_last())),
    ensures
        events_of(down, reports) == events_of(down, reports.drop_last()),
        state_after(down, reports) == state_after(down, reports.drop_last()),
{
}

/// Only the configured key gives events: no other key's press or release says
/// anything, nor do the modifier flags where the hotkey is neither of the keys
/// that they tell of.
pub proof fn law_other_keys_say_nothing(
    hotkey: Seq<char>,
    key: Seq<char>,
    down: bool,
    keycode: u16,
    flags: u64,
)
    ensures
        key != hotkey ==> key_report(hotkey, key, down) is None,
        key == hotkey ==> key_report(hotkey, key, down) == Some(down),
        !is_modifier(hotkey) ==> flags_report(hotkey, keycode, flags) is None,
{
}

/// A report gives a press where the key goes down, a release where it goes up,
/// and nothing where it stays as it was.
pub proof fn law_events_are_changes(was_down: bool, down: bool)
    ensures
        key_event(was_down, down) == Some(HotkeyEvent::Pressed) <==> down && !was_down,
        key_event(was_down, down) == Some(HotkeyEvent::Released) <==> !down && was_down,
        key_event(was_down, down) is None <==> down == was_down,
{
}

/// Of the modifier flags, bit 23 tells whether the Fn key is down, and bit 20
/// whether a Command key is. The Fn key is read off any change of the flags, the
/// right Command key off those of its own key code, 54, alone.
pub proof fn law_modifier_flags(key: Seq<char>, keycode: u16, flags: u64)
    ensures
        key == "fn"@ ==> flags_report(key, keycode, flags) == Some(flags / 0x80_0000 % 2 == 1),
        key == "right_cmd"@ && keycode == 54 ==> flags_report(key, keycode, flags) == Some(
            flags / 0x10_0000 % 2 == 1,
        ),
        key == "right_cmd"@ && keycode != 54 ==> flags_report(key, keycode, flags) is None,
        key != "fn"@ && key != "right_cmd"@ ==> flags_report(key, keycode, flags) is None,
        is_modifier(key) <==> key == "fn"@ || key == "right_cmd"@,
{
    reveal_strlit("fn");
    reveal_strlit("right_cmd");
    assert("fn"@.len() == 2 && "right_cmd"@.len() == 9);
    assert(flags & 0x80_0000 != 0 <==> flags / 0x80_0000 % 2 == 1) by (bit_vector);
    assert(flags & 0x10_0000 == 0x10_0000 <==> flags / 0x10_0000 % 2 == 1) by (bit_vector);
}

/// What a report does to a listener: it holds the reported state, counts a press
/// or a release that it gives, and nothing else changes.
pub proof fn law_reports_are_taken_in(
    before: HotkeyListener,
    down: bool,
    after: HotkeyListener,
    event: Option<HotkeyEvent>,
)
    ensures
        HotkeyListener::reported(before, Some(down), after, event) ==> {
            &&& after.key() == before.key()
            &&& after.down() == down
            &&& event == if down == before.down() {
                None
            } else if down {
                Some(HotkeyEvent::Pressed)
            } else {
                Some(HotkeyEvent::Released)
            }
            &&& after.presses() == if down && !before.down() {
                before.presses().wrapping_add(1)
            } else {
                before.presses()
            }
            &&& after.releases() == if !down && before.down() {
                before.releases().wrapping_add(1)
            } else {
                before.releases()
            }
        },
        HotkeyListener::reported(before, None, after, event) ==> event is None && after == before,
{
}

}
