use vstd::prelude::*;

use crate::text::{chars_of, occurs_at};

verus! {

// ---------------------------------------------------------------------------
// Codes from evdev
// ---------------------------------------------------------------------------

/// Code of the F1 key.
pub open spec fn key_f1() -> u16 {
    59
}

/// Code of the F2 key.
pub open spec fn key_f2() -> u16 {
    60
}

/// Code of the A key (marks a keyboard).
pub open spec fn key_a() -> u16 {
    30
}

/// Code of the side mouse button ("mouse 4").
pub open spec fn btn_side() -> u16 {
    0x113
}

/// Code of the extra mouse button.
pub open spec fn btn_extra() -> u16 {
    0x114
}

/// Event type of key and button events.
pub open spec fn ev_key() -> u16 {
    1
}

/// `evdev::KeyCode::KEY_F1`, whose code the crate defines as 59.
#[verifier::external_body]
fn code_key_f1() -> (c: u16)
    ensures
        c == key_f1(),
{
    evdev::KeyCode::KEY_F1.0
}

/// `evdev::KeyCode::KEY_F2`, whose code the crate defines as 60.
#[verifier::external_body]
fn code_key_f2() -> (c: u16)
    ensures
        c == key_f2(),
{
    evdev::KeyCode::KEY_F2.0
}

/// `evdev::KeyCode::KEY_A`, whose code the crate defines as 30.
#[verifier::external_body]
fn code_key_a() -> (c: u16)
    ensures
        c == key_a(),
{
    evdev::KeyCode::KEY_A.0
}

/// `evdev::KeyCode::BTN_SIDE`, whose code the crate defines as 0x113.
#[verifier::external_body]
fn code_btn_side() -> (c: u16)
    ensures
        c == btn_side(),
{
    evdev::KeyCode::BTN_SIDE.0
}

/// `evdev::KeyCode::BTN_EXTRA`, whose code the crate defines as 0x114.
#[verifier::external_body]
fn code_btn_extra() -> (c: u16)
    ensures
        c == btn_extra(),
{
    evdev::KeyCode::BTN_EXTRA.0
}

/// `evdev::EventType::KEY`, whose type number the crate defines as 1.
#[verifier::external_body]
fn type_key() -> (t: u16)
    ensures
        t == ev_key(),
{
    evdev::EventType::KEY.0
}

// ---------------------------------------------------------------------------
// Decisions
// ---------------------------------------------------------------------------

/// The keys that work push-to-talk: F1 and the side mouse buttons.
pub open spec fn ptt_code(code: u16) -> bool {
    code == key_f1() || code == btn_side() || code == btn_extra()
}

/// Whether a key code works push-to-talk.
pub fn is_ptt_code(code: u16) -> (r: bool)
    ensures
        r == ptt_code(code),
{
    code == code_key_f1() || code == code_btn_side() || code == code_btn_extra()
}

/// What an input event asks for.
pub enum HotkeyAction {
    PttPress,
    PttRelease,
    ToggleMeeting,
}

/// The action of an input event: push-to-talk keys pressed and released, F2 pressed
/// toggles the meeting; anything else (other types, key repeats) does nothing.
pub fn key_event_action(event_type: u16, code: u16, value: i32) -> (r: Option<HotkeyAction>)
    ensures
        event_type != ev_key() ==> r is None,
        event_type == ev_key() && ptt_code(code) && value == 1 ==> r matches Some(
            HotkeyAction::PttPress,
        ),
        event_type == ev_key() && ptt_code(code) && value == 0 ==> r matches Some(
            HotkeyAction::PttRelease,
        ),
        event_type == ev_key() && !(ptt_code(code) && (value == 0 || value == 1)) ==> (if code
            == key_f2() && value == 1 {
            r matches Some(HotkeyAction::ToggleMeeting)
        } else {
            r is None
        }),
{
    if event_type != type_key() {
        return None;
    }
    if is_ptt_code(code) && (value == 1 || value == 0) {
        if value == 1 {
            Some(HotkeyAction::PttPress)
        } else {
            Some(HotkeyAction::PttRelease)
        }
    } else if code == code_key_f2() && value == 1 {
        Some(HotkeyAction::ToggleMeeting)
    } else {
        None
    }
}

pub open spec fn event_prefix() -> Seq<char> {
    seq!['e', 'v', 'e', 'n', 't']
}

/// The device node is an event device (`event*`).
pub fn is_event_node(name: &str) -> (r: bool)
    ensures
        r == occurs_at(name@, event_prefix(), 0),
{
    let cs = chars_of(name);
    if cs.len() < 5 {
        return false;
    }
    let r = cs[0] == 'e' && cs[1] == 'v' && cs[2] == 'e' && cs[3] == 'n' && cs[4] == 't';
    assert(r == (cs@.subrange(0, 5) =~= event_prefix()));
    r
}

fn has_code(codes: &Vec<u16>, code: u16) -> (r: bool)
    ensures
        r == codes@.contains(code),
{
    let n = codes.len();
    for i in 0..n
        invariant
            n == codes@.len(),
            forall|j: int| 0 <= j < i ==> codes@[j] != code,
    {
        if codes[i] == code {
            assert(codes@[i as int] == code);
            return true;
        }
    }
    false
}

/// Whether to listen to a device: an event node that reports keys, with a keyboard's A key
/// or a side mouse button among them.
pub fn should_watch(node_name: &str, supported_keys: &Option<Vec<u16>>) -> (r: bool)
    ensures
        r == (occurs_at(node_name@, event_prefix(), 0) && match supported_keys {
            Some(keys) => keys@.contains(key_a()) || keys@.contains(btn_side()) || keys@.contains(
                btn_extra(),
            ),
            None => false,
        }),
{
    if !is_event_node(node_name) {
        return false;
    }
    match supported_keys {
        None => false,
        Some(keys) => has_code(keys, code_key_a()) || has_code(keys, code_btn_side()) || has_code(
            keys,
            code_btn_extra(),
        ),
    }
}

} // verus!
