//! Remote control: what a viewer's window reports, and what a host's virtual input device is told.
use vstd::prelude::*;
use vstd::string::*;

verus! {

pub const KEYBOARD: i32 = 0;

pub const MOUSE: i32 = 1;

pub const TOUCH: i32 = 2;

pub const BUTTON_NONE: i32 = 0;

pub const BUTTON_LEFT: i32 = 1;

pub const BUTTON_RIGHT: i32 = 2;

pub const BUTTON_MIDDLE: i32 = 3;

pub const PRESS: i32 = 0;

pub const RELEASE: i32 = 1;

pub const MOVE: i32 = 2;

pub const EV_SYN: u16 = 0x00;

pub const EV_KEY: u16 = 0x01;

pub const EV_REL: u16 = 0x02;

pub const EV_ABS: u16 = 0x03;

pub const SYN_REPORT: u16 = 0x00;

/// The code of the first axis, relative or absolute.
pub const AXIS_X: u16 = 0x00;

/// The code of the second axis, relative or absolute.
pub const AXIS_Y: u16 = 0x01;

pub const BTN_LEFT: u16 = 0x110;

pub const BTN_RIGHT: u16 = 0x111;

pub const BTN_MIDDLE: u16 = 0x112;

pub const BTN_TOUCH: u16 = 0x14a;

/// What a viewer has done with its keyboard, its mouse or its touchscreen.
#[derive(Clone, Copy, Debug, PartialEq, Eq, Structural)]
pub struct InputEvent {
    pub event_type: i32,
    pub key_code: u32,
    pub x: u32,
    pub y: u32,
    pub button: i32,
    pub action: i32,
}

/// What an input device is told: a type, a code and a value.
#[derive(Clone, Copy, Debug, PartialEq, Eq, Structural)]
pub struct RawEvent {
    pub kind: u16,
    pub code: u16,
    pub value: i32,
}

/// The low sixteen bits of a number.
pub open spec fn low_bits(n: u32) -> u16 {
    (n as int % 0x1_0000) as u16
}

/// A number of 32 bits, read as one with a sign.
pub open spec fn signed(n: u32) -> i32 {
    if n < 0x8000_0000 {
        n as i32
    } else {
        (n - 0x1_0000_0000) as i32
    }
}

/// The code of a mouse button, if it is one that the device has.
pub open spec fn button_code(button: i32) -> Option<u16> {
    if button == BUTTON_LEFT {
        Some(BTN_LEFT)
    } else if button == BUTTON_RIGHT {
        Some(BTN_RIGHT)
    } else if button == BUTTON_MIDDLE {
        Some(BTN_MIDDLE)
    } else {
        None
    }
}

/// A key that is pressed or let go.
pub open spec fn key(code: u16, down: bool) -> RawEvent {
    RawEvent {
        kind: EV_KEY,
        code,
        value: if down {
            1
        } else {
            0
        },
    }
}

/// What is moved along both axes.
pub open spec fn along(kind: u16, e: InputEvent) -> Seq<RawEvent> {
    seq![
        RawEvent { kind, code: AXIS_X, value: signed(e.x) },
        RawEvent { kind, code: AXIS_Y, value: signed(e.y) },
    ]
}

/// The end of what is told at once.
pub open spec fn sync() -> RawEvent {
    RawEvent { kind: EV_SYN, code: SYN_REPORT, value: 0 }
}

/// What the device is told of an event.
pub open spec fn injected(e: InputEvent) -> Seq<RawEvent> {
    if e.event_type == KEYBOARD {
        if e.action == PRESS || e.action == RELEASE {
            seq![key(low_bits(e.key_code), e.action == PRESS), sync()]
        } else {
            seq![sync()]
        }
    } else if e.event_type == MOUSE {
        if e.action == MOVE {
            along(EV_REL, e).push(sync())
        } else if e.action == PRESS || e.action == RELEASE {
            match button_code(e.button) {
                Some(code) => seq![key(code, e.action == PRESS), sync()],
                None => Seq::empty(),
            }
        } else {
            Seq::empty()
        }
    } else if e.event_type == TOUCH {
        if e.action == PRESS {
            along(EV_ABS, e).push(key(BTN_TOUCH, true)).push(sync())
        } else if e.action == MOVE {
            along(EV_ABS, e).push(sync())
        } else if e.action == RELEASE {
            seq![key(BTN_TOUCH, false), sync()]
        } else {
            Seq::empty()
        }
    } else {
        Seq::empty()
    }
}

fn to_signed(n: u32) -> (r: i32)
    ensures
        r == signed(n),
{
    if n < 0x8000_0000 {
        n as i32
    } else {
        (n as i64 - 0x1_0000_0000) as i32
    }
}

fn button_code_of(button: i32) -> (r: Option<u16>)
    ensures
        r == button_code(button),
{
    if button == BUTTON_LEFT {
        Some(BTN_LEFT)
    } else if button == BUTTON_RIGHT {
        Some(BTN_RIGHT)
    } else if button == BUTTON_MIDDLE {
        Some(BTN_MIDDLE)
    } else {
        None
    }
}

/// The input device of a host. Without access to a device nothing is told to any.
#[derive(Debug)]
pub struct Injector {
    enabled: bool,
}

impl Injector {
    /// Whether there is a device.
    pub closed spec fn has_device(&self) -> bool {
        self.enabled
    }

    /// The input device of a host, from whether it could be opened.
    pub fn new(opened: bool) -> (r: Injector)
        ensures
            r.has_device() == opened,
    {
        Injector { enabled: opened }
    }

    /// Whether there is a device.
    pub fn is_enabled(&self) -> (r: bool)
        ensures
            r == self.has_device(),
    {
        self.enabled
    }

    /// What the device is told of an event, in order; nothing where there is none.
    pub fn inject(&mut self, event: &InputEvent) -> (r: Vec<RawEvent>)
        ensures
            *final(self) == *old(self),
            r@ == (if old(self).has_device() {
                injected(*event)
            } else {
                Seq::empty()
            }),
    {
        let mut out: Vec<RawEvent> = Vec::new();
        if !self.enabled {
            return out;
        }
        let down: i32 = if event.action == PRESS {
            1
        } else {
            0
        };
        let pressed_or_released = event.action == PRESS || event.action == RELEASE;
        if event.event_type == KEYBOARD {
            if pressed_or_released {
                let code = (event.key_code % 0x1_0000) as u16;
                out.push(RawEvent { kind: EV_KEY, code, value: down });
            }
            out.push(RawEvent { kind: EV_SYN, code: SYN_REPORT, value: 0 });
        } else if event.event_type == MOUSE {
            if event.action == MOVE {
                out.push(RawEvent { kind: EV_REL, code: AXIS_X, value: to_signed(event.x) });
                out.push(RawEvent { kind: EV_REL, code: AXIS_Y, value: to_signed(event.y) });
                out.push(RawEvent { kind: EV_SYN, code: SYN_REPORT, value: 0 });
            } else if pressed_or_released {
                match button_code_of(event.button) {
                    Some(code) => {
                        out.push(RawEvent { kind: EV_KEY, code, value: down });
                        out.push(RawEvent { kind: EV_SYN, code: SYN_REPORT, value: 0 });
                    },
                    None => (),
                }
            }
        } else if event.event_type == TOUCH {
            if event.action == PRESS || event.action == MOVE {
                out.push(RawEvent { kind: EV_ABS, code: AXIS_X, value: to_signed(event.x) });
                out.push(RawEvent { kind: EV_ABS, code: AXIS_Y, value: to_signed(event.y) });
                if event.action == PRESS {
                    out.push(RawEvent { kind: EV_KEY, code: BTN_TOUCH, value: 1 });
                }
                out.push(RawEvent { kind: EV_SYN, code: SYN_REPORT, value: 0 });
            } else if event.action == RELEASE {
                out.push(RawEvent { kind: EV_KEY, code: BTN_TOUCH, value: 0 });
                out.push(RawEvent { kind: EV_SYN, code: SYN_REPORT, value: 0 });
            }
        }
        assert(out@ =~= injected(*event));
        out
    }
}

/// Whatever is told to the device is told as a whole: the end, and only the end, is marked.
pub proof fn law_injection_ends_with_sync(e: InputEvent)
    ensures
        injected(e).len() > 0 ==> injected(e).last() == sync(),
        forall|i: int| 0 <= i < injected(e).len() - 1 ==> #[trigger] injected(e)[i] != sync(),
{
    assert forall|i: int| 0 <= i < injected(e).len() - 1 implies #[trigger] injected(e)[i] != sync() by {
        assert(injected(e)[i].kind != EV_SYN);
    }
}

/// A request that sets up a device: its number and its argument.
#[derive(Clone, Copy, Debug, PartialEq, Eq, Structural)]
pub struct SetupRequest {
    pub request: u32,
    pub value: i32,
}

pub const UI_DEV_CREATE: u32 = 0x5501;

pub const UI_SET_EVBIT: u32 = 0x4004_5564;

pub const UI_SET_KEYBIT: u32 = 0x4004_5565;

pub const UI_SET_RELBIT: u32 = 0x4004_5566;

pub const UI_SET_ABSBIT: u32 = 0x4004_5567;

/// A request with its argument.
pub open spec fn setup(request: u32, value: int) -> SetupRequest {
    SetupRequest { request, value: value as i32 }
}

/// The requests that set up a device, before it is described: the kinds of events, the buttons,
/// all keys, and both axes, relative and absolute.
pub open spec fn setup_plan() -> Seq<SetupRequest> {
    seq![
        setup(UI_SET_EVBIT, 1),
        setup(UI_SET_EVBIT, 2),
        setup(UI_SET_EVBIT, 3),
        setup(UI_SET_KEYBIT, 0x110),
        setup(UI_SET_KEYBIT, 0x111),
        setup(UI_SET_KEYBIT, 0x112),
        setup(UI_SET_KEYBIT, 0x14a),
    ] + Seq::new(255, |i: int| setup(UI_SET_KEYBIT, i + 1)) + seq![
        setup(UI_SET_RELBIT, 0),
        setup(UI_SET_RELBIT, 1),
        setup(UI_SET_ABSBIT, 0),
        setup(UI_SET_ABSBIT, 1),
    ]
}

/// The requests that set up a device, before it is described.
pub fn setup_requests() -> (r: Vec<SetupRequest>)
    ensures
        r@ == setup_plan(),
{
    let mut r: Vec<SetupRequest> = Vec::new();
    r.push(SetupRequest { request: UI_SET_EVBIT, value: 1 });
    r.push(SetupRequest { request: UI_SET_EVBIT, value: 2 });
    r.push(SetupRequest { request: UI_SET_EVBIT, value: 3 });
    r.push(SetupRequest { request: UI_SET_KEYBIT, value: 0x110 });
    r.push(SetupRequest { request: UI_SET_KEYBIT, value: 0x111 });
    r.push(SetupRequest { request: UI_SET_KEYBIT, value: 0x112 });
    r.push(SetupRequest { request: UI_SET_KEYBIT, value: 0x14a });
    let ghost head = r@;
    let mut code: i32 = 1;
    while code <= 255
        invariant
            1 <= code <= 256,
            r@ == head + Seq::new((code - 1) as nat, |i: int| setup(UI_SET_KEYBIT, i + 1)),
        decreases 256 - code,
    {
        let ghost was = r@;
        r.push(SetupRequest { request: UI_SET_KEYBIT, value: code });
        code = code + 1;
        assert(r@ =~= head + Seq::new((code - 1) as nat, |i: int| setup(UI_SET_KEYBIT, i + 1)));
    }
    r.push(SetupRequest { request: UI_SET_RELBIT, value: 0 });
    r.push(SetupRequest { request: UI_SET_RELBIT, value: 1 });
    r.push(SetupRequest { request: UI_SET_ABSBIT, value: 0 });
    r.push(SetupRequest { request: UI_SET_ABSBIT, value: 1 });
    assert(r@ =~= setup_plan());
    r
}

/// The largest value on each of the 64 absolute axes: the two that a picture has go to its edges,
/// the others are unused.
pub fn axis_limits() -> (r: Vec<i32>)
    ensures
        r@ == Seq::new(
            64,
            |i: int|
                if i == 0 {
                    1920i32
                } else if i == 1 {
                    1080i32
                } else {
                    -1i32
                },
        ),
{
    let mut r: Vec<i32> = Vec::new();
    r.push(1920);
    r.push(1080);
    while r.len() < 64
        invariant
            2 <= r@.len() <= 64,
            r@[0] == 1920,
            r@[1] == 1080,
            forall|i: int| 2 <= i < r@.len() ==> r@[i] == -1,
        decreases 64 - r@.len(),
    {
        r.push(-1);
    }
    assert(r@ =~= Seq::new(
        64,
        |i: int|
            if i == 0 {
                1920i32
            } else if i == 1 {
                1080i32
            } else {
                -1i32
            },
    ));
    r
}

/// The event of a key. A key without a code has the code 0.
pub fn keyboard_event(key_code: Option<u32>, pressed: bool) -> (r: InputEvent)
    ensures
        r == (InputEvent {
            event_type: KEYBOARD,
            key_code: match key_code {
                Some(c) => c,
                None => 0,
            },
            x: 0,
            y: 0,
            button: BUTTON_NONE,
            action: if pressed {
                PRESS
            } else {
                RELEASE
            },
        }),
{
    let key_code = match key_code {
        Some(c) => c,
        None => 0,
    };
    let action = if pressed {
        PRESS
    } else {
        RELEASE
    };
    InputEvent { event_type: KEYBOARD, key_code, x: 0, y: 0, button: BUTTON_NONE, action }
}

/// The event of a pointer that has moved.
pub fn cursor_event(x: u32, y: u32) -> (r: InputEvent)
    ensures
        r == (InputEvent {
            event_type: MOUSE,
            key_code: 0,
            x,
            y,
            button: BUTTON_NONE,
            action: MOVE,
        }),
{
    InputEvent { event_type: MOUSE, key_code: 0, x, y, button: BUTTON_NONE, action: MOVE }
}

/// A button of a viewer's mouse.
#[derive(Clone, Copy, Debug, PartialEq, Eq, Structural)]
pub enum WindowButton {
    Left,
    Right,
    Middle,
    Other,
}

/// The number of a mouse button.
pub open spec fn button_number(b: WindowButton) -> i32 {
    match b {
        WindowButton::Left => BUTTON_LEFT,
        WindowButton::Right => BUTTON_RIGHT,
        WindowButton::Middle => BUTTON_MIDDLE,
        WindowButton::Other => BUTTON_NONE,
    }
}

/// The event of a mouse button.
pub fn mouse_event(button: WindowButton, pressed: bool) -> (r: InputEvent)
    ensures
        r == (InputEvent {
            event_type: MOUSE,
            key_code: 0,
            x: 0,
            y: 0,
            button: button_number(button),
            action: if pressed {
                PRESS
            } else {
                RELEASE
            },
        }),
{
    let number = match button {
        WindowButton::Left => BUTTON_LEFT,
        WindowButton::Right => BUTTON_RIGHT,
        WindowButton::Middle => BUTTON_MIDDLE,
        WindowButton::Other => BUTTON_NONE,
    };
    let action = if pressed {
        PRESS
    } else {
        RELEASE
    };
    InputEvent { event_type: MOUSE, key_code: 0, x: 0, y: 0, button: number, action }
}

/// A button that a viewer presses is pressed at the host, if it is one of the three that mice have;
/// any other button does nothing.
pub proof fn law_buttons_arrive(b: WindowButton, pressed: bool, e: InputEvent)
    requires
        e.event_type == MOUSE,
        e.button == button_number(b),
        e.action == (if pressed {
            PRESS
        } else {
            RELEASE
        }),
    ensures
        injected(e) == (match b {
            WindowButton::Left => seq![key(BTN_LEFT, pressed), sync()],
            WindowButton::Right => seq![key(BTN_RIGHT, pressed), sync()],
            WindowButton::Middle => seq![key(BTN_MIDDLE, pressed), sync()],
            WindowButton::Other => Seq::empty(),
        }),
{
}

/// The title of a viewer's window.
pub fn window_title(host_device_id: &str) -> (r: String)
    ensures
        r@ == "Nexus \u{2014} "@ + host_device_id@,
{
    "Nexus \u{2014} ".to_owned().concat(host_device_id)
}

} // verus!
