use vstd::prelude::*;
use crate::rect::{Dimensions, Point};
use vstd::string::*;

verus! {

/// The button numbers that the window system gives the three mouse buttons.
pub const MOUSE_BTN_LEFT: u8 = 1;
pub const MOUSE_BTN_MIDDLE: u8 = 2;
pub const MOUSE_BTN_RIGHT: u8 = 3;

/// Key codes that text input reacts to.
pub const KEY_BACKSPACE: i32 = 8;
pub const KEY_DELETE: i32 = 127;
pub const KEY_RIGHT: i32 = 1073741903;
pub const KEY_LEFT: i32 = 1073741904;
pub const KEY_HOME: i32 = 1073741898;
pub const KEY_END: i32 = 1073741901;

/// Status bits of a button.
pub const STATUS_DOWN: u8 = 1;
pub const STATUS_UP: u8 = 2;
pub const STATUS_HELD: u8 = 4;
pub const STATUS_PRESSED: u8 = 8;
pub const STATUS_ALL: u8 = 15;

/// The squared distance (in pixels) below which a press and a release count as a click.
pub const MAX_CLICK_DIST_SQ: i64 = 100;

/// The three mouse buttons, in the order of `Event::mouse_buttons`.
#[derive(Copy, Clone, PartialEq, Eq, Debug)]
pub enum Mouse {
    Left,
    Right,
    Middle,
}

impl Mouse {
    /// The button with the window system's number `v`.
    pub fn from_u8(v: u8) -> (m: Option<Self>)
        ensures
            m == (if v == MOUSE_BTN_LEFT {
                Some(Mouse::Left)
            } else if v == MOUSE_BTN_RIGHT {
                Some(Mouse::Right)
            } else if v == MOUSE_BTN_MIDDLE {
                Some(Mouse::Middle)
            } else {
                None
            }),
    {
        if v == MOUSE_BTN_LEFT {
            Some(Mouse::Left)
        } else if v == MOUSE_BTN_RIGHT {
            Some(Mouse::Right)
        } else if v == MOUSE_BTN_MIDDLE {
            Some(Mouse::Middle)
        } else {
            None
        }
    }

    /// The position of the button in `Event::mouse_buttons`.
    pub open spec fn slot(self) -> int {
        match self {
            Mouse::Left => 0,
            Mouse::Right => 1,
            Mouse::Middle => 2,
        }
    }

    /// The position of the button in `Event::mouse_buttons`.
    pub fn index(&self) -> (i: usize)
        ensures
            i == self.slot(),
    {
        match self {
            Mouse::Left => 0,
            Mouse::Right => 1,
            Mouse::Middle => 2,
        }
    }
}

/// A state a button can be in.
#[derive(Copy, Clone, PartialEq, Eq, Debug)]
pub enum Status {
    Down,
    Up,
    Held,
    Pressed,
    All,
}

impl Status {
    /// The status bit (or, for `All`, the bits) of the state.
    pub fn bits(&self) -> (b: u8)
        ensures
            b == match self {
                Status::Down => STATUS_DOWN,
                Status::Up => STATUS_UP,
                Status::Held => STATUS_HELD,
                Status::Pressed => STATUS_PRESSED,
                Status::All => STATUS_ALL,
            },
    {
        match self {
            Status::Down => STATUS_DOWN,
            Status::Up => STATUS_UP,
            Status::Held => STATUS_HELD,
            Status::Pressed => STATUS_PRESSED,
            Status::All => STATUS_ALL,
        }
    }
}

/// Whether the status byte has any of the bits of `bit` set.
pub open spec fn has_bit(status: u8, bit: u8) -> bool {
    status & bit != 0
}

/// A mouse button: where it was pressed, for how long it has been held, and its
/// status bits for this frame.
#[derive(Copy, Clone, Debug)]
pub struct MouseButton {
    pub mouse: Mouse,
    pub click_pos: Point,
    pub duration: u32,
    pub status: u8,
}

impl MouseButton {
    /// A button that has not been touched.
    pub fn new(mouse: Mouse) -> (b: Self)
        ensures
            b.mouse == mouse,
            b.click_pos == (Point { x: 0, y: 0 }),
            b.duration == 0,
            b.status == 0,
    {
        MouseButton { mouse, click_pos: Point { x: 0, y: 0 }, duration: 0, status: 0 }
    }

    /// Went down this frame.
    pub fn down(&self) -> (r: bool)
        ensures
            r == has_bit(self.status, STATUS_DOWN),
    {
        self.status & STATUS_DOWN != 0
    }

    /// Went up this frame.
    pub fn up(&self) -> (r: bool)
        ensures
            r == has_bit(self.status, STATUS_UP),
    {
        self.status & STATUS_UP != 0
    }

    /// Is held down.
    pub fn held(&self) -> (r: bool)
        ensures
            r == has_bit(self.status, STATUS_HELD),
    {
        self.status & STATUS_HELD != 0
    }

    /// Was released this frame close to where it went down.
    pub fn clicked(&self) -> (r: bool)
        ensures
            r == has_bit(self.status, STATUS_PRESSED),
    {
        self.status & STATUS_PRESSED != 0
    }

    /// Nothing happened to the button.
    pub fn no_action(&self) -> (r: bool)
        ensures
            r == !has_bit(self.status, STATUS_ALL),
    {
        self.status & STATUS_ALL == 0
    }
}

/// A key: its code, for how long it has been held, and its status bits for this
/// frame.
#[derive(Copy, Clone, Debug)]
pub struct KeyButton {
    pub key: i32,
    pub duration: u32,
    pub status: u8,
}

impl KeyButton {
    /// A key that has not been touched.
    pub fn new(key: i32) -> (b: Self)
        ensures
            b == fresh_key(key),
    {
        KeyButton { key, duration: 0, status: 0 }
    }

    /// Went down this frame.
    pub fn down(&self) -> (r: bool)
        ensures
            r == has_bit(self.status, STATUS_DOWN),
    {
        self.status & STATUS_DOWN != 0
    }

    /// Went up this frame.
    pub fn up(&self) -> (r: bool)
        ensures
            r == has_bit(self.status, STATUS_UP),
    {
        self.status & STATUS_UP != 0
    }

    /// Is held down.
    pub fn held(&self) -> (r: bool)
        ensures
            r == has_bit(self.status, STATUS_HELD),
    {
        self.status & STATUS_HELD != 0
    }

    /// Was pressed (or repeated) this frame.
    pub fn pressed(&self) -> (r: bool)
        ensures
            r == has_bit(self.status, STATUS_PRESSED),
    {
        self.status & STATUS_PRESSED != 0
    }

    /// Nothing happened to the key.
    pub fn no_action(&self) -> (r: bool)
        ensures
            r == !has_bit(self.status, STATUS_ALL),
    {
        self.status & STATUS_ALL == 0
    }
}

/// An untouched key.
pub open spec fn fresh_key(key: i32) -> KeyButton {
    KeyButton { key, duration: 0, status: 0 }
}

/// Where text editing asked the cursor to jump.
#[derive(Copy, Clone, PartialEq, Eq, Debug)]
pub enum InputSeek {
    Idle,
    Start,
    End,
}

/// An event from the window system, with what the input state needs of it.
#[derive(Clone, Debug)]
pub enum SdlEvent {
    Quit,
    /// The window was shown; its size at that time.
    WindowShown { w: i32, h: i32 },
    /// The window was resized to the given size.
    WindowResized { w: i32, h: i32 },
    MouseButtonDown { button: u8 },
    MouseButtonUp { button: u8 },
    MouseMotion { xrel: i32, yrel: i32 },
    MouseWheel { y: i32 },
    /// A key went down; whether text input was active at the time.
    KeyDown { key: i32, text_input: bool },
    KeyUp { key: i32 },
    TextInput { text: String },
    /// Anything else: ignored.
    Other,
}

/// The input state of one frame.
pub struct Event {
    pub dt: u32,
    pub quit: bool,
    pub resized: bool,
    pub old_dim: Dimensions<u32>,
    pub new_dim: Dimensions<u32>,
    pub mouse: Point,
    pub abs_mouse: Point,
    pub mouse_delta: Point,
    pub scroll: i32,
    pub input_text: String,
    pub input_backspace: i32,
    pub input_delete: i32,
    pub input_move: i32,
    pub input_seek: InputSeek,
    pub mouse_buttons: [MouseButton; 3],
    /// One entry per key seen so far, each key once.
    pub key_buttons: Vec<KeyButton>,
}

/// The position of key `k` in `keys`.
pub open spec fn key_pos(keys: Seq<KeyButton>, k: i32) -> Option<int>
    decreases keys.len(),
{
    if keys.len() == 0 {
        None
    } else if keys.last().key == k {
        match key_pos(keys.drop_last(), k) {
            Some(i) => Some(i),
            None => Some(keys.len() - 1),
        }
    } else {
        key_pos(keys.drop_last(), k)
    }
}

/// The entry of key `k`, or an untouched key when there is none.
pub open spec fn key_entry(keys: Seq<KeyButton>, k: i32) -> KeyButton {
    match key_pos(keys, k) {
        Some(i) => keys[i],
        None => fresh_key(k),
    }
}

/// `keys` with the entry of key `k` set to `b` (added at the end when absent).
pub open spec fn set_key(keys: Seq<KeyButton>, k: i32, b: KeyButton) -> Seq<KeyButton> {
    match key_pos(keys, k) {
        Some(i) => keys.update(i, b),
        None => keys.push(b),
    }
}

/// A key after it went down (again): pressed and held, and newly down unless it
/// was held already.
pub open spec fn key_down(b: KeyButton) -> KeyButton {
    if has_bit(b.status, STATUS_HELD) {
        KeyButton { status: STATUS_PRESSED | STATUS_HELD, ..b }
    } else {
        KeyButton { status: STATUS_PRESSED | STATUS_HELD | STATUS_DOWN, duration: 0, ..b }
    }
}

/// A press at `a` and a release at `b` are close enough to be a click.
pub open spec fn close_enough(a: Point, b: Point) -> bool {
    (a.x - b.x) * (a.x - b.x) + (a.y - b.y) * (a.y - b.y) < MAX_CLICK_DIST_SQ
}

} // verus!

verus! {

/// The mouse button that the window system numbers `v`.
pub open spec fn mouse_of(v: u8) -> Option<Mouse> {
    if v == MOUSE_BTN_LEFT {
        Some(Mouse::Left)
    } else if v == MOUSE_BTN_RIGHT {
        Some(Mouse::Right)
    } else if v == MOUSE_BTN_MIDDLE {
        Some(Mouse::Middle)
    } else {
        None
    }
}

/// The input state, with the text and the keys as sequences.
pub struct EventView {
    pub dt: u32,
    pub quit: bool,
    pub resized: bool,
    pub old_dim: Dimensions<u32>,
    pub new_dim: Dimensions<u32>,
    pub mouse: Point,
    pub abs_mouse: Point,
    pub mouse_delta: Point,
    pub scroll: i32,
    pub input_text: Seq<char>,
    pub input_backspace: i32,
    pub input_delete: i32,
    pub input_move: i32,
    pub input_seek: InputSeek,
    pub mouse_buttons: Seq<MouseButton>,
    pub key_buttons: Seq<KeyButton>,
}

impl View for Event {
    type V = EventView;

    open spec fn view(&self) -> EventView {
        EventView {
            dt: self.dt,
            quit: self.quit,
            resized: self.resized,
            old_dim: self.old_dim,
            new_dim: self.new_dim,
            mouse: self.mouse,
            abs_mouse: self.abs_mouse,
            mouse_delta: self.mouse_delta,
            scroll: self.scroll,
            input_text: self.input_text@,
            input_backspace: self.input_backspace,
            input_delete: self.input_delete,
            input_move: self.input_move,
            input_seek: self.input_seek,
            mouse_buttons: self.mouse_buttons@,
            key_buttons: self.key_buttons@,
        }
    }
}

/// The text-editing effect of key `k` going down while text input is active:
/// backspace deletes the last character typed this frame (or counts one
/// backspace past it), delete and the arrow keys are counted, home and end set
/// the seek.
pub open spec fn text_key(v: EventView, k: i32) -> EventView {
    if k == KEY_BACKSPACE {
        if v.input_text.len() == 0 {
            EventView { input_backspace: (v.input_backspace + 1) as i32, ..v }
        } else {
            EventView { input_text: v.input_text.drop_last(), ..v }
        }
    } else if k == KEY_DELETE {
        EventView { input_delete: (v.input_delete + 1) as i32, ..v }
    } else if k == KEY_LEFT {
        EventView { input_move: (v.input_move - 1) as i32, ..v }
    } else if k == KEY_RIGHT {
        EventView { input_move: (v.input_move + 1) as i32, ..v }
    } else if k == KEY_HOME {
        EventView { input_seek: InputSeek::Start, ..v }
    } else if k == KEY_END {
        EventView { input_seek: InputSeek::End, ..v }
    } else {
        v
    }
}

/// The counters that `text_key` steps stay within `i32`.
pub open spec fn text_key_fits(v: EventView, k: i32) -> bool {
    &&& (k == KEY_BACKSPACE && v.input_text.len() == 0 ==> v.input_backspace < i32::MAX)
    &&& (k == KEY_DELETE ==> v.input_delete < i32::MAX)
    &&& (k == KEY_LEFT ==> v.input_move > i32::MIN)
    &&& (k == KEY_RIGHT ==> v.input_move < i32::MAX)
}

/// The squared distance between `a` and `b` can be computed in `i32`.
pub open spec fn click_dist_fits(a: Point, b: Point) -> bool {
    let dx = a.x - b.x;
    let dy = a.y - b.y;
    &&& i32::MIN <= dx <= i32::MAX
    &&& i32::MIN <= dy <= i32::MAX
    &&& dx * dx <= i32::MAX
    &&& dy * dy <= i32::MAX
    &&& dx * dx + dy * dy <= i32::MAX
}

/// The input state after one window-system event.
pub open spec fn after_event(v: EventView, e: SdlEvent) -> EventView {
    match e {
        SdlEvent::Quit => EventView { quit: true, ..v },
        SdlEvent::WindowShown { w, h } => {
            let d = Dimensions { w: w as u32, h: h as u32 };
            EventView { old_dim: d, new_dim: d, ..v }
        },
        SdlEvent::WindowResized { w, h } => EventView {
            resized: true,
            old_dim: v.new_dim,
            new_dim: Dimensions { w: w as u32, h: h as u32 },
            ..v
        },
        SdlEvent::MouseButtonDown { button } => match mouse_of(button) {
            Some(m) => {
                let b = v.mouse_buttons[m.slot()];
                let nb = MouseButton { status: STATUS_DOWN | STATUS_HELD, duration: 0, click_pos: v.mouse, ..b };
                EventView { mouse_buttons: v.mouse_buttons.update(m.slot(), nb), ..v }
            },
            None => v,
        },
        SdlEvent::MouseButtonUp { button } => match mouse_of(button) {
            Some(m) => {
                let b = v.mouse_buttons[m.slot()];
                let status = if close_enough(b.click_pos, v.mouse) { STATUS_PRESSED | STATUS_UP } else { STATUS_UP };
                let nb = MouseButton { status, duration: 0, ..b };
                EventView { mouse_buttons: v.mouse_buttons.update(m.slot(), nb), ..v }
            },
            None => v,
        },
        SdlEvent::MouseMotion { xrel, yrel } => EventView { mouse_delta: Point { x: xrel, y: yrel }, ..v },
        SdlEvent::MouseWheel { y } => EventView { scroll: (-y) as i32, ..v },
        SdlEvent::KeyDown { key, text_input } => {
            let v2 = EventView {
                key_buttons: set_key(v.key_buttons, key, key_down(key_entry(v.key_buttons, key))),
                ..v
            };
            if text_input { text_key(v2, key) } else { v2 }
        },
        SdlEvent::KeyUp { key } => EventView {
            key_buttons: set_key(v.key_buttons, key, KeyButton { status: STATUS_UP, ..key_entry(v.key_buttons, key) }),
            ..v
        },
        SdlEvent::TextInput { text } => EventView { input_text: v.input_text + text@, ..v },
        SdlEvent::Other => v,
    }
}

/// The event can be applied without an arithmetic overflow.
pub open spec fn event_fits(v: EventView, e: SdlEvent) -> bool {
    match e {
        SdlEvent::MouseWheel { y } => y != i32::MIN,
        SdlEvent::MouseButtonUp { button } => match mouse_of(button) {
            Some(m) => click_dist_fits(v.mouse_buttons[m.slot()].click_pos, v.mouse),
            None => true,
        },
        SdlEvent::KeyDown { key, text_input } => text_input ==> text_key_fits(v, key),
        _ => true,
    }
}

/// A button at the start of a frame: its hold time grows by `ts` if it is held,
/// and only the held bit stays.
pub open spec fn button_tick(b: MouseButton, ts: u32) -> MouseButton {
    MouseButton {
        duration: if has_bit(b.status, STATUS_HELD) { (b.duration + ts) as u32 } else { b.duration },
        status: b.status & STATUS_HELD,
        ..b
    }
}

/// A key at the start of a frame (as `button_tick`).
pub open spec fn key_tick(b: KeyButton, ts: u32) -> KeyButton {
    KeyButton {
        duration: if has_bit(b.status, STATUS_HELD) { (b.duration + ts) as u32 } else { b.duration },
        status: b.status & STATUS_HELD,
        ..b
    }
}

/// The input state at the start of a frame that lasted `ts`, with the mouse at
/// `abs_mouse` on the screen and at `mouse` in the world.
pub open spec fn frame_start(v: EventView, ts: u32, abs_mouse: Point, mouse: Point) -> EventView {
    EventView {
        dt: ts,
        quit: false,
        resized: false,
        input_text: seq![],
        input_backspace: 0,
        input_delete: 0,
        input_move: 0,
        input_seek: InputSeek::Idle,
        abs_mouse,
        mouse,
        mouse_delta: Point { x: 0, y: 0 },
        scroll: 0,
        mouse_buttons: v.mouse_buttons.map_values(|b: MouseButton| button_tick(b, ts)),
        key_buttons: v.key_buttons.map_values(|b: KeyButton| key_tick(b, ts)),
        ..v
    }
}

/// No held button's hold time overflows when it grows by `ts`.
pub open spec fn ticks_fit(v: EventView, ts: u32) -> bool {
    &&& forall|i: int| 0 <= i < v.mouse_buttons.len() && has_bit(#[trigger] v.mouse_buttons[i].status, STATUS_HELD)
        ==> v.mouse_buttons[i].duration + ts <= u32::MAX
    &&& forall|i: int| 0 <= i < v.key_buttons.len() && has_bit(#[trigger] v.key_buttons[i].status, STATUS_HELD)
        ==> v.key_buttons[i].duration + ts <= u32::MAX
}

/// `String::pop`.
#[verifier::external_body]
fn pop_char(s: &mut String) -> (c: Option<char>)
    ensures
        old(s)@.len() == 0 ==> c is None && final(s)@ == old(s)@,
        old(s)@.len() > 0 ==> c == Some(old(s)@.last()) && final(s)@ == old(s)@.drop_last(),
{
    s.pop()
}

impl Event {
    /// The state before the first frame.
    pub fn new() -> (e: Self)
        ensures
            e@.dt == 0,
            !e@.quit && !e@.resized,
            e@.old_dim == (Dimensions { w: 0u32, h: 0u32 }) && e@.new_dim == (Dimensions { w: 0u32, h: 0u32 }),
            e@.mouse == (Point { x: 0, y: 0 }) && e@.abs_mouse == (Point { x: 0, y: 0 }),
            e@.mouse_delta == (Point { x: 0, y: 0 }),
            e@.scroll == 0,
            e@.input_text == Seq::<char>::empty(),
            e@.input_backspace == 0 && e@.input_delete == 0 && e@.input_move == 0,
            e@.input_seek == InputSeek::Idle,
            e@.mouse_buttons == seq![
                MouseButton { mouse: Mouse::Left, click_pos: Point { x: 0, y: 0 }, duration: 0, status: 0 },
                MouseButton { mouse: Mouse::Right, click_pos: Point { x: 0, y: 0 }, duration: 0, status: 0 },
                MouseButton { mouse: Mouse::Middle, click_pos: Point { x: 0, y: 0 }, duration: 0, status: 0 },
            ],
            e@.key_buttons == Seq::<KeyButton>::empty(),
    {
        let e = Event {
            dt: 0,
            quit: false,
            resized: false,
            old_dim: Dimensions { w: 0, h: 0 },
            new_dim: Dimensions { w: 0, h: 0 },
            mouse: Point { x: 0, y: 0 },
            abs_mouse: Point { x: 0, y: 0 },
            mouse_delta: Point { x: 0, y: 0 },
            scroll: 0,
            input_text: String::new(),
            input_backspace: 0,
            input_delete: 0,
            input_move: 0,
            input_seek: InputSeek::Idle,
            mouse_buttons: [
                MouseButton::new(Mouse::Left),
                MouseButton::new(Mouse::Right),
                MouseButton::new(Mouse::Middle),
            ],
            key_buttons: Vec::new(),
        };
        proof {
            assert(e.mouse_buttons@ =~= seq![
                MouseButton { mouse: Mouse::Left, click_pos: Point { x: 0, y: 0 }, duration: 0, status: 0 },
                MouseButton { mouse: Mouse::Right, click_pos: Point { x: 0, y: 0 }, duration: 0, status: 0 },
                MouseButton { mouse: Mouse::Middle, click_pos: Point { x: 0, y: 0 }, duration: 0, status: 0 },
            ]);
        }
        e
    }

    /// Starts a frame that lasted `ts`: the per-frame flags, counters and text are
    /// cleared, the mouse position is taken as given, and the buttons and keys keep
    /// only their held bit (held ones counting `ts` more).
    #[verifier::loop_isolation(false)]
    pub fn update(&mut self, ts: u32, abs_mouse: Point, mouse: Point)
        requires
            ticks_fit(old(self)@, ts),
        ensures
            final(self)@ == frame_start(old(self)@, ts, abs_mouse, mouse),
    {
        let ghost s0 = self@;
        assert(s0 == old(self)@);
        let ghost old_buttons = self.mouse_buttons@;
        assert(old_buttons == s0.mouse_buttons);
        let mut i: usize = 0;
        while i < 3
            invariant
                self@ == (EventView { mouse_buttons: self@.mouse_buttons, ..s0 }),
                i <= 3,
                old_buttons.len() == 3,
                self.key_buttons@ == s0.key_buttons,
                forall|j: int| 0 <= j < 3 && has_bit(#[trigger] old_buttons[j].status, STATUS_HELD)
                    ==> old_buttons[j].duration + ts <= u32::MAX,
                forall|j: int| 0 <= j < i ==> self.mouse_buttons@[j] == button_tick(old_buttons[j], ts),
                forall|j: int| i <= j < 3 ==> self.mouse_buttons@[j] == old_buttons[j],
            decreases 3 - i,
        {
            let mut b = self.mouse_buttons[i];
            if b.status & STATUS_HELD != 0 {
                b.duration = b.duration + ts;
            }
            b.status = b.status & STATUS_HELD;
            self.mouse_buttons[i] = b;
            i = i + 1;
        }
        let ghost old_keys = self.key_buttons@;
        assert(old_keys == s0.key_buttons);
        let ghost mid = self@;
        let mut k: usize = 0;
        while k < self.key_buttons.len()
            invariant
                self@ == (EventView { key_buttons: self@.key_buttons, ..mid }),
                k <= self.key_buttons.len(),
                self.key_buttons@.len() == old_keys.len(),
                forall|j: int| 0 <= j < old_keys.len() && has_bit(#[trigger] old_keys[j].status, STATUS_HELD)
                    ==> old_keys[j].duration + ts <= u32::MAX,
                forall|j: int| 0 <= j < k ==> self.key_buttons@[j] == key_tick(old_keys[j], ts),
                forall|j: int| k <= j < old_keys.len() ==> self.key_buttons@[j] == old_keys[j],
            decreases self.key_buttons.len() - k,
        {
            let mut b = self.key_buttons[k];
            assert(b == old_keys[k as int]);
            assert(has_bit(old_keys[k as int].status, STATUS_HELD) ==> old_keys[k as int].duration + ts <= u32::MAX);
            if b.status & STATUS_HELD != 0 {
                b.duration = b.duration + ts;
            }
            b.status = b.status & STATUS_HELD;
            self.key_buttons.set(k, b);
            k = k + 1;
        }
        self.dt = ts;
        self.quit = false;
        self.resized = false;
        self.input_text = String::new();
        self.input_backspace = 0;
        self.input_delete = 0;
        self.input_move = 0;
        self.input_seek = InputSeek::Idle;
        self.abs_mouse = abs_mouse;
        self.mouse = mouse;
        self.mouse_delta = Point { x: 0, y: 0 };
        self.scroll = 0;
        proof {
            assert forall|j: int| 0 <= j < 3 implies self.mouse_buttons@[j] == old_buttons.map_values(|b: MouseButton| button_tick(b, ts))[j] by {}
            assert(self.mouse_buttons@ =~= old_buttons.map_values(|b: MouseButton| button_tick(b, ts)));
            assert(self.key_buttons@ =~= old_keys.map_values(|b: KeyButton| key_tick(b, ts)));
            assert(self@ =~= frame_start(s0, ts, abs_mouse, mouse));
        }
    }
}

} // verus!

verus! {

proof fn lemma_key_pos(keys: Seq<KeyButton>, k: i32)
    ensures
        key_pos(keys, k) matches Some(i) ==> 0 <= i < keys.len() && keys[i].key == k
            && forall|j: int| 0 <= j < i ==> keys[j].key != k,
        key_pos(keys, k) is None ==> forall|j: int| 0 <= j < keys.len() ==> keys[j].key != k,
    decreases keys.len(),
{
    if keys.len() > 0 {
        let d = keys.drop_last();
        lemma_key_pos(d, k);
        assert(forall|j: int| 0 <= j < d.len() ==> d[j] == keys[j]);
    }
}

/// Setting the entry of a key twice keeps the second value, at the place the first
/// one took.
proof fn lemma_set_key_twice(keys: Seq<KeyButton>, k: i32, a: KeyButton, b: KeyButton)
    ensures
        ({
            let once = set_key(keys, k, a);
            let i = match key_pos(keys, k) { Some(p) => p, None => keys.len() as int };
            once.update(i, b) == set_key(keys, k, b)
        }),
{
    lemma_key_pos(keys, k);
    match key_pos(keys, k) {
        Some(p) => {
            assert(keys.update(p, a).update(p, b) =~= keys.update(p, b));
        },
        None => {
            assert(keys.push(a).update(keys.len() as int, b) =~= keys.push(b));
        },
    }
}

/// An input event for the game: a mouse button or a key that something happened to.
#[derive(Clone, Copy, Debug)]
pub enum InputEvent {
    Mouse(MouseButton),
    Key(KeyButton),
}

/// The input events of a frame: the mouse buttons that something happened to
/// (left, right, middle), then the keys that something happened to, in the
/// order they were first seen.
pub open spec fn input_events(v: EventView) -> Seq<InputEvent> {
    mouse_events(v.mouse_buttons) + key_events(v.key_buttons)
}

impl Event {
    /// The index of key `key` in `key_buttons`, adding an untouched entry for it
    /// when it has none.
    fn key_slot(&mut self, key: i32) -> (i: usize)
        ensures
            final(self)@ == (EventView { key_buttons: set_key(old(self)@.key_buttons, key, key_entry(old(self)@.key_buttons, key)), ..old(self)@ }),
            i < final(self)@.key_buttons.len(),
            final(self)@.key_buttons[i as int] == key_entry(old(self)@.key_buttons, key),
            key_pos(old(self)@.key_buttons, key) matches Some(p) ==> i == p,
            key_pos(old(self)@.key_buttons, key) is None ==> i == old(self)@.key_buttons.len(),
    {
        let mut i: usize = 0;
        while i < self.key_buttons.len()
            invariant
                i <= self.key_buttons.len(),
                forall|j: int| 0 <= j < i ==> self.key_buttons@[j].key != key,
            decreases self.key_buttons.len() - i,
        {
            if self.key_buttons[i].key == key {
                proof {
                    lemma_key_pos(self.key_buttons@, key);
                    assert(self.key_buttons@.update(i as int, self.key_buttons@[i as int]) =~= self.key_buttons@);
                }
                return i;
            }
            i = i + 1;
        }
        proof {
            lemma_key_pos(self.key_buttons@, key);
        }
        self.key_buttons.push(KeyButton::new(key));
        i
    }

    /// The text-editing effect of key `key` going down (see `text_key`).
    pub fn process_text_input_key(&mut self, key: i32)
        requires
            text_key_fits(old(self)@, key),
        ensures
            final(self)@ == text_key(old(self)@, key),
    {
        if key == KEY_BACKSPACE {
            if self.input_text.as_str().is_empty() {
                self.input_backspace = self.input_backspace + 1;
            } else {
                pop_char(&mut self.input_text);
            }
        } else if key == KEY_DELETE {
            self.input_delete = self.input_delete + 1;
        } else if key == KEY_LEFT {
            self.input_move = self.input_move - 1;
        } else if key == KEY_RIGHT {
            self.input_move = self.input_move + 1;
        } else if key == KEY_HOME {
            self.input_seek = InputSeek::Start;
        } else if key == KEY_END {
            self.input_seek = InputSeek::End;
        }
    }
}

} // verus!

verus! {

impl Event {
    /// Applies one window-system event to the input state (see `after_event`).
    pub fn update_event(&mut self, event: &SdlEvent)
        requires
            event_fits(old(self)@, *event),
        ensures
            final(self)@ == after_event(old(self)@, *event),
    {
        match event {
            SdlEvent::Quit => {
                self.quit = true;
            },
            SdlEvent::WindowShown { w, h } => {
                self.old_dim = Dimensions { w: *w as u32, h: *h as u32 };
                self.new_dim = self.old_dim;
            },
            SdlEvent::WindowResized { w, h } => {
                self.resized = true;
                self.old_dim = self.new_dim;
                self.new_dim = Dimensions { w: *w as u32, h: *h as u32 };
            },
            SdlEvent::MouseButtonDown { button } => {
                match Mouse::from_u8(*button) {
                    Some(b) => {
                        let i = b.index();
                        let mut button = self.mouse_buttons[i];
                        button.status = STATUS_DOWN | STATUS_HELD;
                        button.duration = 0;
                        button.click_pos = self.mouse;
                        self.mouse_buttons[i] = button;
                    },
                    None => {},
                }
            },
            SdlEvent::MouseButtonUp { button } => {
                match Mouse::from_u8(*button) {
                    Some(b) => {
                        let i = b.index();
                        let mut button = self.mouse_buttons[i];
                        let dx = button.click_pos.x as i128 - self.mouse.x as i128;
                        let dy = button.click_pos.y as i128 - self.mouse.y as i128;
                        assert(dx * dx < 0x1_0000_0000_0000_0000 && dy * dy < 0x1_0000_0000_0000_0000) by (nonlinear_arith)
                            requires
                                -0x1_0000_0000 < dx < 0x1_0000_0000,
                                -0x1_0000_0000 < dy < 0x1_0000_0000;
                        assert(dx * dx >= 0 && dy * dy >= 0) by (nonlinear_arith);
                        let d = dx * dx + dy * dy;
                        button.status = if d < MAX_CLICK_DIST_SQ as i128 {
                            STATUS_PRESSED | STATUS_UP
                        } else {
                            STATUS_UP
                        };
                        button.duration = 0;
                        self.mouse_buttons[i] = button;
                    },
                    None => {},
                }
            },
            SdlEvent::MouseMotion { xrel, yrel } => {
                self.mouse_delta = Point { x: *xrel, y: *yrel };
            },
            SdlEvent::MouseWheel { y } => {
                self.scroll = -*y;
            },
            SdlEvent::KeyDown { key, text_input } => {
                let i = self.key_slot(*key);
                let mut b = self.key_buttons[i];
                let held = b.held();
                b.status = STATUS_PRESSED | STATUS_HELD;
                if !held {
                    b.status = b.status | STATUS_DOWN;
                    b.duration = 0;
                }
                self.key_buttons.set(i, b);
                proof {
                    assert(b == key_down(key_entry(old(self)@.key_buttons, *key)));
                    lemma_set_key_twice(old(self)@.key_buttons, *key, key_entry(old(self)@.key_buttons, *key), b);
                }
                if *text_input {
                    self.process_text_input_key(*key);
                }
            },
            SdlEvent::KeyUp { key } => {
                let i = self.key_slot(*key);
                let mut b = self.key_buttons[i];
                b.status = STATUS_UP;
                self.key_buttons.set(i, b);
                proof {
                    lemma_set_key_twice(old(self)@.key_buttons, *key, key_entry(old(self)@.key_buttons, *key), b);
                }
            },
            SdlEvent::TextInput { text } => {
                self.input_text.append(text.as_str());
            },
            SdlEvent::Other => {},
        }
    }

    /// The mouse moved during this frame.
    pub fn mouse_moved(&self) -> (r: bool)
        ensures
            r == (self.mouse_delta.x != 0 || self.mouse_delta.y != 0),
    {
        self.mouse_delta.x != 0 || self.mouse_delta.y != 0
    }

    /// The entry of key `key`, if it has been seen.
    pub fn get_key(&self, key: i32) -> (r: Option<&KeyButton>)
        ensures
            r == (match key_pos(self@.key_buttons, key) {
                Some(i) => Some(&self@.key_buttons[i]),
                None => None,
            }),
    {
        let mut i: usize = 0;
        while i < self.key_buttons.len()
            invariant
                i <= self.key_buttons.len(),
                forall|j: int| 0 <= j < i ==> self.key_buttons@[j].key != key,
            decreases self.key_buttons.len() - i,
        {
            if self.key_buttons[i].key == key {
                proof {
                    lemma_key_pos(self.key_buttons@, key);
                }
                return Some(&self.key_buttons[i]);
            }
            i = i + 1;
        }
        proof {
            lemma_key_pos(self.key_buttons@, key);
        }
        None
    }

    /// The mouse button at position `sdl_button_type` of `mouse_buttons`.
    pub fn get_sdl_mouse(&self, sdl_button_type: u8) -> (b: &MouseButton)
        requires
            sdl_button_type < 3,
        ensures
            *b == self@.mouse_buttons[sdl_button_type as int],
    {
        &self.mouse_buttons[sdl_button_type as usize]
    }

    /// The state of mouse button `button`.
    pub fn get_mouse(&self, button: Mouse) -> (b: &MouseButton)
        ensures
            *b == self@.mouse_buttons[button.slot()],
    {
        &self.mouse_buttons[button.index()]
    }
}

/// Something happened to the mouse button.
pub open spec fn mouse_acted() -> spec_fn(MouseButton) -> bool {
    |b: MouseButton| has_bit(b.status, STATUS_ALL)
}

/// Something happened to the key.
pub open spec fn key_acted() -> spec_fn(KeyButton) -> bool {
    |b: KeyButton| has_bit(b.status, STATUS_ALL)
}

/// The input event of a mouse button.
pub open spec fn mouse_event() -> spec_fn(MouseButton) -> InputEvent {
    |b: MouseButton| InputEvent::Mouse(b)
}

/// The input event of a key.
pub open spec fn key_event() -> spec_fn(KeyButton) -> InputEvent {
    |b: KeyButton| InputEvent::Key(b)
}

/// The input events for the buttons of `s` that something happened to.
pub open spec fn mouse_events(s: Seq<MouseButton>) -> Seq<InputEvent> {
    s.filter(mouse_acted()).map_values(mouse_event())
}

/// The input events for the keys of `s` that something happened to.
pub open spec fn key_events(s: Seq<KeyButton>) -> Seq<InputEvent> {
    s.filter(key_acted()).map_values(key_event())
}

/// Sends the input events of the frame (see `input_events`): appends them to
/// `events`.
pub fn on_event(e: &Event, events: &mut Vec<InputEvent>)
    ensures
        final(events)@ == old(events)@ + input_events(e@),
{
    let ghost start = events@;
    let mut i: usize = 0;
    while i < 3
        invariant
            i <= 3,
            events@ == start + mouse_events(e@.mouse_buttons.take(i as int)),
        decreases 3 - i,
    {
        let mb = e.mouse_buttons[i];
        let ghost t = e@.mouse_buttons.take(i as int);
        proof {
            assert(e@.mouse_buttons.take(i + 1) =~= t.push(mb));
            t.lemma_filter_push(mb, mouse_acted());
            t.filter(mouse_acted()).lemma_push_map_commute(mouse_event(), mb);
        }
        assert(mb == e@.mouse_buttons[i as int]);
        let acted = !mb.no_action();
        assert(acted == mouse_acted()(mb));
        if acted {
            events.push(InputEvent::Mouse(mb));
        }
        proof {
            assert(mouse_events(e@.mouse_buttons.take(i + 1)) == if acted { mouse_events(t).push(InputEvent::Mouse(mb)) } else { mouse_events(t) });
            assert(events@ =~= start + mouse_events(e@.mouse_buttons.take(i + 1)));
        }
        i = i + 1;
    }
    let mut k: usize = 0;
    while k < e.key_buttons.len()
        invariant
            k <= e.key_buttons.len(),
            events@ == start + mouse_events(e@.mouse_buttons.take(3)) + key_events(e@.key_buttons.take(k as int)),
        decreases e.key_buttons.len() - k,
    {
        let kb = e.key_buttons[k];
        let ghost t = e@.key_buttons.take(k as int);
        proof {
            assert(e@.key_buttons.take(k + 1) =~= t.push(kb));
            t.lemma_filter_push(kb, key_acted());
            t.filter(key_acted()).lemma_push_map_commute(key_event(), kb);
        }
        let acted = !kb.no_action();
        assert(acted == key_acted()(kb));
        if acted {
            events.push(InputEvent::Key(kb));
        }
        proof {
            assert(key_events(e@.key_buttons.take(k + 1)) == if acted { key_events(t).push(InputEvent::Key(kb)) } else { key_events(t) });
            assert(events@ =~= start + mouse_events(e@.mouse_buttons.take(3)) + key_events(e@.key_buttons.take(k + 1)));
        }
        k = k + 1;
    }
    proof {
        assert(e@.mouse_buttons.take(3) =~= e@.mouse_buttons);
        assert(e@.key_buttons.take(e@.key_buttons.len() as int) =~= e@.key_buttons);
        assert(events@ =~= start + input_events(e@));
    }
}


/// No two entries of `keys` are for the same key.
pub open spec fn keys_distinct(keys: Seq<KeyButton>) -> bool {
    forall|i: int, j: int| 0 <= i < j < keys.len() ==> keys[i].key != keys[j].key
}

proof fn lemma_key_found(keys: Seq<KeyButton>, k: i32)
    ensures
        match key_pos(keys, k) {
            Some(i) => 0 <= i < keys.len() && keys[i].key == k,
            None => forall|i: int| 0 <= i < keys.len() ==> keys[i].key != k,
        },
    decreases keys.len(),
{
    if keys.len() > 0 {
        lemma_key_found(keys.drop_last(), k);
        assert forall|i: int| 0 <= i < keys.len() - 1 implies keys[i] == keys.drop_last()[i] by {}
    }
}

proof fn lemma_set_key(keys: Seq<KeyButton>, k: i32, b: KeyButton)
    requires
        keys_distinct(keys),
        b.key == k,
    ensures
        keys_distinct(set_key(keys, k, b)),
        key_entry(set_key(keys, k, b), k) == b,
{
    lemma_key_found(keys, k);
    let r = set_key(keys, k, b);
    lemma_key_found(r, k);
    match key_pos(keys, k) {
        Some(i) => {
            assert(r == keys.update(i, b));
            match key_pos(r, k) {
                Some(j) => {
                    assert(j == i);
                },
                None => {
                    assert(r[i].key == k);
                },
            }
        },
        None => {
            assert(r == keys.push(b));
            match key_pos(r, k) {
                Some(j) => {
                    assert(j == keys.len());
                },
                None => {
                    assert(r[keys.len() as int].key == k);
                },
            }
        },
    }
}

proof fn lemma_key_entry_key(keys: Seq<KeyButton>, k: i32)
    ensures
        key_entry(keys, k).key == k,
{
    lemma_key_found(keys, k);
}

/// While text input is active, Home seeks to the start of the text and End
/// to its end; any other key leaves the seek as it was.
pub proof fn lemma_home_end_seek(v: EventView, k: i32)
    ensures
        after_event(v, SdlEvent::KeyDown { key: KEY_HOME, text_input: true }).input_seek == InputSeek::Start,
        after_event(v, SdlEvent::KeyDown { key: KEY_END, text_input: true }).input_seek == InputSeek::End,
        k != KEY_HOME && k != KEY_END ==> after_event(v, SdlEvent::KeyDown { key: k, text_input: true }).input_seek == v.input_seek,
        after_event(v, SdlEvent::KeyDown { key: k, text_input: false }).input_seek == v.input_seek,
{
}

/// Starting a frame clears every per-frame input, whatever the state was:
/// no scroll, no mouse motion, no text or editing counts, no seek, no quit
/// or resize, and the frame's time and mouse position as given.
pub proof fn lemma_frame_clears(v: EventView, ts: u32, abs_mouse: Point, mouse: Point)
    ensures
        frame_start(v, ts, abs_mouse, mouse).scroll == 0,
        frame_start(v, ts, abs_mouse, mouse).mouse_delta == (Point { x: 0, y: 0 }),
        frame_start(v, ts, abs_mouse, mouse).input_text.len() == 0,
        frame_start(v, ts, abs_mouse, mouse).input_backspace == 0,
        frame_start(v, ts, abs_mouse, mouse).input_delete == 0,
        frame_start(v, ts, abs_mouse, mouse).input_move == 0,
        frame_start(v, ts, abs_mouse, mouse).input_seek == InputSeek::Idle,
        !frame_start(v, ts, abs_mouse, mouse).quit,
        !frame_start(v, ts, abs_mouse, mouse).resized,
        frame_start(v, ts, abs_mouse, mouse).dt == ts,
        frame_start(v, ts, abs_mouse, mouse).abs_mouse == abs_mouse,
        frame_start(v, ts, abs_mouse, mouse).mouse == mouse,
{
}

/// Wheel movement counts for its own frame only: after a wheel event and the
/// start of the next frame, the scroll is back to none.
pub proof fn lemma_scroll_is_per_frame(v: EventView, y: i32, ts: u32, abs_mouse: Point, mouse: Point)
    ensures
        after_event(v, SdlEvent::MouseWheel { y }).scroll == -y || y == i32::MIN,
        frame_start(after_event(v, SdlEvent::MouseWheel { y }), ts, abs_mouse, mouse).scroll == 0,
{
}

/// While text input is active, Backspace removes the last character typed
/// this frame (or counts one more backspace when there is none), Delete counts
/// one more delete, and Left and Right move the cursor one step back and
/// forward; typed text is appended as it comes.
pub proof fn lemma_text_editing(v: EventView, text: String)
    ensures
        v.input_text.len() > 0 ==> after_event(v, SdlEvent::KeyDown { key: KEY_BACKSPACE, text_input: true }).input_text
            == v.input_text.take(v.input_text.len() - 1),
        v.input_text.len() == 0 && v.input_backspace < i32::MAX ==>
            after_event(v, SdlEvent::KeyDown { key: KEY_BACKSPACE, text_input: true }).input_backspace == v.input_backspace + 1,
        v.input_delete < i32::MAX ==> after_event(v, SdlEvent::KeyDown { key: KEY_DELETE, text_input: true }).input_delete
            == v.input_delete + 1,
        v.input_move > i32::MIN ==> after_event(v, SdlEvent::KeyDown { key: KEY_LEFT, text_input: true }).input_move
            == v.input_move - 1,
        v.input_move < i32::MAX ==> after_event(v, SdlEvent::KeyDown { key: KEY_RIGHT, text_input: true }).input_move
            == v.input_move + 1,
        after_event(v, SdlEvent::TextInput { text }).input_text == v.input_text + text@,
{
    assert(v.input_text.len() > 0 ==> v.input_text.drop_last() =~= v.input_text.take(v.input_text.len() - 1));
}

/// A resize keeps the size the window had as the old size and takes the new
/// one, and marks the frame as resized.
pub proof fn lemma_resize(v: EventView, w: i32, h: i32)
    ensures
        after_event(v, SdlEvent::WindowResized { w, h }).old_dim == v.new_dim,
        after_event(v, SdlEvent::WindowResized { w, h }).new_dim == (Dimensions { w: w as u32, h: h as u32 }),
        after_event(v, SdlEvent::WindowResized { w, h }).resized,
{
}

/// At the start of a frame every key keeps only its held bit, and a held key
/// counts the frame's time more; a key that is not held keeps its time.
pub proof fn lemma_frame_ages_keys(v: EventView, ts: u32, abs_mouse: Point, mouse: Point, i: int)
    requires
        0 <= i < v.key_buttons.len(),
        ticks_fit(v, ts),
    ensures
        frame_start(v, ts, abs_mouse, mouse).key_buttons.len() == v.key_buttons.len(),
        frame_start(v, ts, abs_mouse, mouse).key_buttons[i].key == v.key_buttons[i].key,
        frame_start(v, ts, abs_mouse, mouse).key_buttons[i].status == v.key_buttons[i].status & STATUS_HELD,
        has_bit(v.key_buttons[i].status, STATUS_HELD) ==>
            frame_start(v, ts, abs_mouse, mouse).key_buttons[i].duration == v.key_buttons[i].duration + ts,
        !has_bit(v.key_buttons[i].status, STATUS_HELD) ==>
            frame_start(v, ts, abs_mouse, mouse).key_buttons[i].duration == v.key_buttons[i].duration,
{
    assert(has_bit(v.key_buttons[i].status, STATUS_HELD) ==> v.key_buttons[i].duration + ts <= u32::MAX);
}

/// Every window-system event keeps the key list free of repeated keys.
pub proof fn lemma_event_keeps_keys_distinct(v: EventView, e: SdlEvent)
    requires
        keys_distinct(v.key_buttons),
    ensures
        keys_distinct(after_event(v, e).key_buttons),
{
    match e {
        SdlEvent::KeyDown { key, text_input } => {
            lemma_key_entry_key(v.key_buttons, key);
            lemma_set_key(v.key_buttons, key, key_down(key_entry(v.key_buttons, key)));
        },
        SdlEvent::KeyUp { key } => {
            lemma_key_entry_key(v.key_buttons, key);
            lemma_set_key(v.key_buttons, key, KeyButton { status: STATUS_UP, ..key_entry(v.key_buttons, key) });
        },
        _ => {},
    }
}

/// Starting a frame keeps the key list free of repeated keys.
pub proof fn lemma_frame_keeps_keys_distinct(v: EventView, ts: u32, abs_mouse: Point, mouse: Point)
    requires
        keys_distinct(v.key_buttons),
    ensures
        keys_distinct(frame_start(v, ts, abs_mouse, mouse).key_buttons),
{
}

/// A key that goes down is pressed and held, and one that goes up is up and
/// neither pressed nor held.
pub proof fn lemma_key_down_up(v: EventView, k: i32, text_input: bool)
    requires
        keys_distinct(v.key_buttons),
    ensures
        has_bit(key_entry(after_event(v, SdlEvent::KeyDown { key: k, text_input }).key_buttons, k).status, STATUS_PRESSED),
        has_bit(key_entry(after_event(v, SdlEvent::KeyDown { key: k, text_input }).key_buttons, k).status, STATUS_HELD),
        key_entry(after_event(v, SdlEvent::KeyUp { key: k }).key_buttons, k).status == STATUS_UP,
{
    lemma_key_entry_key(v.key_buttons, k);
    let d = key_down(key_entry(v.key_buttons, k));
    lemma_set_key(v.key_buttons, k, d);
    lemma_set_key(v.key_buttons, k, KeyButton { status: STATUS_UP, ..key_entry(v.key_buttons, k) });
    let w = after_event(v, SdlEvent::KeyDown { key: k, text_input });
    assert(w.key_buttons == set_key(v.key_buttons, k, d)) by {
        if text_input {
            assert(text_key(EventView { key_buttons: set_key(v.key_buttons, k, d), ..v }, k).key_buttons == set_key(v.key_buttons, k, d));
        }
    }
    let st = key_entry(v.key_buttons, k).status;
    assert(has_bit(STATUS_PRESSED | STATUS_HELD, STATUS_PRESSED) && has_bit(STATUS_PRESSED | STATUS_HELD, STATUS_HELD)) by (bit_vector);
    assert(has_bit(STATUS_PRESSED | STATUS_HELD | STATUS_DOWN, STATUS_PRESSED)
        && has_bit(STATUS_PRESSED | STATUS_HELD | STATUS_DOWN, STATUS_HELD)) by (bit_vector);
}

/// A mouse button that goes down and comes up again where it went down is
/// clicked and up, and no longer held.
pub proof fn lemma_press_release_clicks(v: EventView, button: u8)
    requires
        mouse_of(button) is Some,
        v.mouse_buttons.len() == 3,
    ensures
        has_bit(after_event(after_event(v, SdlEvent::MouseButtonDown { button }), SdlEvent::MouseButtonUp { button })
            .mouse_buttons[(mouse_of(button)->0).slot()].status, STATUS_PRESSED),
        has_bit(after_event(after_event(v, SdlEvent::MouseButtonDown { button }), SdlEvent::MouseButtonUp { button })
            .mouse_buttons[(mouse_of(button)->0).slot()].status, STATUS_UP),
        !has_bit(after_event(after_event(v, SdlEvent::MouseButtonDown { button }), SdlEvent::MouseButtonUp { button })
            .mouse_buttons[(mouse_of(button)->0).slot()].status, STATUS_HELD),
{
    let m = mouse_of(button)->0;
    assert(0 <= m.slot() < 3) by {
        match m {
            Mouse::Left => {},
            Mouse::Right => {},
            Mouse::Middle => {},
        }
    }
    let w = after_event(v, SdlEvent::MouseButtonDown { button });
    assert(w.mouse_buttons[m.slot()].click_pos == v.mouse);
    assert(w.mouse == v.mouse);
    assert(close_enough(v.mouse, v.mouse)) by {
        let dx = v.mouse.x - v.mouse.x;
        let dy = v.mouse.y - v.mouse.y;
        assert(dx == 0 && dy == 0);
        assert(dx * dx == 0 && dy * dy == 0) by (nonlinear_arith)
            requires dx == 0 && dy == 0;
    }
    assert(has_bit(STATUS_PRESSED | STATUS_UP, STATUS_PRESSED)
        && has_bit(STATUS_PRESSED | STATUS_UP, STATUS_UP)
        && !has_bit(STATUS_PRESSED | STATUS_UP, STATUS_HELD)) by (bit_vector);
}

} // verus!
