//! Pointer input: the events the backends report, and the decisions that turn
//! raw device reports into them.
use vstd::prelude::*;

verus! {

/// A pointer event in screen coordinates.
#[derive(Debug, Clone, Copy, PartialEq, Eq, Structural)]
pub enum InputEvent {
    Press { x: usize, y: usize },
    Release { x: usize, y: usize },
    Move { x: usize, y: usize },
    Quit,
}

/// `events` holds a `Quit`.
pub open spec fn holds_quit(events: Seq<InputEvent>) -> bool {
    exists|i: int| 0 <= i < events.len() && events[i] == InputEvent::Quit
}

/// Whether the main loop must stop: some polled event is `Quit`.
pub fn has_quit(events: &[InputEvent]) -> (quit: bool)
    ensures
        quit == holds_quit(events@),
{
    let mut i: usize = 0;
    while i < events.len()
        invariant
            i <= events@.len(),
            forall|j: int| 0 <= j < i ==> events@[j] != InputEvent::Quit,
        decreases events@.len() - i,
    {
        match events[i] {
            InputEvent::Quit => {
                return true;
            },
            _ => {},
        }
        i = i + 1;
    }
    false
}

/// The event for one report `(type, x, y)` of a browser input queue:
/// 0 = press, 1 = release, 2 = move; other types are ignored.
pub open spec fn spec_decode_web_event(t: i32, x: i32, y: i32) -> Option<InputEvent> {
    if t == 0 {
        Some(InputEvent::Press { x: x as usize, y: y as usize })
    } else if t == 1 {
        Some(InputEvent::Release { x: x as usize, y: y as usize })
    } else if t == 2 {
        Some(InputEvent::Move { x: x as usize, y: y as usize })
    } else {
        None
    }
}

/// Decodes one report of a browser input queue.
pub fn decode_web_event(t: i32, x: i32, y: i32) -> (ev: Option<InputEvent>)
    ensures
        ev == spec_decode_web_event(t, x, y),
{
    if t == 0 {
        Some(InputEvent::Press { x: x as usize, y: y as usize })
    } else if t == 1 {
        Some(InputEvent::Release { x: x as usize, y: y as usize })
    } else if t == 2 {
        Some(InputEvent::Move { x: x as usize, y: y as usize })
    } else {
        None
    }
}

/// The parts of an SDL window event that pointer input depends on.
#[derive(Debug, Clone, Copy, PartialEq, Eq, Structural)]
pub enum SdlEvent {
    /// The window was asked to close.
    Quit,
    /// A mouse button went down at `(x, y)`; `left` when it is the left button.
    ButtonDown { x: i32, y: i32, left: bool },
    /// A mouse button went up at `(x, y)`; `left` when it is the left button.
    ButtonUp { x: i32, y: i32, left: bool },
    /// The mouse moved to `(x, y)`; `left_held` while the left button is down.
    Motion { x: i32, y: i32, left_held: bool },
    /// Anything else.
    Other,
}

/// The pointer event an SDL event stands for: left-button presses and
/// releases, drags with the left button held, and the window's close request.
pub open spec fn spec_sdl_event(ev: SdlEvent) -> Option<InputEvent> {
    match ev {
        SdlEvent::Quit => Some(InputEvent::Quit),
        SdlEvent::ButtonDown { x, y, left } => if left {
            Some(InputEvent::Press { x: x as usize, y: y as usize })
        } else {
            None
        },
        SdlEvent::ButtonUp { x, y, left } => if left {
            Some(InputEvent::Release { x: x as usize, y: y as usize })
        } else {
            None
        },
        SdlEvent::Motion { x, y, left_held } => if left_held {
            Some(InputEvent::Move { x: x as usize, y: y as usize })
        } else {
            None
        },
        SdlEvent::Other => None,
    }
}

/// Translates one SDL event into a pointer event, if it is one.
pub fn translate_sdl_event(ev: SdlEvent) -> (r: Option<InputEvent>)
    ensures
        r == spec_sdl_event(ev),
{
    match ev {
        SdlEvent::Quit => Some(InputEvent::Quit),
        SdlEvent::ButtonDown { x, y, left } => if left {
            Some(InputEvent::Press { x: x as usize, y: y as usize })
        } else {
            None
        },
        SdlEvent::ButtonUp { x, y, left } => if left {
            Some(InputEvent::Release { x: x as usize, y: y as usize })
        } else {
            None
        },
        SdlEvent::Motion { x, y, left_held } => if left_held {
            Some(InputEvent::Move { x: x as usize, y: y as usize })
        } else {
            None
        },
        SdlEvent::Other => None,
    }
}

/// Whether an SDL event asks the window to close.
pub fn is_sdl_quit(ev: SdlEvent) -> (q: bool)
    ensures
        q <==> ev == SdlEvent::Quit,
{
    match ev {
        SdlEvent::Quit => true,
        _ => false,
    }
}

/// Linux input event type: synchronisation.
pub const EV_SYN: u16 = 0;

/// Linux input event type: key or button.
pub const EV_KEY: u16 = 1;

/// Linux input event type: absolute axis.
pub const EV_ABS: u16 = 3;

/// Synchronisation code that ends one report.
pub const SYN_REPORT: u16 = 0;

/// Button code of a touch contact.
pub const BTN_TOUCH: u16 = 0x14a;

/// Absolute axis code: x.
pub const ABS_X: u16 = 0;

/// Absolute axis code: y.
pub const ABS_Y: u16 = 1;

/// The touch-screen state as reported so far, and as it was at the last
/// synchronisation report.
#[derive(Debug, Clone, Copy, PartialEq, Eq, Structural)]
pub struct TouchState {
    pub x: i32,
    pub y: i32,
    pub down: bool,
    pub prev_x: i32,
    pub prev_y: i32,
    pub prev_down: bool,
}

/// The event that a synchronisation report produces: a contact that starts is
/// a press, one that ends a release, one that stays and moved a move.
pub open spec fn sync_event(s: TouchState) -> Option<InputEvent> {
    let x = s.x as usize;
    let y = s.y as usize;
    if s.down && !s.prev_down {
        Some(InputEvent::Press { x, y })
    } else if !s.down && s.prev_down {
        Some(InputEvent::Release { x, y })
    } else if s.down && s.prev_down && (s.x != s.prev_x || s.y != s.prev_y) {
        Some(InputEvent::Move { x, y })
    } else {
        None
    }
}

/// The state after one raw report `(type, code, value)`.
pub open spec fn touch_next(s: TouchState, type_: u16, code: u16, value: i32) -> TouchState {
    if type_ == EV_ABS && code == ABS_X {
        TouchState { x: value, ..s }
    } else if type_ == EV_ABS && code == ABS_Y {
        TouchState { y: value, ..s }
    } else if type_ == EV_KEY && code == BTN_TOUCH {
        TouchState { down: value != 0, ..s }
    } else if type_ == EV_SYN && code == SYN_REPORT {
        TouchState { prev_x: s.x, prev_y: s.y, prev_down: s.down, ..s }
    } else {
        s
    }
}

/// The event one raw report produces: only synchronisation reports produce one.
pub open spec fn touch_event(s: TouchState, type_: u16, code: u16) -> Option<InputEvent> {
    if type_ == EV_SYN && code == SYN_REPORT {
        sync_event(s)
    } else {
        None
    }
}

impl TouchState {
    /// No contact, at the origin.
    pub fn new() -> (s: Self)
        ensures
            s == (TouchState { x: 0, y: 0, down: false, prev_x: 0, prev_y: 0, prev_down: false }),
    {
        Self { x: 0, y: 0, down: false, prev_x: 0, prev_y: 0, prev_down: false }
    }

    /// Takes one raw report of a touch device: axis and button reports update
    /// the state; a synchronisation report compares it with the state at the
    /// previous one, returns the resulting event and records the state.
    pub fn handle(&mut self, type_: u16, code: u16, value: i32) -> (ev: Option<InputEvent>)
        ensures
            *final(self) == touch_next(*old(self), type_, code, value),
            ev == touch_event(*old(self), type_, code),
    {
        if type_ == EV_ABS && code == ABS_X {
            self.x = value;
            None
        } else if type_ == EV_ABS && code == ABS_Y {
            self.y = value;
            None
        } else if type_ == EV_KEY && code == BTN_TOUCH {
            self.down = value != 0;
            None
        } else if type_ == EV_SYN && code == SYN_REPORT {
            let x = self.x as usize;
            let y = self.y as usize;
            let ev = if self.down && !self.prev_down {
                Some(InputEvent::Press { x, y })
            } else if !self.down && self.prev_down {
                Some(InputEvent::Release { x, y })
            } else if self.down && self.prev_down && (self.x != self.prev_x || self.y != self.prev_y) {
                Some(InputEvent::Move { x, y })
            } else {
                None
            };
            self.prev_down = self.down;
            self.prev_x = self.x;
            self.prev_y = self.y;
            ev
        } else {
            None
        }
    }
}

/// The touch state after the raw reports `raw`, taken in order from `s`.
pub open spec fn touch_after(s: TouchState, raw: Seq<(u16, u16, i32)>) -> TouchState
    decreases raw.len(),
{
    if raw.len() == 0 {
        s
    } else {
        let r = raw.last();
        touch_next(touch_after(s, raw.drop_last()), r.0, r.1, r.2)
    }
}

/// The events that the raw reports `raw` produce, in order, from `s`.
pub open spec fn touch_events(s: TouchState, raw: Seq<(u16, u16, i32)>) -> Seq<InputEvent>
    decreases raw.len(),
{
    if raw.len() == 0 {
        Seq::empty()
    } else {
        let r = raw.last();
        let before = touch_events(s, raw.drop_last());
        match touch_event(touch_after(s, raw.drop_last()), r.0, r.1) {
            Some(e) => before.push(e),
            None => before,
        }
    }
}

/// The number of synchronisation reports among `raw`.
pub open spec fn sync_count(raw: Seq<(u16, u16, i32)>) -> nat
    decreases raw.len(),
{
    if raw.len() == 0 {
        0
    } else {
        let r = raw.last();
        sync_count(raw.drop_last()) + if r.0 == EV_SYN && r.1 == SYN_REPORT {
            1nat
        } else {
            0nat
        }
    }
}

impl TouchState {
    /// Takes a batch of raw reports, in order, and returns the events they
    /// produce, in order.
    pub fn handle_all(&mut self, raw: &[(u16, u16, i32)]) -> (events: Vec<InputEvent>)
        ensures
            *final(self) == touch_after(*old(self), raw@),
            events@ == touch_events(*old(self), raw@),
    {
        let ghost s0 = *self;
        let mut events: Vec<InputEvent> = Vec::new();
        let mut i: usize = 0;
        while i < raw.len()
            invariant
                i <= raw@.len(),
                *self == touch_after(s0, raw@.take(i as int)),
                events@ == touch_events(s0, raw@.take(i as int)),
            decreases raw@.len() - i,
        {
            let (t, c, v) = raw[i];
            proof {
                assert(raw@.take(i + 1).drop_last() =~= raw@.take(i as int));
                assert(raw@.take(i + 1).last() == raw@[i as int]);
            }
            match self.handle(t, c, v) {
                Some(e) => events.push(e),
                None => {},
            }
            i = i + 1;
        }
        proof {
            assert(raw@.take(raw@.len() as int) =~= raw@);
        }
        events
    }
}

/// A batch of raw reports produces at most one event per synchronisation
/// report.
pub proof fn lemma_one_event_per_report(s: TouchState, raw: Seq<(u16, u16, i32)>)
    ensures
        touch_events(s, raw).len() <= sync_count(raw),
    decreases raw.len(),
{
    if raw.len() > 0 {
        lemma_one_event_per_report(s, raw.drop_last());
    }
}

/// A drag: while the contact stays down, a report that moves it along
/// either axis, then a synchronisation report, gives a move to the new
/// position exactly when the position changed, and no event otherwise.
pub proof fn lemma_drag(s: TouchState, code: u16, v: i32)
    requires
        s.down,
        s.prev_down,
        s.prev_x == s.x,
        s.prev_y == s.y,
        code == ABS_X || code == ABS_Y,
    ensures
        ({
            let s1 = touch_next(s, EV_ABS, code, v);
            let moved = if code == ABS_X {
                v != s.x
            } else {
                v != s.y
            };
            &&& moved ==> touch_event(s1, EV_SYN, SYN_REPORT) == Some(
                InputEvent::Move { x: s1.x as usize, y: s1.y as usize },
            )
            &&& !moved ==> touch_event(s1, EV_SYN, SYN_REPORT) is None
            &&& code == ABS_X ==> s1.x == v && s1.y == s.y
            &&& code == ABS_Y ==> s1.y == v && s1.x == s.x
        }),
{
}

/// A synchronisation report: a contact that has just come down gives a press,
/// one that has just been lifted a release, both at the current position;
/// with no contact before or now nothing happens. Afterwards the state at
/// this report is the one the next report compares with.
pub proof fn lemma_sync(s: TouchState)
    ensures
        s.down && !s.prev_down ==> touch_event(s, EV_SYN, SYN_REPORT) == Some(
            InputEvent::Press { x: s.x as usize, y: s.y as usize },
        ),
        !s.down && s.prev_down ==> touch_event(s, EV_SYN, SYN_REPORT) == Some(
            InputEvent::Release { x: s.x as usize, y: s.y as usize },
        ),
        !s.down && !s.prev_down ==> touch_event(s, EV_SYN, SYN_REPORT) is None,
        ({
            let s1 = touch_next(s, EV_SYN, SYN_REPORT, 0);
            &&& s1.x == s.x && s1.y == s.y && s1.down == s.down
            &&& s1.prev_x == s.x && s1.prev_y == s.y && s1.prev_down == s.down
        }),
{
}

/// Axis and button reports give no event and change only what they report:
/// `ABS_X` the x position, `ABS_Y` the y position, `BTN_TOUCH` whether the
/// contact is down (any non-zero value is down).
pub proof fn lemma_reports(s: TouchState, v: i32)
    ensures
        touch_event(s, EV_ABS, ABS_X) is None,
        touch_event(s, EV_ABS, ABS_Y) is None,
        touch_event(s, EV_KEY, BTN_TOUCH) is None,
        touch_next(s, EV_ABS, ABS_X, v) == (TouchState { x: v, ..s }),
        touch_next(s, EV_ABS, ABS_Y, v) == (TouchState { y: v, ..s }),
        touch_next(s, EV_KEY, BTN_TOUCH, v) == (TouchState { down: v != 0, ..s }),
{
}

/// While the contact stays down, a synchronisation report gives a move to the
/// current position exactly when it differs from the position at the
/// previous report (in x, in y or both), and no event otherwise.
pub proof fn lemma_move_when_moved(s: TouchState)
    requires
        s.down,
        s.prev_down,
    ensures
        (s.x != s.prev_x || s.y != s.prev_y) ==> touch_event(s, EV_SYN, SYN_REPORT) == Some(
            InputEvent::Move { x: s.x as usize, y: s.y as usize },
        ),
        (s.x == s.prev_x && s.y == s.prev_y) ==> touch_event(s, EV_SYN, SYN_REPORT) is None,
{
}

/// After a synchronisation report nothing is pending: a second report right
/// away produces no event.
pub proof fn lemma_sync_idempotent(s: TouchState)
    ensures
        touch_event(touch_next(s, EV_SYN, SYN_REPORT, 0), EV_SYN, SYN_REPORT) is None,
{
}

/// A touch that goes down and comes up again produces a press at the touched
/// point, then a release.
pub proof fn lemma_tap(s: TouchState, x: i32, y: i32)
    requires
        !s.down,
        !s.prev_down,
    ensures
        ({
            let s1 = touch_next(s, EV_ABS, ABS_X, x);
            let s2 = touch_next(s1, EV_ABS, ABS_Y, y);
            let s3 = touch_next(s2, EV_KEY, BTN_TOUCH, 1);
            let s4 = touch_next(s3, EV_SYN, SYN_REPORT, 0);
            let s5 = touch_next(s4, EV_KEY, BTN_TOUCH, 0);
            &&& touch_event(s3, EV_SYN, SYN_REPORT) == Some(
                InputEvent::Press { x: x as usize, y: y as usize },
            )
            &&& touch_event(s5, EV_SYN, SYN_REPORT) == Some(
                InputEvent::Release { x: x as usize, y: y as usize },
            )
        }),
{
}

} // verus!
