use vstd::prelude::*;

use crossbeam_queue::ArrayQueue;

verus! {

#[verifier::external_type_specification]
#[verifier::external_body]
#[verifier::reject_recursive_types(T)]
pub struct ExArrayQueue<T>(ArrayQueue<T>);

/// The scancodes a bounded queue currently holds, oldest first.
pub uninterp spec fn queue_elems(q: ArrayQueue<u8>) -> Seq<u8>;

/// The fixed capacity a bounded queue was created with.
pub uninterp spec fn queue_capacity(q: ArrayQueue<u8>) -> int;

/// Relies on crossbeam's ArrayQueue::new: creates an empty bounded queue
/// of the given capacity. The constructor panics on a zero capacity, or
/// when one more than the capacity has no next power of two; the bound
/// keeps both away.
#[verifier::external_body]
fn queue_new(cap: usize) -> (q: ArrayQueue<u8>)
    requires
        1 <= cap <= 0x4000_0000,
    ensures
        queue_elems(q) == Seq::<u8>::empty(),
        queue_capacity(q) == cap,
{
    ArrayQueue::new(cap)
}

/// Relies on crossbeam's ArrayQueue::push_mut: appends the value at the
/// back when the queue has room, and hands it back unchanged when the
/// queue is full.
#[verifier::external_body]
fn queue_push(q: &mut ArrayQueue<u8>, value: u8) -> (r: Result<(), u8>)
    ensures
        queue_capacity(*final(q)) == queue_capacity(*old(q)),
        r == (if queue_elems(*old(q)).len() < queue_capacity(*old(q)) {
            Ok::<(), u8>(())
        } else {
            Err::<(), u8>(value)
        }),
        queue_elems(*final(q)) == (if queue_elems(*old(q)).len() < queue_capacity(*old(q)) {
            queue_elems(*old(q)).push(value)
        } else {
            queue_elems(*old(q))
        }),
{
    q.push_mut(value)
}

/// Relies on crossbeam's ArrayQueue::pop_mut: removes and returns the
/// oldest value, or returns nothing from an empty queue.
#[verifier::external_body]
fn queue_pop(q: &mut ArrayQueue<u8>) -> (r: Option<u8>)
    ensures
        queue_capacity(*final(q)) == queue_capacity(*old(q)),
        r == (if queue_elems(*old(q)).len() > 0 {
            Some(queue_elems(*old(q))[0])
        } else {
            None
        }),
        queue_elems(*final(q)) == (if queue_elems(*old(q)).len() > 0 {
            queue_elems(*old(q)).drop_first()
        } else {
            queue_elems(*old(q))
        }),
{
    q.pop_mut()
}

/// Relies on crossbeam's ArrayQueue::is_empty: true exactly when the
/// queue holds nothing.
#[verifier::external_body]
fn queue_is_empty(q: &ArrayQueue<u8>) -> (r: bool)
    ensures
        r == (queue_elems(*q).len() == 0),
{
    q.is_empty()
}

/// The pair of bounded scancode queues the interrupt handlers feed and
/// the main loop drains: one for the keyboard, one for the mouse. A
/// scancode pushed into a full queue is dropped.
pub struct ScancodeQueues {
    keyboard: ArrayQueue<u8>,
    mouse: ArrayQueue<u8>,
}

/// Capacity of the keyboard scancode queue.
pub const KEYBOARD_QUEUE_CAPACITY: usize = 64;

/// Capacity of the mouse scancode queue, larger because each mouse event
/// takes three scancodes.
pub const MOUSE_QUEUE_CAPACITY: usize = 128;

impl ScancodeQueues {
    /// The keyboard scancodes waiting to be read, oldest first.
    pub closed spec fn keyboard_elems(self) -> Seq<u8> {
        queue_elems(self.keyboard)
    }

    /// The mouse scancodes waiting to be read, oldest first.
    pub closed spec fn mouse_elems(self) -> Seq<u8> {
        queue_elems(self.mouse)
    }

    pub closed spec fn keyboard_capacity(self) -> int {
        queue_capacity(self.keyboard)
    }

    pub closed spec fn mouse_capacity(self) -> int {
        queue_capacity(self.mouse)
    }

    pub open spec fn wf(self) -> bool {
        &&& self.keyboard_capacity() == KEYBOARD_QUEUE_CAPACITY
        &&& self.mouse_capacity() == MOUSE_QUEUE_CAPACITY
    }

    /// Creates the two empty queues.
    pub fn new() -> (q: ScancodeQueues)
        ensures
            q.wf(),
            q.keyboard_elems() == Seq::<u8>::empty(),
            q.mouse_elems() == Seq::<u8>::empty(),
    {
        ScancodeQueues { keyboard: queue_new(KEYBOARD_QUEUE_CAPACITY), mouse: queue_new(
            MOUSE_QUEUE_CAPACITY,
        ) }
    }
}

/// Queues a keyboard scancode. When the keyboard queue is full the
/// scancode is dropped and the queue is unchanged.
pub fn add_keyboard_scancode(queues: &mut ScancodeQueues, scancode: u8)
    requires
        old(queues).wf(),
    ensures
        final(queues).wf(),
        final(queues).mouse_elems() == old(queues).mouse_elems(),
        old(queues).keyboard_elems().len() < KEYBOARD_QUEUE_CAPACITY ==> final(queues).keyboard_elems() == old(queues).keyboard_elems().push(scancode),
        old(queues).keyboard_elems().len() >= KEYBOARD_QUEUE_CAPACITY ==> final(queues).keyboard_elems() == old(queues).keyboard_elems(),
{
    let _ = queue_push(&mut queues.keyboard, scancode);
}

/// Queues a mouse scancode. When the mouse queue is full the scancode is
/// dropped and the queue is unchanged.
pub fn add_mouse_scancode(queues: &mut ScancodeQueues, scancode: u8)
    requires
        old(queues).wf(),
    ensures
        final(queues).wf(),
        final(queues).keyboard_elems() == old(queues).keyboard_elems(),
        old(queues).mouse_elems().len() < MOUSE_QUEUE_CAPACITY ==> final(queues).mouse_elems()
            == old(queues).mouse_elems().push(scancode),
        old(queues).mouse_elems().len() >= MOUSE_QUEUE_CAPACITY ==> final(queues).mouse_elems()
            == old(queues).mouse_elems(),
{
    let _ = queue_push(&mut queues.mouse, scancode);
}

/// True exactly when both scancode queues are empty.
pub fn scancode_queues_empty(queues: &ScancodeQueues) -> (r: bool)
    ensures
        r == (queues.keyboard_elems().len() == 0 && queues.mouse_elems().len() == 0),
{
    queue_is_empty(&queues.keyboard) && queue_is_empty(&queues.mouse)
}

/// Takes the oldest waiting keyboard scancode, if any.
pub fn get_keyboard_scancode(queues: &mut ScancodeQueues) -> (r: Option<u8>)
    requires
        old(queues).wf(),
    ensures
        final(queues).wf(),
        final(queues).mouse_elems() == old(queues).mouse_elems(),
        old(queues).keyboard_elems().len() > 0 ==> r == Some(old(queues).keyboard_elems()[0])
            && final(queues).keyboard_elems() == old(queues).keyboard_elems().drop_first(),
        old(queues).keyboard_elems().len() == 0 ==> r is None && final(queues).keyboard_elems()
            == old(queues).keyboard_elems(),
{
    queue_pop(&mut queues.keyboard)
}

/// Takes the oldest waiting mouse scancode, if any.
pub fn get_mouse_scancode(queues: &mut ScancodeQueues) -> (r: Option<u8>)
    requires
        old(queues).wf(),
    ensures
        final(queues).wf(),
        final(queues).keyboard_elems() == old(queues).keyboard_elems(),
        old(queues).mouse_elems().len() > 0 ==> r == Some(old(queues).mouse_elems()[0]) && final(queues).mouse_elems() == old(queues).mouse_elems().drop_first(),
        old(queues).mouse_elems().len() == 0 ==> r is None && final(queues).mouse_elems() == old(
            queues,
        ).mouse_elems(),
{
    queue_pop(&mut queues.mouse)
}

/// The four-phase decode state of the 3-byte PS/2 mouse packet protocol:
/// waiting for the acknowledge byte, then cycling through the packet's
/// three bytes.
#[derive(Debug, Clone, Copy, PartialEq, Eq, Structural)]
pub enum MousePhase {
    Ack,
    Byte1,
    Byte2,
    Byte3,
}

/// The mouse driver's state: current cursor position, per-button state,
/// the bytes of the packet being assembled, and the decode phase.
pub struct MouseStatus {
    pub x_delta: i32,
    pub y_delta: i32,
    pub x_pos: i32,
    pub y_pos: i32,
    pub left_button: bool,
    pub right_button: bool,
    pub middle_button: bool,
    pub buffer: [u8; 3],
    pub phase: MousePhase,
}

/// A position clamped to `[0, limit - 1]`.
pub open spec fn clamp_pos(v: int, limit: int) -> int {
    if v < 0 {
        0
    } else if v > limit - 1 {
        limit - 1
    } else {
        v
    }
}

impl MouseStatus {
    /// The cursor stays on a `width x height` screen.
    pub open spec fn on_screen(self, width: int, height: int) -> bool {
        &&& 0 <= self.x_pos < width
        &&& 0 <= self.y_pos < height
    }

    /// The initial driver state: cursor at the screen center, no buttons
    /// pressed, waiting for the protocol acknowledge.
    pub fn new(screen_width: u32, screen_height: u32) -> (s: MouseStatus)
        requires
            1 <= screen_width,
            1 <= screen_height,
        ensures
            s.x_delta == 0 && s.y_delta == 0,
            s.x_pos == screen_width / 2,
            s.y_pos == screen_height / 2,
            !s.left_button && !s.right_button && !s.middle_button,
            s.buffer@ == seq![0u8, 0u8, 0u8],
            s.phase == MousePhase::Ack,
            screen_width <= 0x8000_0000u32 && screen_height <= 0x8000_0000u32 ==> s.on_screen(
                screen_width as int,
                screen_height as int,
            ),
    {
        MouseStatus {
            x_delta: 0,
            y_delta: 0,
            x_pos: (screen_width / 2) as i32,
            y_pos: (screen_height / 2) as i32,
            left_button: false,
            right_button: false,
            middle_button: false,
            buffer: [0, 0, 0],
            phase: MousePhase::Ack,
        }
    }
}

/// Feeds one mouse scancode into the protocol decoder. The acknowledge
/// byte `0xfa` arms the decoder; the first packet byte is validated and
/// stored; the second and third bytes complete the packet, upon which the
/// button states and the sign-extended movement deltas are decoded, the
/// cursor position is updated and clamped to the screen, and the previous
/// cursor position is returned so the caller can re-composite both the
/// old and the new cursor footprint. Anything else returns nothing.
pub fn mouse_handle_scancode(
    status: &mut MouseStatus,
    scancode: u8,
    screen_width: u32,
    screen_height: u32,
) -> (completed: Option<(u32, u32)>)
    requires
        1 <= screen_width <= 0x8000_0000u32,
        1 <= screen_height <= 0x8000_0000u32,
        old(status).on_screen(screen_width as int, screen_height as int),
    ensures
        final(status).on_screen(screen_width as int, screen_height as int),
        old(status).phase == MousePhase::Ack ==> {
            &&& final(status).phase == (if scancode == 0xfa {
                MousePhase::Byte1
            } else {
                MousePhase::Ack
            })
            &&& final(status).buffer@ == old(status).buffer@
            &&& final(status).x_pos == old(status).x_pos
            &&& final(status).y_pos == old(status).y_pos
            &&& final(status).x_delta == old(status).x_delta
            &&& final(status).y_delta == old(status).y_delta
            &&& final(status).left_button == old(status).left_button
            &&& final(status).right_button == old(status).right_button
            &&& final(status).middle_button == old(status).middle_button
            &&& completed is None
        },
        old(status).phase == MousePhase::Byte1 ==> {
            &&& (scancode & 0b1100_1000 == 0b0000_1000) ==> final(status).phase
                == MousePhase::Byte2 && final(status).buffer@ == old(status).buffer@.update(
                0,
                scancode,
            )
            &&& (scancode & 0b1100_1000 != 0b0000_1000) ==> final(status).phase
                == MousePhase::Byte1 && final(status).buffer@ == old(status).buffer@
            &&& final(status).x_pos == old(status).x_pos
            &&& final(status).y_pos == old(status).y_pos
            &&& final(status).x_delta == old(status).x_delta
            &&& final(status).y_delta == old(status).y_delta
            &&& final(status).left_button == old(status).left_button
            &&& final(status).right_button == old(status).right_button
            &&& final(status).middle_button == old(status).middle_button
            &&& completed is None
        },
        old(status).phase == MousePhase::Byte2 ==> {
            &&& final(status).phase == MousePhase::Byte3
            &&& final(status).buffer@ == old(status).buffer@.update(1, scancode)
            &&& final(status).x_pos == old(status).x_pos
            &&& final(status).y_pos == old(status).y_pos
            &&& final(status).x_delta == old(status).x_delta
            &&& final(status).y_delta == old(status).y_delta
            &&& final(status).left_button == old(status).left_button
            &&& final(status).right_button == old(status).right_button
            &&& final(status).middle_button == old(status).middle_button
            &&& completed is None
        },
        old(status).phase == MousePhase::Byte3 ==> {
            &&& final(status).phase == MousePhase::Byte1
            &&& final(status).buffer@ == old(status).buffer@.update(2, scancode)
            &&& final(status).left_button == (old(status).buffer@[0] & 0b0000_0001 != 0)
            &&& final(status).right_button == (old(status).buffer@[0] & 0b0000_0010 != 0)
            &&& final(status).middle_button == (old(status).buffer@[0] & 0b0000_0100 != 0)
            &&& final(status).x_delta == old(status).buffer@[1] - (if old(status).buffer@[0]
                & 0b0001_0000 != 0 {
                256int
            } else {
                0int
            })
            &&& final(status).y_delta == -(scancode - (if old(status).buffer@[0] & 0b0010_0000
                != 0 {
                256int
            } else {
                0int
            }))
            &&& final(status).x_pos == clamp_pos(
                old(status).x_pos + final(status).x_delta,
                screen_width as int,
            )
            &&& final(status).y_pos == clamp_pos(
                old(status).y_pos + final(status).y_delta,
                screen_height as int,
            )
            &&& completed == Some((old(status).x_pos as u32, old(status).y_pos as u32))
        },
{
    match status.phase {
        MousePhase::Ack => {
            if scancode == 0xfa {
                status.phase = MousePhase::Byte1;
            }
            None
        },
        MousePhase::Byte1 => {
            if scancode & 0b1100_1000 == 0b0000_1000 {
                status.buffer[0] = scancode;
                status.phase = MousePhase::Byte2;
            }
            None
        },
        MousePhase::Byte2 => {
            status.buffer[1] = scancode;
            status.phase = MousePhase::Byte3;
            None
        },
        MousePhase::Byte3 => {
            let old_x = status.x_pos;
            let old_y = status.y_pos;
            status.buffer[2] = scancode;
            status.phase = MousePhase::Byte1;

            status.left_button = status.buffer[0] & 0b0000_0001 != 0;
            status.right_button = status.buffer[0] & 0b0000_0010 != 0;
            status.middle_button = status.buffer[0] & 0b0000_0100 != 0;

            let mut x_delta = status.buffer[1] as i32;
            let mut y_delta = status.buffer[2] as i32;
            if status.buffer[0] & 0b0001_0000 != 0 {
                x_delta -= 256;
            }
            if status.buffer[0] & 0b0010_0000 != 0 {
                y_delta -= 256;
            }
            y_delta = -y_delta;
            status.x_delta = x_delta;
            status.y_delta = y_delta;

            let nx = (status.x_pos as i64) + (x_delta as i64);
            let ny = (status.y_pos as i64) + (y_delta as i64);
            let max_x = (screen_width - 1) as i64;
            let max_y = (screen_height - 1) as i64;
            let nx = if nx < 0 {
                0
            } else if nx > max_x {
                max_x
            } else {
                nx
            };
            let ny = if ny < 0 {
                0
            } else if ny > max_y {
                max_y
            } else {
                ny
            };
            status.x_pos = nx as i32;
            status.y_pos = ny as i32;
            Some((old_x as u32, old_y as u32))
        },
    }
}

} // verus!
