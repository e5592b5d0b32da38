//! The edit-widget state machine.
//!
//! A drag-value widget turns raw pointer and keyboard events into
//! proposed new values: horizontal dragging scales pixel distance into a
//! value change, and a double-click opens a text-edit session on the
//! field.  Every handler is a pure state transition from plain event
//! data; the host delivers events and renders the returned texts.

use vstd::prelude::*;
use vstd::string::StringExecFns;
use crate::num::{Num, bound_wf, clamp_bounds_spec, clamp_scaled, mul_scaled};
use crate::num_text::{fmt_fixed_spec, format_fixed, is_digit, parse_num, parse_spec};
use crate::path::{FieldPath, clone_path};
use crate::text::{ascii_text, text_of};
use crate::writeback::DragValueChanged;

verus! {

/// Double-click detection threshold, in milliseconds.
pub const DOUBLE_CLICK_THRESHOLD_MS: u64 = 300;

/// Configuration of one drag-value widget: which leaf it edits and how
/// dragging and display behave.
#[derive(Debug)]
pub struct DragValue {
    /// The field path for identifying which field to update.
    pub field_path: FieldPath,
    /// How fast dragging changes the value, in units per pixel.
    pub drag_speed: Num,
    /// Number of decimal places for display.
    pub precision: usize,
    /// Minimum allowed value.
    pub min: Option<Num>,
    /// Maximum allowed value.
    pub max: Option<Num>,
}

impl DragValue {
    /// Speed and bounds are representable.
    pub open spec fn wf(self) -> bool {
        self.drag_speed.wf() && bound_wf(self.min) && bound_wf(self.max)
    }
}

/// Interaction state of one drag-value widget.  Created fresh when the
/// widget is instantiated for a row and discarded with it, so an edit in
/// progress is abandoned when the view rebuilds.
#[derive(Debug, PartialEq)]
pub struct DragValueDragState {
    /// Whether currently dragging.
    pub dragging: bool,
    /// The value when dragging started.
    pub start_value: Num,
    /// Whether in text editing mode.
    pub editing: bool,
    /// Text buffer for editing mode, as rendered bytes.
    pub edit_buffer: Vec<u8>,
    /// Last click time for double-click detection, in milliseconds.
    pub last_click_time: Option<u64>,
    /// The original value before editing, for cancellation.
    pub original_value: Num,
}

impl DragValueDragState {
    /// The snapshotted values are representable.
    pub open spec fn wf(self) -> bool {
        self.start_value.wf() && self.original_value.wf()
    }

    /// The idle state a freshly created widget starts in.
    pub fn new() -> (r: DragValueDragState)
        ensures
            r.wf(),
            !r.dragging,
            !r.editing,
            r.start_value@ == 0,
            r.original_value@ == 0,
            r.edit_buffer@ == Seq::<u8>::empty(),
            r.last_click_time is None,
    {
        DragValueDragState {
            dragging: false,
            start_value: Num::zero(),
            editing: false,
            edit_buffer: Vec::new(),
            last_click_time: None,
            original_value: Num::zero(),
        }
    }
}

/// Whether a byte may be typed into the edit buffer: a digit, point,
/// sign, or exponent marker.
pub open spec fn accepted_byte(b: u8) -> bool {
    is_digit(b) || b == 46 || b == 45 || b == 43 || b == 101 || b == 69
}

/// A keyboard event delivered to a widget in edit mode.
#[derive(Debug, PartialEq)]
pub enum KeyInput {
    Enter,
    Escape,
    Backspace,
    /// Typed text, as its encoded bytes.
    Character(Vec<u8>),
}

/// The value a drag of `delta` pixels proposes: the start value plus the
/// scaled distance, clamped into the configured bounds.
pub open spec fn drag_value_spec(
    start: int,
    delta: int,
    speed: int,
    min: Option<Num>,
    max: Option<Num>,
) -> int {
    clamp_bounds_spec(clamp_scaled(start + clamp_scaled(mul_scaled(delta, speed))), min, max)
}

/// Handles a click for double-click detection.  Two clicks within the
/// threshold on a widget not already editing open an edit session:
/// the current value is snapshotted, the buffer is seeded with its
/// formatted text, and the click clock resets so a triple click does not
/// retrigger.  Any other click only arms the clock.  Returns whether the
/// widget entered editing and so wants exclusive input focus.
pub fn drag_value_on_click(
    dv: &DragValue,
    state: &mut DragValueDragState,
    current_value: Num,
    now_ms: u64,
) -> (entered_editing: bool)
    requires
        dv.wf(),
        old(state).wf(),
        current_value.wf(),
        old(state).last_click_time matches Some(t) ==> t <= now_ms,
    ensures
        final(state).wf(),
        ({
            let double = old(state).last_click_time matches Some(t) && now_ms - t
                < DOUBLE_CLICK_THRESHOLD_MS;
            if double && !old(state).editing {
                &&& entered_editing
                &&& final(state).editing
                &&& final(state).original_value == current_value
                &&& final(state).edit_buffer@ == fmt_fixed_spec(
                    current_value@,
                    dv.precision as nat,
                )
                &&& final(state).last_click_time is None
                &&& final(state).dragging == old(state).dragging
                &&& final(state).start_value == old(state).start_value
            } else {
                &&& !entered_editing
                &&& final(state).last_click_time == Some(now_ms)
                &&& final(state).editing == old(state).editing
                &&& final(state).dragging == old(state).dragging
                &&& final(state).start_value == old(state).start_value
                &&& final(state).original_value == old(state).original_value
                &&& final(state).edit_buffer == old(state).edit_buffer
            }
        }),
{
    let is_double_click = match state.last_click_time {
        Some(last) => now_ms - last < DOUBLE_CLICK_THRESHOLD_MS,
        None => false,
    };
    if is_double_click && !state.editing {
        state.editing = true;
        state.original_value = current_value;
        state.edit_buffer = format_fixed(current_value, dv.precision);
        state.last_click_time = None;
        true
    } else {
        state.last_click_time = Some(now_ms);
        false
    }
}

/// Handles the start of a drag: ignored while editing, otherwise the
/// currently displayed value is snapshotted and dragging begins.
pub fn drag_value_on_drag_start(state: &mut DragValueDragState, current_value: Num)
    requires
        old(state).wf(),
        current_value.wf(),
    ensures
        final(state).wf(),
        old(state).editing ==> *final(state) == *old(state),
        !old(state).editing ==> *final(state) == (DragValueDragState {
            dragging: true,
            start_value: current_value,
            ..*old(state)
        }),
{
    if state.editing {
        return ;
    }
    state.dragging = true;
    state.start_value = current_value;
}

/// Handles a drag movement: while dragging, every move proposes
/// `start_value + horizontal_delta * drag_speed`, clamped into the
/// configured bounds, as an immediate change event.
pub fn drag_value_on_drag(
    dv: &DragValue,
    state: &DragValueDragState,
    source: u64,
    delta_x: Num,
) -> (r: Option<DragValueChanged>)
    requires
        dv.wf(),
        state.wf(),
        delta_x.wf(),
    ensures
        state.dragging <==> r is Some,
        r matches Some(c) ==> {
            &&& c.new_value@ == drag_value_spec(
                state.start_value@,
                delta_x@,
                dv.drag_speed@,
                dv.min,
                dv.max,
            )
            &&& c.new_value.wf()
            &&& c.field_path@ == dv.field_path@
            &&& c.source == source
        },
{
    if state.dragging {
        let delta_value = delta_x.mul_clamped(dv.drag_speed);
        let new_value = state.start_value.add_clamped(delta_value).clamp_bounds(dv.min, dv.max);
        Some(
            DragValueChanged {
                source,
                field_path: clone_path(&dv.field_path),
                new_value,
            },
        )
    } else {
        None
    }
}

/// Handles the end of a drag: dragging stops and no value change is
/// emitted for the release itself.
pub fn drag_value_on_drag_end(state: &mut DragValueDragState)
    ensures
        *final(state) == (DragValueDragState { dragging: false, ..*old(state) }),
{
    state.dragging = false;
}

/// Handles a keystroke while the widget is in edit mode; delivered only
/// to the focused widget.  Enter commits the buffer parsed as a number
/// (clamped to the bounds) and leaves editing; Escape leaves editing
/// without a change; Backspace removes the last buffered byte; typed
/// text is appended only if every byte is an accepted numeric character.
/// Returns the change to queue, if any, and whether editing ended (so
/// the host releases input focus).
pub fn drag_value_on_keyboard_input(
    dv: &DragValue,
    state: &mut DragValueDragState,
    source: u64,
    key: KeyInput,
) -> (r: (Option<DragValueChanged>, bool))
    requires
        dv.wf(),
        old(state).wf(),
    ensures
        final(state).wf(),
        !old(state).editing ==> *final(state) == *old(state) && r.0 is None && !r.1,
        old(state).editing ==> match key {
            KeyInput::Enter => {
                &&& !final(state).editing
                &&& final(state).edit_buffer@ == Seq::<u8>::empty()
                &&& r.1
                &&& match parse_spec(old(state).edit_buffer@) {
                    Some(v) => r.0 matches Some(c) && c.new_value@ == clamp_bounds_spec(
                        v,
                        dv.min,
                        dv.max,
                    ) && c.new_value.wf() && c.field_path@ == dv.field_path@ && c.source
                        == source,
                    None => r.0 is None,
                }
                &&& final(state).dragging == old(state).dragging
                &&& final(state).original_value == old(state).original_value
            },
            KeyInput::Escape => {
                &&& !final(state).editing
                &&& final(state).edit_buffer@ == Seq::<u8>::empty()
                &&& r.0 is None
                &&& r.1
                &&& final(state).dragging == old(state).dragging
                &&& final(state).original_value == old(state).original_value
            },
            KeyInput::Backspace => {
                &&& *final(state) == (DragValueDragState {
                    edit_buffer: final(state).edit_buffer,
                    ..*old(state)
                })
                &&& final(state).edit_buffer@ == if old(state).edit_buffer@.len() > 0 {
                    old(state).edit_buffer@.drop_last()
                } else {
                    old(state).edit_buffer@
                }
                &&& r.0 is None
                &&& !r.1
            },
            KeyInput::Character(text) => {
                &&& *final(state) == (DragValueDragState {
                    edit_buffer: final(state).edit_buffer,
                    ..*old(state)
                })
                &&& final(state).edit_buffer@ == if forall|i: int|
                    0 <= i < text@.len() ==> accepted_byte(#[trigger] text@[i]) {
                    old(state).edit_buffer@ + text@
                } else {
                    old(state).edit_buffer@
                }
                &&& r.0 is None
                &&& !r.1
            },
        },
{
    if !state.editing {
        return (None, false);
    }
    match key {
        KeyInput::Enter => {
            let parsed = parse_num(&state.edit_buffer);
            let change = match parsed {
                Some(v) => {
                    let constrained = v.clamp_bounds(dv.min, dv.max);
                    Some(
                        DragValueChanged {
                            source,
                            field_path: clone_path(&dv.field_path),
                            new_value: constrained,
                        },
                    )
                },
                None => None,
            };
            state.editing = false;
            state.edit_buffer = Vec::new();
            (change, true)
        },
        KeyInput::Escape => {
            state.editing = false;
            state.edit_buffer = Vec::new();
            (None, true)
        },
        KeyInput::Backspace => {
            let _popped = state.edit_buffer.pop();
            proof {
                if old(state).edit_buffer@.len() > 0 {
                    assert(state.edit_buffer@ =~= old(state).edit_buffer@.drop_last());
                }
            }
            (None, false)
        },
        KeyInput::Character(text) => {
            let mut valid = true;
            let mut i: usize = 0;
            while i < text.len()
                invariant
                    i <= text@.len(),
                    valid <==> (forall|j: int|
                        0 <= j < i as int ==> accepted_byte(#[trigger] text@[j])),
                decreases text@.len() - i,
            {
                let b = text[i];
                let ok = (48 <= b && b <= 57) || b == 46 || b == 45 || b == 43 || b == 101 || b
                    == 69;
                if !ok {
                    valid = false;
                    proof {
                        assert(!accepted_byte(text@[i as int]));
                    }
                }
                i = i + 1;
            }
            if valid {
                let ghost b0 = state.edit_buffer@;
                let mut k: usize = 0;
                while k < text.len()
                    invariant
                        k <= text@.len(),
                        state.edit_buffer@ == b0 + text@.subrange(0, k as int),
                        state.wf() == old(state).wf(),
                        state.dragging == old(state).dragging,
                        state.editing == old(state).editing,
                        state.start_value == old(state).start_value,
                        state.original_value == old(state).original_value,
                        state.last_click_time == old(state).last_click_time,
                    decreases text@.len() - k,
                {
                    state.edit_buffer.push(text[k]);
                    proof {
                        assert(state.edit_buffer@ =~= b0 + text@.subrange(0, k as int + 1));
                    }
                    k = k + 1;
                }
                proof {
                    assert(text@.subrange(0, text@.len() as int) =~= text@);
                }
            }
            (None, false)
        },
    }
}

/// The text shown while editing: the buffer with a cursor mark.
pub fn edit_display_text(state: &DragValueDragState) -> (r: String)
    ensures
        r@ == text_of(state.edit_buffer@) + seq!['|'],
{
    let mut out = ascii_text(&state.edit_buffer);
    out.append("|");
    proof {
        reveal_strlit("|");
        assert(out@ =~= text_of(state.edit_buffer@) + seq!['|']);
    }
    out
}

/// The text shown for a committed value, at the widget's precision.
pub fn value_display_text(dv: &DragValue, value: Num) -> (r: String)
    requires
        dv.wf(),
        value.wf(),
    ensures
        r@ == text_of(fmt_fixed_spec(value@, dv.precision as nat)),
{
    let bytes = format_fixed(value, dv.precision);
    ascii_text(&bytes)
}

} // verus!
