use inspector_core::num::{Num, SCALE};
use inspector_core::path::{FieldPath, FieldPathSegment, ObjectId};
use inspector_core::widget::{
    DragValue, DragValueDragState, KeyInput, drag_value_on_click, drag_value_on_drag,
    drag_value_on_drag_end, drag_value_on_drag_start, drag_value_on_keyboard_input,
    edit_display_text, value_display_text,
};

fn num(scaled: i128) -> Num {
    Num::new_scaled(scaled).unwrap()
}

fn widget(min: Option<Num>, max: Option<Num>) -> DragValue {
    DragValue {
        field_path: FieldPath {
            entity: ObjectId { index: 1, generation: 1 },
            component_type_id: 7,
            path: vec![FieldPathSegment::Named("translation".to_string()), FieldPathSegment::Index(0)],
        },
        drag_speed: num(SCALE / 10), // 0.1 units per pixel
        precision: 2,
        min,
        max,
    }
}

#[test]
fn two_clicks_within_threshold_enter_editing() {
    let dv = widget(None, None);
    let mut state = DragValueDragState::new();
    let value = Num::from_i32(10);
    assert!(!drag_value_on_click(&dv, &mut state, value, 1_000));
    assert!(!state.editing);
    // 250 ms later: a double click.
    assert!(drag_value_on_click(&dv, &mut state, value, 1_250));
    assert!(state.editing);
    assert_eq!(state.original_value.scaled(), 10 * SCALE);
    assert_eq!(state.edit_buffer, b"10.00".to_vec());
    assert!(state.last_click_time.is_none(), "the click clock resets after a double click");
}

#[test]
fn two_clicks_past_threshold_do_not_enter_editing() {
    let dv = widget(None, None);
    let mut state = DragValueDragState::new();
    let value = Num::from_i32(10);
    assert!(!drag_value_on_click(&dv, &mut state, value, 1_000));
    // 400 ms later: too slow.
    assert!(!drag_value_on_click(&dv, &mut state, value, 1_400));
    assert!(!state.editing);
    assert_eq!(state.last_click_time, Some(1_400));
}

#[test]
fn triple_click_does_not_retrigger() {
    let dv = widget(None, None);
    let mut state = DragValueDragState::new();
    let value = Num::from_i32(1);
    drag_value_on_click(&dv, &mut state, value, 0);
    assert!(drag_value_on_click(&dv, &mut state, value, 100));
    // The third quick click finds no armed clock and only re-arms it.
    assert!(!drag_value_on_click(&dv, &mut state, value, 200));
    assert!(state.editing);
}

#[test]
fn drag_math_scales_pixels_into_units() {
    let dv = widget(None, None);
    let mut state = DragValueDragState::new();
    drag_value_on_drag_start(&mut state, Num::from_i32(10));
    assert!(state.dragging);
    let change = drag_value_on_drag(&dv, &state, 3, Num::from_i32(50)).unwrap();
    assert_eq!(change.new_value.scaled(), 15 * SCALE); // 10.0 + 50 * 0.1
    assert_eq!(change.source, 3);
    assert_eq!(change.field_path, dv.field_path);
    drag_value_on_drag_end(&mut state);
    assert!(!state.dragging);
}

#[test]
fn drag_clamps_into_configured_bounds() {
    let dv = widget(Some(Num::from_i32(12)), None);
    let mut state = DragValueDragState::new();
    drag_value_on_drag_start(&mut state, Num::from_i32(10));
    // 10.0 + 10 * 0.1 = 11.0, below the lower bound: clamps to 12.0.
    let low = drag_value_on_drag(&dv, &state, 0, Num::from_i32(10)).unwrap();
    assert_eq!(low.new_value.scaled(), 12 * SCALE);
    // 10.0 + 50 * 0.1 = 15.0, above the lower bound: unchanged.
    let high = drag_value_on_drag(&dv, &state, 0, Num::from_i32(50)).unwrap();
    assert_eq!(high.new_value.scaled(), 15 * SCALE);

    let capped = widget(None, Some(Num::from_i32(12)));
    let over = drag_value_on_drag(&capped, &state, 0, Num::from_i32(50)).unwrap();
    assert_eq!(over.new_value.scaled(), 12 * SCALE);
}

#[test]
fn drag_outside_drag_mode_emits_nothing() {
    let dv = widget(None, None);
    let state = DragValueDragState::new();
    assert!(drag_value_on_drag(&dv, &state, 0, Num::from_i32(50)).is_none());
}

#[test]
fn drag_start_is_ignored_while_editing() {
    let dv = widget(None, None);
    let mut state = DragValueDragState::new();
    drag_value_on_click(&dv, &mut state, Num::from_i32(5), 0);
    drag_value_on_click(&dv, &mut state, Num::from_i32(5), 100);
    assert!(state.editing);
    drag_value_on_drag_start(&mut state, Num::from_i32(5));
    assert!(!state.dragging);
}

fn editing_state(dv: &DragValue, value: Num) -> DragValueDragState {
    let mut state = DragValueDragState::new();
    drag_value_on_click(dv, &mut state, value, 0);
    drag_value_on_click(dv, &mut state, value, 100);
    assert!(state.editing);
    state
}

#[test]
fn typed_characters_append_and_backspace_removes() {
    let dv = widget(None, None);
    let mut state = editing_state(&dv, Num::from_i32(10));
    assert_eq!(state.edit_buffer, b"10.00".to_vec());
    let (c, done) =
        drag_value_on_keyboard_input(&dv, &mut state, 0, KeyInput::Character(b"5".to_vec()));
    assert!(c.is_none() && !done);
    assert_eq!(state.edit_buffer, b"10.005".to_vec());
    drag_value_on_keyboard_input(&dv, &mut state, 0, KeyInput::Backspace);
    assert_eq!(state.edit_buffer, b"10.00".to_vec());
    // Every byte of the typed text must be acceptable.
    drag_value_on_keyboard_input(&dv, &mut state, 0, KeyInput::Character(b"x".to_vec()));
    assert_eq!(state.edit_buffer, b"10.00".to_vec());
    drag_value_on_keyboard_input(&dv, &mut state, 0, KeyInput::Character(b"e-1".to_vec()));
    assert_eq!(state.edit_buffer, b"10.00e-1".to_vec());
    assert_eq!(edit_display_text(&state), "10.00e-1|");
}

#[test]
fn enter_commits_the_parsed_buffer() {
    let dv = widget(None, None);
    let mut state = editing_state(&dv, Num::from_i32(10));
    state.edit_buffer = b"42.5".to_vec();
    let (change, done) = drag_value_on_keyboard_input(&dv, &mut state, 9, KeyInput::Enter);
    assert!(done, "committing leaves edit mode and releases focus");
    assert!(!state.editing);
    assert!(state.edit_buffer.is_empty());
    let change = change.unwrap();
    assert_eq!(change.new_value.scaled(), 42 * SCALE + SCALE / 2);
    assert_eq!(change.source, 9);
}

#[test]
fn enter_clamps_the_committed_value() {
    let dv = widget(Some(Num::from_i32(0)), Some(Num::from_i32(40)));
    let mut state = editing_state(&dv, Num::from_i32(10));
    state.edit_buffer = b"42.5".to_vec();
    let (change, _) = drag_value_on_keyboard_input(&dv, &mut state, 0, KeyInput::Enter);
    assert_eq!(change.unwrap().new_value.scaled(), 40 * SCALE);
}

#[test]
fn enter_on_unparsable_buffer_commits_nothing() {
    let dv = widget(None, None);
    let mut state = editing_state(&dv, Num::from_i32(10));
    state.edit_buffer = b"5.5.5".to_vec();
    let (change, done) = drag_value_on_keyboard_input(&dv, &mut state, 0, KeyInput::Enter);
    assert!(change.is_none(), "a parse failure on commit is silently ignored");
    assert!(done && !state.editing);
}

#[test]
fn escape_abandons_the_edit() {
    let dv = widget(None, None);
    let mut state = editing_state(&dv, Num::from_i32(10));
    state.edit_buffer = b"99".to_vec();
    let (change, done) = drag_value_on_keyboard_input(&dv, &mut state, 0, KeyInput::Escape);
    assert!(change.is_none() && done);
    assert!(!state.editing);
    assert_eq!(state.original_value.scaled(), 10 * SCALE);
}

#[test]
fn keys_are_ignored_outside_edit_mode() {
    let dv = widget(None, None);
    let mut state = DragValueDragState::new();
    let (change, done) = drag_value_on_keyboard_input(&dv, &mut state, 0, KeyInput::Enter);
    assert!(change.is_none() && !done);
    assert!(!state.editing);
}

#[test]
fn display_text_uses_the_widget_precision() {
    let dv = widget(None, None);
    assert_eq!(value_display_text(&dv, num(15 * SCALE)), "15.00");
    assert_eq!(value_display_text(&dv, num(-SCALE / 4)), "-0.25");
}
