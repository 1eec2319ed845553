use frame_engine::bridge::PendingOperation;
use frame_engine::engine::load_image;
use frame_engine::error::EngineError;
use wasm_bindgen::{JsCast, JsValue};
use web_sys::HtmlImageElement;

fn blank_image() -> HtmlImageElement {
    JsValue::NULL.unchecked_into::<HtmlImageElement>()
}

fn load_failed(identifier: &str, detail: &str) -> EngineError {
    EngineError::LoadFailed { identifier: String::from(identifier), detail: String::from(detail) }
}

#[test]
fn load_hands_out_the_image_on_success() {
    let loaded = load_image("rhb.png", blank_image(), Ok(()));
    assert!(loaded.is_ok());
}

#[test]
fn load_reports_source_and_detail_on_failure() {
    let loaded = load_image("rhb.png", blank_image(), Err(String::from("404")));
    assert_eq!(loaded.err(), Some(load_failed("rhb.png", "404")));
}

#[test]
fn load_keeps_an_empty_source_and_detail() {
    let loaded = load_image("", blank_image(), Err(String::new()));
    assert_eq!(loaded.err(), Some(load_failed("", "")));
}

#[test]
fn load_has_nothing_to_conclude_while_pending() {
    let (operation, _waiter) = PendingOperation::create();
    assert_eq!(operation.outcome(), None);
}

#[test]
fn load_after_success_alone_returns_the_image() {
    let (mut operation, _waiter) = PendingOperation::create();
    operation.resolve_success();
    let outcome = operation.outcome().expect("a resolver was invoked");
    assert!(load_image("rhb.png", blank_image(), outcome).is_ok());
}

#[test]
fn load_after_error_returns_load_failed_with_the_detail() {
    let (mut operation, _waiter) = PendingOperation::create();
    operation.resolve_error(String::from("JsValue(Event)"));
    let outcome = operation.outcome().expect("a resolver was invoked");
    let loaded = load_image("rhb.png", blank_image(), outcome);
    assert_eq!(loaded.err(), Some(load_failed("rhb.png", "JsValue(Event)")));
}

#[test]
fn load_after_success_then_error_returns_the_image() {
    let (mut operation, _waiter) = PendingOperation::create();
    operation.resolve_success();
    operation.resolve_error(String::from("late"));
    let outcome = operation.outcome().expect("a resolver was invoked");
    assert!(load_image("rhb.png", blank_image(), outcome).is_ok());
}

#[test]
fn two_loads_end_each_on_their_own_outcome() {
    let (mut sheet, _sheet_waiter) = PendingOperation::create();
    let (mut sprite, _sprite_waiter) = PendingOperation::create();
    sprite.resolve_error(String::from("broken"));
    assert!(sheet.is_pending());
    sheet.resolve_success();
    let sheet_loaded = load_image("sheet.png", blank_image(), sheet.outcome().unwrap());
    let sprite_loaded = load_image("sprite.png", blank_image(), sprite.outcome().unwrap());
    assert!(sheet_loaded.is_ok());
    assert_eq!(sprite_loaded.err(), Some(load_failed("sprite.png", "broken")));
}
