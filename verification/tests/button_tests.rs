use udpstream::button::{update_buttons_from_gpio, PushButton};

#[test]
fn new_button_is_released() {
    let b = PushButton::new();
    assert!(!b.is_pressed());
    assert!(!b.is_pushed());
    assert!(!b.is_released());
    assert_eq!(b, PushButton::default());
}

#[test]
fn press_edge_is_seen_once() {
    let mut b = PushButton::new();
    b.update(true);
    assert!(b.is_pressed());
    assert!(b.is_pushed());
    assert!(!b.is_released());
    b.update(true);
    assert!(b.is_pressed());
    assert!(!b.is_pushed());
}

#[test]
fn release_edge_is_seen_once() {
    let mut b = PushButton::new();
    b.update(true);
    b.update(false);
    assert!(!b.is_pressed());
    assert!(!b.is_pushed());
    assert!(b.is_released());
    b.update(false);
    assert!(!b.is_released());
}

#[test]
fn gpio_bits_drive_one_button_each() {
    let mut buttons = vec![PushButton::new(); 6];
    update_buttons_from_gpio(&mut buttons, 0b0000_0101);
    assert!(buttons[0].is_pressed());
    assert!(!buttons[1].is_pressed());
    assert!(buttons[2].is_pressed());
    assert!(buttons[0].is_pushed());
    update_buttons_from_gpio(&mut buttons, 0b0000_0100);
    assert!(!buttons[0].is_pressed());
    assert!(buttons[0].is_released());
    assert!(buttons[2].is_pressed());
    assert!(!buttons[2].is_pushed());
}
