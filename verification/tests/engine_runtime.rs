use hyperfold::assets::{AssetManager, Texture};
use hyperfold::event::{on_event, Event, InputEvent, InputSeek, Mouse, SdlEvent, KEY_BACKSPACE, KEY_DELETE, KEY_END, MOUSE_BTN_LEFT, MOUSE_BTN_RIGHT};
use hyperfold::intersect::{get_keys, intersect, intersect_keys, intersect_mut};
use hyperfold::rect::Point;

#[test]
fn mouse_numbers() {
    assert_eq!(Mouse::from_u8(1), Some(Mouse::Left));
    assert_eq!(Mouse::from_u8(2), Some(Mouse::Middle));
    assert_eq!(Mouse::from_u8(3), Some(Mouse::Right));
    assert_eq!(Mouse::from_u8(4), None);
}

#[test]
fn press_and_release_in_place_is_a_click() {
    let mut e = Event::new();
    e.update(16, Point { x: 5, y: 5 }, Point { x: 5, y: 5 });
    e.update_event(&SdlEvent::MouseButtonDown { button: MOUSE_BTN_LEFT });
    let b = e.get_mouse(Mouse::Left);
    assert!(b.down() && b.held() && !b.clicked());
    e.update_event(&SdlEvent::MouseButtonUp { button: MOUSE_BTN_LEFT });
    let b = e.get_mouse(Mouse::Left);
    assert!(b.clicked() && b.up() && !b.held());
}

#[test]
fn release_far_away_is_no_click() {
    let mut e = Event::new();
    e.update(16, Point { x: 0, y: 0 }, Point { x: 0, y: 0 });
    e.update_event(&SdlEvent::MouseButtonDown { button: MOUSE_BTN_RIGHT });
    e.update(16, Point { x: 30, y: 0 }, Point { x: 30, y: 0 });
    // held across the frame
    assert!(e.get_mouse(Mouse::Right).held());
    assert_eq!(e.get_mouse(Mouse::Right).duration, 16);
    e.update_event(&SdlEvent::MouseButtonUp { button: MOUSE_BTN_RIGHT });
    let b = e.get_mouse(Mouse::Right);
    assert!(b.up() && !b.clicked());
    // position 1 of the button array is the right button
    assert!(e.get_sdl_mouse(1).up());
}

#[test]
fn keys_down_and_up() {
    let mut e = Event::new();
    e.update_event(&SdlEvent::KeyDown { key: 97, text_input: false });
    let k = e.get_key(97).unwrap();
    assert!(k.down() && k.pressed() && k.held());
    e.update_event(&SdlEvent::KeyDown { key: 97, text_input: false });
    let k = e.get_key(97).unwrap();
    assert!(k.pressed() && k.held());
    assert_eq!(e.key_buttons.len(), 1);
    e.update(10, Point::new(), Point::new());
    assert!(e.get_key(97).unwrap().held() && !e.get_key(97).unwrap().pressed());
    e.update_event(&SdlEvent::KeyUp { key: 97 });
    let k = e.get_key(97).unwrap();
    assert!(k.up() && !k.held());
    assert!(e.get_key(98).is_none());
}

#[test]
fn text_input_editing() {
    let mut e = Event::new();
    e.update_event(&SdlEvent::TextInput { text: "ab".to_string() });
    e.update_event(&SdlEvent::KeyDown { key: KEY_BACKSPACE, text_input: true });
    assert_eq!(e.input_text, "a");
    e.update_event(&SdlEvent::KeyDown { key: KEY_BACKSPACE, text_input: true });
    e.update_event(&SdlEvent::KeyDown { key: KEY_BACKSPACE, text_input: true });
    assert_eq!(e.input_text, "");
    assert_eq!(e.input_backspace, 1);
    e.update_event(&SdlEvent::KeyDown { key: KEY_DELETE, text_input: true });
    e.update_event(&SdlEvent::KeyDown { key: KEY_END, text_input: true });
    assert_eq!(e.input_delete, 1);
    assert_eq!(e.input_seek, InputSeek::End);
    // without text input the keys only register
    e.update_event(&SdlEvent::KeyDown { key: KEY_DELETE, text_input: false });
    assert_eq!(e.input_delete, 1);
    e.update(1, Point::new(), Point::new());
    assert_eq!(e.input_backspace, 0);
    assert_eq!(e.input_seek, InputSeek::Idle);
}

#[test]
fn window_and_wheel_events() {
    let mut e = Event::new();
    e.update_event(&SdlEvent::WindowShown { w: 640, h: 480 });
    assert_eq!((e.new_dim.w, e.new_dim.h, e.old_dim.w), (640, 480, 640));
    e.update_event(&SdlEvent::WindowResized { w: 800, h: 600 });
    assert!(e.resized);
    assert_eq!((e.old_dim.w, e.new_dim.w), (640, 800));
    e.update_event(&SdlEvent::MouseWheel { y: 3 });
    assert_eq!(e.scroll, -3);
    e.update_event(&SdlEvent::MouseMotion { xrel: 2, yrel: -1 });
    assert!(e.mouse_moved());
    e.update_event(&SdlEvent::Quit);
    assert!(e.quit);
}

#[test]
fn input_events_of_a_frame() {
    let mut e = Event::new();
    e.update_event(&SdlEvent::KeyDown { key: 5, text_input: false });
    e.update_event(&SdlEvent::MouseButtonDown { button: MOUSE_BTN_LEFT });
    e.update_event(&SdlEvent::KeyDown { key: 6, text_input: false });
    let mut out = Vec::new();
    on_event(&e, &mut out);
    assert_eq!(out.len(), 3);
    assert!(matches!(out[0], InputEvent::Mouse(b) if b.mouse == Mouse::Left));
    assert!(matches!(out[1], InputEvent::Key(k) if k.key == 5));
    assert!(matches!(out[2], InputEvent::Key(k) if k.key == 6));
}

#[test]
fn common_keys_in_order() {
    let mut keys = vec![vec![5, 1, 9, 3], vec![3, 9], vec![9, 7, 3, 1]];
    let r = intersect_keys(&mut keys);
    assert_eq!(r, vec![3, 9]);
    // the key lists end up ordered by length
    assert_eq!(keys.iter().map(|v| v.len()).collect::<Vec<_>>(), vec![2, 4, 4]);
    let mut none: Vec<Vec<u64>> = Vec::new();
    assert!(intersect_keys(&mut none).is_empty());
}

#[test]
fn intersecting_rows() {
    let rows = vec![(1u64, vec![Some(10u64), None]), (2, vec![Some(20), None]), (3, vec![Some(30), None])];
    let other = vec![(3u64, 300u64), (1, 100)];
    let r = intersect(rows, &other, 1);
    assert_eq!(r, vec![(1, vec![Some(10), Some(100)]), (3, vec![Some(30), Some(300)])]);
    let rows = vec![(1u64, vec![Some(10u64), None]), (2, vec![Some(20), None])];
    let mut other = vec![(2u64, 7u64)];
    let r = intersect_mut(rows, &mut other, 1);
    assert_eq!(r, vec![(2, vec![Some(20), Some(7)])]);
    assert_eq!(get_keys(&vec![(4u64, 'a'), (2, 'b')]), vec![4, 2]);
}

#[test]
fn textures_by_file() {
    let mut am = AssetManager::new();
    assert!(am.get_image("a.png").is_none());
    am.add_image("a.png", Texture { tex: 7 });
    am.add_image("b.png", Texture { tex: 8 });
    assert_eq!(am.get_image("a.png").unwrap().tex, 7);
    am.add_image("a.png", Texture { tex: 9 });
    assert_eq!(am.get_image("a.png").unwrap().tex, 9);
    assert_eq!(am.get_image("b.png").unwrap().tex, 8);
    assert_eq!(am.file_imgs.len(), 2);
    assert_eq!(Texture { tex: 3 }.access().tex, 3);
}
