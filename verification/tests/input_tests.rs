use tg_rcore_graphics::dma::{dma_reserve, PAGE_SIZE};
use tg_rcore_graphics::keyboard::{keycode_to_ascii, refresh, take, KeyEvent, KeyLatch, EV_KEY, KEY_A, KEY_D, KEY_Q, KEY_S, KEY_W};
use tg_rcore_graphics::text::{decimal_text, push_str};

fn press(code: u16) -> KeyEvent {
    KeyEvent { event_type: EV_KEY, code, value: 1 }
}

#[test]
fn keycodes_map_to_game_keys() {
    assert_eq!(keycode_to_ascii(KEY_W), Some(b'w'));
    assert_eq!(keycode_to_ascii(KEY_A), Some(b'a'));
    assert_eq!(keycode_to_ascii(KEY_S), Some(b's'));
    assert_eq!(keycode_to_ascii(KEY_D), Some(b'd'));
    assert_eq!(keycode_to_ascii(KEY_Q), Some(b'q'));
    assert_eq!(keycode_to_ascii(57), None);
}

#[test]
fn latest_press_wins_and_releases_are_ignored() {
    let mut latch = KeyLatch::new();
    let events = vec![
        press(KEY_W),
        KeyEvent { event_type: EV_KEY, code: KEY_D, value: 0 },
        press(KEY_S),
        KeyEvent { event_type: 0, code: KEY_A, value: 1 },
        press(57),
    ];
    refresh(&mut latch, &events);
    assert_eq!(latch.last, b's' as usize + 1);
    assert_eq!(take(&mut latch, &Vec::new()), Some(b's'));
}

#[test]
fn take_empties_the_latch() {
    let mut latch = KeyLatch::new();
    assert_eq!(take(&mut latch, &vec![press(KEY_A)]), Some(b'a'));
    assert_eq!(latch.last, 0);
    assert_eq!(take(&mut latch, &Vec::new()), None);
}

#[test]
fn take_sees_new_events_over_an_old_key() {
    let mut latch = KeyLatch::new();
    refresh(&mut latch, &vec![press(KEY_W)]);
    assert_eq!(take(&mut latch, &vec![press(KEY_Q)]), Some(b'q'));
}

#[test]
fn dma_blocks_are_page_aligned() {
    assert_eq!(dma_reserve(0, 2, 16 * PAGE_SIZE), Some((0, 2 * PAGE_SIZE)));
    assert_eq!(dma_reserve(1, 1, 16 * PAGE_SIZE), Some((PAGE_SIZE, 2 * PAGE_SIZE)));
    assert_eq!(dma_reserve(PAGE_SIZE, 1, 16 * PAGE_SIZE), Some((PAGE_SIZE, 2 * PAGE_SIZE)));
    assert_eq!(dma_reserve(15 * PAGE_SIZE, 1, 16 * PAGE_SIZE), Some((15 * PAGE_SIZE, 16 * PAGE_SIZE)));
}

#[test]
fn dma_refuses_what_does_not_fit() {
    assert_eq!(dma_reserve(15 * PAGE_SIZE + 1, 1, 16 * PAGE_SIZE), None);
    assert_eq!(dma_reserve(0, 17, 16 * PAGE_SIZE), None);
}

#[test]
fn consecutive_dma_blocks_do_not_overlap() {
    let cap = 512 * PAGE_SIZE;
    let (a0, a1) = dma_reserve(0, 3, cap).unwrap();
    let (b0, b1) = dma_reserve(a1, 5, cap).unwrap();
    assert!(a0 < a1 && a1 <= b0 && b0 < b1);
    assert_eq!(b1 - b0, 5 * PAGE_SIZE);
}

#[test]
fn decimal_text_writes_digits() {
    assert_eq!(decimal_text(0), b"0".to_vec());
    assert_eq!(decimal_text(7), b"7".to_vec());
    assert_eq!(decimal_text(1200), b"1200".to_vec());
    assert_eq!(decimal_text(usize::MAX), usize::MAX.to_string().into_bytes());
}

#[test]
fn push_str_appends_bytes() {
    let mut out = b"ab".to_vec();
    push_str(&mut out, "cd|");
    assert_eq!(out, b"abcd|".to_vec());
}
