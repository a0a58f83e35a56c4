use game_information_counter::input::{
    capturing, game_focused, hold_capture, keep_release_only, key_down, key_up, open_url,
    physically_down, raw_input, release_capture, Capture, Clipboard, CAPTURE_LEASE_MS,
    CLIPBOARD_MAX, KEYEVENTF_SCANCODE, RID_INPUT, RIM_TYPEKEYBOARD, RIM_TYPEMOUSE,
};
use game_information_counter::utf16::{decode, encode, until_zero};

const RI_KEY_BREAK: u16 = 1;

fn keyboard(flags: u16) -> Vec<u8> {
    let mut buf = vec![0u8; 48];
    buf[0..4].copy_from_slice(&(RIM_TYPEKEYBOARD as u32).to_le_bytes());
    buf[4..8].copy_from_slice(&40u32.to_le_bytes());
    buf[26..28].copy_from_slice(&flags.to_le_bytes());
    buf[30..32].copy_from_slice(&0x57u16.to_le_bytes());
    buf
}

#[test]
fn only_releases_reach_the_game() {
    assert!(!keep_release_only(&mut keyboard(0), 40), "a press is not given to the game");
    assert!(keep_release_only(&mut keyboard(RI_KEY_BREAK), 40), "a release has to pass");
    assert!(!keep_release_only(&mut keyboard(RI_KEY_BREAK), 8));
}

#[test]
fn mouse_release_carries_no_movement() {
    let mut buf = vec![0u8; 48];
    buf[0..4].copy_from_slice(&(RIM_TYPEMOUSE as u32).to_le_bytes());
    buf[4..8].copy_from_slice(&48u32.to_le_bytes());
    buf[28..30].copy_from_slice(&(0x0001u16 | 0x0002).to_le_bytes());
    buf[36..40].copy_from_slice(&40i32.to_le_bytes());
    buf[40..44].copy_from_slice(&(-25i32).to_le_bytes());
    assert!(keep_release_only(&mut buf, 48));
    assert_eq!(u16::from_le_bytes([buf[28], buf[29]]), 0x0002, "only the release is left");
    assert_eq!(i32::from_le_bytes([buf[36], buf[37], buf[38], buf[39]]), 0);
    assert_eq!(i32::from_le_bytes([buf[40], buf[41], buf[42], buf[43]]), 0);
}

#[test]
fn a_hold_runs_out() {
    let mut c = Capture { until_ms: 0 };
    assert!(!capturing(&c, 5));
    hold_capture(&mut c, 1000);
    assert!(capturing(&c, 1000));
    assert!(capturing(&c, 1000 + CAPTURE_LEASE_MS - 1));
    assert!(!capturing(&c, 1000 + CAPTURE_LEASE_MS));
    hold_capture(&mut c, 2000);
    release_capture(&mut c);
    assert!(!capturing(&c, 2000));
}

#[test]
fn captured_input_is_hidden_from_the_game() {
    let mut press = Some(keyboard(0));
    assert_eq!(raw_input(false, RID_INPUT, 48, &mut press), 48);
    assert_eq!(raw_input(true, RID_INPUT, 48, &mut press), 0);
    let mut release = Some(keyboard(RI_KEY_BREAK));
    assert_eq!(raw_input(true, RID_INPUT, 48, &mut release), 48);
    assert_eq!(raw_input(true, 0, 48, &mut press), 48);
}

#[test]
fn keys_are_sent_by_scan_code() {
    let d = key_down(0x11, false);
    assert_eq!((d.scan, d.flags), (0x11, KEYEVENTF_SCANCODE));
    let e = key_down(0x1D, true);
    assert_ne!(e.flags, d.flags);
    let u = key_up(0x11, false);
    assert_eq!(u.scan, 0x11);
    assert_ne!(u.flags, d.flags);
}

#[test]
fn only_the_own_window_counts_as_the_game() {
    assert!(game_focused(7, 42, 42));
    assert!(!game_focused(7, 41, 42));
    assert!(!game_focused(0, 42, 42));
    assert!(physically_down(-32768));
    assert!(!physically_down(1));
}

#[test]
fn only_web_addresses_are_opened() {
    assert!(open_url("file:///c:/windows").is_none());
    assert!(open_url("calc.exe").is_none());
    let wide = open_url("https://x").unwrap();
    assert_eq!(wide, "https://x\0".encode_utf16().collect::<Vec<u16>>());
    assert!(open_url("http://x").is_some());
}

#[test]
fn the_clipboard_gives_back_what_was_put() {
    for text in ["", "abc", "Привет, 日本 🎮"] {
        let units = Clipboard::set(text);
        assert_eq!(units.last(), Some(&0));
        assert_eq!(Clipboard::get(&units), text);
    }
    let long = vec![65u16; CLIPBOARD_MAX + 5];
    assert_eq!(Clipboard::get(&long).len(), CLIPBOARD_MAX);
}

#[test]
fn text_survives_utf16() {
    let text = "a\u{10FFFF}Ж\u{D7FF}\u{E000}😀";
    let units = encode(text);
    assert_eq!(units, text.encode_utf16().collect::<Vec<u16>>());
    assert_eq!(decode(&units), text);
    let broken = vec![0xD800u16, 0x41, 0xDC00, 0xD83D];
    let want = String::from_utf16_lossy(&broken);
    assert_eq!(decode(&broken), want);
    assert_eq!(until_zero(&vec![1, 2, 3], 2), vec![1, 2]);
    assert_eq!(until_zero(&vec![1, 2, 0, 3], 9), vec![1, 2]);
}
