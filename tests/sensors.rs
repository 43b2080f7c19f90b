use rshacks::log::{area_of_line, transition_in_line, LogChecker};
use rshacks::mouse::{poll_mouse_wheel_down, poll_mouse_wheel_up, MouseChecker};
use rshacks::ptr_map::PtrMap;
use rshacks::screen::{check_chat, chat_region, Rect, Screen, Screenshot};
use rshacks::types::ErrorKind;

#[test]
fn pointer_map_reading_and_writing() {
    let m = PtrMap::from_text("0x025F5988, 0x8 0X10,24").unwrap();
    assert_eq!(m.offsets, vec![0x025F5988, 0x8, 0x1024]);
    assert_eq!(m.to_string(), "0x025F5988, 0x8, 0x1024");
    let short = PtrMap::from_text("16 255").unwrap();
    assert_eq!(short.to_string(), "0x00000010, 0xFF");
    assert_eq!(PtrMap::from_text(" , ").unwrap_err().kind, ErrorKind::EmptyPointerMap);
    let e = PtrMap::from_text("0x10 0xZZ").unwrap_err();
    assert_eq!(e.kind, ErrorKind::InvalidOffset);
    assert_eq!(e.word, "0xZZ");
}

#[test]
fn pointer_map_nudge_wraps() {
    let mut m = PtrMap::from_text("0x100 0x8").unwrap();
    m.nudge_base(0x10);
    assert_eq!(m.offsets, vec![0x110, 0x8]);
    m.nudge_base(-0x20);
    assert_eq!(m.offsets, vec![0xF0, 0x8]);
    m.nudge_base(-0x100);
    assert_eq!(m.offsets[0], u64::MAX - 0xF);
}

#[test]
fn log_lines() {
    let town = "2024/01/01 10:00:00 1 abc [INFO Client 42] Generating level 1 area \"1_1_town\" with seed 1";
    let map = "2024/01/01 10:00:00 1 abc [INFO Client 42]   Generating level 68 area \"MapWorldsBeach\" with seed 9";
    let done = "2024/01/01 10:00:01 1 abc [DEBUG Client 42] [SHADER] Delay: ON";
    assert_eq!(area_of_line(town), Some(true));
    assert_eq!(area_of_line(map), Some(false));
    assert_eq!(area_of_line(done), None);
    assert_eq!(area_of_line("no bracket Generating level \"x_town\""), None);
    assert!(transition_in_line(done));
    assert!(!transition_in_line(town));

    let mut checker = LogChecker::new();
    let first = checker.check(&vec![town.to_string(), done.to_string()]);
    assert_eq!(first.in_town, Some(true));
    assert!(first.just_transitioned);
    let second = checker.check(&vec![]);
    assert_eq!(second.in_town, Some(true));
    assert!(!second.just_transitioned);
    let third = checker.check(&vec![map.to_string()]);
    assert_eq!(third.in_town, Some(false));
}

#[test]
fn wheel_notches_are_consumed() {
    let mut n: u64 = 2;
    assert!(poll_mouse_wheel_up(&mut n));
    assert!(poll_mouse_wheel_down(&mut n));
    assert!(!poll_mouse_wheel_up(&mut n));
    assert_eq!(n, 0);

    let mut m = MouseChecker::new();
    m.record(2);
    m.record(-1);
    let s = m.check();
    assert!(s.scrolled_up && s.scrolled_down);
    let s = m.check();
    assert!(s.scrolled_up && !s.scrolled_down);
    let s = m.check();
    assert!(!s.scrolled_up && !s.scrolled_down);
}

#[test]
fn screenshot_pixels() {
    let region = Rect { left: 0, top: 0, width: 2, height: 2 };
    let shot = Screenshot::new(region.clone());
    assert_eq!(shot.row_size, 8);
    assert_eq!(shot.colors.len(), 16);
    let mut screen = Screen::capture_region(region);
    let bytes: Vec<u8> = (0..16).collect();
    assert!(screen.store(bytes));
    assert!(!screen.store(vec![0; 3]));
    let s = screen.screenshot();
    assert_eq!(s.color(0, 0), (2, 1, 0));
    assert_eq!(s.color(1, 0), (5, 4, 3));
    assert_eq!(s.color(0, 1), (10, 9, 8));
    assert_eq!(s.colors(), vec![(2, 1, 0), (5, 4, 3), (10, 9, 8), (13, 12, 11)]);
}

#[test]
fn chat_detection() {
    let size = Rect { left: 0, top: 0, width: 1920, height: 1080 };
    let region = chat_region(size);
    assert_eq!(region, Rect { left: 0, top: 756, width: 2, height: 54 });
    let mut screen = Screen::capture_region(region);
    assert!(!check_chat(&screen));
    let row = screen.screenshot().row_size;
    let mut bytes = vec![0u8; row * 54];
    for y in 0..32 {
        for x in 0..2 {
            let i = y * row + x * 3;
            bytes[i] = 59;
            bytes[i + 1] = 98;
            bytes[i + 2] = 136;
        }
    }
    assert!(screen.store(bytes.clone()));
    assert!(check_chat(&screen));
    bytes[31 * row] = 0;
    assert!(screen.store(bytes));
    assert!(!check_chat(&screen));
}
