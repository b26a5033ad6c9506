use slight::device::{Class, Device, Id};
use slight::error::Error;
use slight::input::Input;
use slight::slight::{Action, Slight, Transition, EXPONENT_DEFAULT};

#[test]
fn scenario_to_50_from_10() {
    let input = Input::parse(b"50").unwrap();
    let steps = Slight::create_range(10, &input, 100, None);
    assert_eq!(steps, (11..=50).collect::<Vec<usize>>());
}

#[test]
fn scenario_to_10_from_50() {
    let input = Input::parse(b"10").unwrap();
    let steps = Slight::create_range(50, &input, 100, None);
    assert_eq!(steps, (10..50).rev().collect::<Vec<usize>>());
}

#[test]
fn scenario_up_ten_percent() {
    let input = Input::parse(b"+10%").unwrap();
    let steps = Slight::create_range(0, &input, 100, None);
    assert_eq!(steps, (1..=10).collect::<Vec<usize>>());
}

#[test]
fn shaped_down_by_percent() {
    let input = Input::parse(b"-1%").unwrap();
    let steps = Slight::create_range(50, &input, 100, Some(EXPONENT_DEFAULT));
    assert_eq!(steps, vec![49, 48, 47, 46]);
}

#[test]
fn exponent_resolution() {
    assert_eq!(Slight::resolve_exponent(None), None);
    assert_eq!(Slight::resolve_exponent(Some(None)), Some(400));
    assert_eq!(Slight::resolve_exponent(Some(Some(150))), Some(150));
}

#[test]
fn new_reports_first_failure() {
    let devices = vec![Device::new(
        Class::Backlight,
        Id::from("intel_backlight".to_string()),
        "/sys/class/backlight/intel_backlight".to_string(),
    )];
    let none: Vec<Device> = Vec::new();
    assert_eq!(
        Slight::new(&none, None, None, Some(b"5".as_slice()), false, false).err(),
        Some(Error::SuitableDeviceNotFound)
    );
    assert_eq!(Slight::new(&devices, None, None, None, false, false).err(), Some(Error::NoInput));
    assert_eq!(
        Slight::new(&devices, None, None, Some(b"5x".as_slice()), false, false).err(),
        Some(Error::ParseError)
    );
    let s = Slight::new(&devices, None, Some(None), Some(b"+5".as_slice()), true, false).unwrap();
    assert_eq!(s.device.id().as_str(), "intel_backlight");
    assert_eq!(s.exponent, Some(400));
    assert!(s.stdout);
}

#[test]
fn transition_halts_on_failure() {
    let mut t = Transition::new(vec![3, 4, 5]);
    assert_eq!(t.advance(true), Action::Write(3));
    assert_eq!(t.advance(true), Action::Write(4));
    assert_eq!(t.advance(false), Action::Halt);
    assert_eq!(t.advance(true), Action::Halt);
}

#[test]
fn transition_finishes() {
    let mut t = Transition::new(vec![1]);
    assert_eq!(t.advance(true), Action::Write(1));
    assert_eq!(t.advance(true), Action::Finish);
    let mut empty = Transition::new(Vec::new());
    assert_eq!(empty.advance(true), Action::Finish);
}

#[test]
fn error_messages() {
    assert_eq!(Error::CannotToggle.message(), "Device cannot be toggled: its maximum brightness is not 1");
}
