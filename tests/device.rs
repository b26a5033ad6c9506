use slight::device::{Brightness, Class, Device, Id, ToggleState};
use slight::error::Error;

fn device(class: Class, id: &str) -> Device {
    Device::new(class, Id::from(id.to_string()), format!("/sys/class/{}/{}", class.filename(), id))
}

#[test]
fn select_on_no_devices_fails() {
    let devices: Vec<Device> = Vec::new();
    assert_eq!(Device::select(&devices, None).unwrap_err(), Error::SuitableDeviceNotFound);
    assert_eq!(
        Device::select(&devices, Some(Id::from("x".to_string()))).unwrap_err(),
        Error::SpecifiedDeviceNotFound
    );
}

#[test]
fn select_default_is_first_backlight() {
    let devices = vec![
        device(Class::Led, "input0::capslock"),
        device(Class::Backlight, "intel_backlight"),
        device(Class::Backlight, "acpi_video0"),
    ];
    let d = Device::select(&devices, None).unwrap();
    assert_eq!(d.id().as_str(), "intel_backlight");
    assert_eq!(d.path(), "/sys/class/backlight/intel_backlight");
}

#[test]
fn select_without_backlight_fails() {
    let devices = vec![device(Class::Led, "input0::capslock")];
    assert_eq!(Device::select(&devices, None).unwrap_err(), Error::SuitableDeviceNotFound);
}

#[test]
fn select_by_id_is_exact() {
    let devices = vec![
        device(Class::Backlight, "intel_backlight"),
        device(Class::Led, "input0::capslock"),
    ];
    let d = Device::select(&devices, Some(Id::from("input0::capslock".to_string()))).unwrap();
    assert_eq!(d.class(), Class::Led);
    assert_eq!(
        Device::select(&devices, Some(Id::from("Intel_backlight".to_string()))).unwrap_err(),
        Error::SpecifiedDeviceNotFound
    );
    assert!(Device::find(&devices, &Id::from("nothing".to_string())).is_none());
}

#[test]
fn toggle_needs_binary_device() {
    let b = Brightness::new(3, 5).unwrap();
    assert_eq!(Device::toggle(&b, Some(ToggleState::On)), Err(Error::CannotToggle));
    assert_eq!(Device::toggle(&b, Some(ToggleState::Off)), Err(Error::CannotToggle));
    assert_eq!(Device::toggle(&b, None), Err(Error::CannotToggle));
}

#[test]
fn toggle_binary_device() {
    let off = Brightness::new(0, 1).unwrap();
    assert_eq!(Device::toggle(&off, Some(ToggleState::On)), Ok(1));
    assert_eq!(Device::toggle(&off, None), Ok(1));
    assert_eq!(Device::toggle(&off, Some(ToggleState::Off)), Ok(0));
    let on = Brightness::new(1, 1).unwrap();
    assert_eq!(Device::toggle(&on, None), Ok(0));
    assert!(on.is_toggleable());
}

#[test]
fn brightness_from_attributes() {
    let b = Brightness::from_attributes(Some(b"120".as_slice()), Some(b"255".as_slice())).unwrap();
    assert_eq!(b, Brightness { current: 120, max: 255 });
    assert_eq!(Brightness::from_attributes(None, Some(b"255".as_slice())), Err(Error::ReadError));
    assert_eq!(
        Brightness::from_attributes(Some(b"12a".as_slice()), Some(b"255".as_slice())),
        Err(Error::ReadError)
    );
    assert_eq!(
        Brightness::from_attributes(Some(b"300".as_slice()), Some(b"255".as_slice())),
        Err(Error::ReadError)
    );
    assert_eq!(Brightness::from_attributes(Some(b"".as_slice()), Some(b"1".as_slice())), Err(Error::ReadError));
    assert!(Brightness::new(2, 1).is_none());
}

#[test]
fn class_filenames() {
    assert_eq!(Class::Backlight.filename(), "backlight");
    assert_eq!(Class::Led.filename(), "leds");
}
