use vstd::prelude::*;

use crate::error::Error;
use crate::number::{decimal_within, parse_decimal};

verus! {

/// The kinds of light device that can be controlled.
#[derive(Debug, Clone, Copy, PartialEq, Eq, Structural)]
pub enum Class {
    Backlight,
    Led,
}

impl Class {
    /// The directory under the device class root that lists devices of this class.
    pub fn filename(&self) -> (r: &'static str)
        ensures
            *self == Class::Backlight ==> r@ == "backlight"@,
            *self == Class::Led ==> r@ == "leds"@,
    {
        match self {
            Class::Backlight => "backlight",
            Class::Led => "leds",
        }
    }
}

/// Requested state of an on/off device.
#[derive(Debug, Clone, Copy, PartialEq, Eq, Structural)]
pub enum ToggleState {
    On,
    Off,
}

/// The name of a device, unique within its class.
#[derive(Debug, Clone)]
pub struct Id(pub String);

impl View for Id {
    type V = Seq<char>;

    open spec fn view(&self) -> Seq<char> {
        self.0@
    }
}

impl PartialEq for Id {
    fn eq(&self, other: &Id) -> (r: bool) {
        self.0 == other.0
    }
}

impl vstd::std_specs::cmp::PartialEqSpecImpl for Id {
    open spec fn obeys_eq_spec() -> bool {
        true
    }

    open spec fn eq_spec(&self, other: &Id) -> bool {
        self@ == other@
    }
}

impl From<String> for Id {
    fn from(s: String) -> (r: Id) {
        Id(s)
    }
}

impl vstd::std_specs::convert::FromSpecImpl<String> for Id {
    open spec fn obeys_from_spec() -> bool {
        true
    }

    open spec fn from_spec(s: String) -> Id {
        Id(s)
    }
}

impl Id {
    pub fn as_str(&self) -> (r: &str)
        ensures
            r@ == self@,
    {
        self.0.as_str()
    }
}

/// The current and maximum brightness of one device, as read together.
#[derive(Debug, Clone, Copy, PartialEq, Eq, Structural)]
pub struct Brightness {
    pub current: usize,
    pub max: usize,
}

impl Brightness {
    pub open spec fn well_formed(&self) -> bool {
        self.current <= self.max
    }

    /// A reading, when `current` does not exceed `max`.
    pub fn new(current: usize, max: usize) -> (r: Option<Brightness>)
        ensures
            r == (if current <= max {
                Some(Brightness { current, max })
            } else {
                None::<Brightness>
            }),
    {
        if current <= max {
            Some(Brightness { current, max })
        } else {
            None
        }
    }

    /// Reads a device's two brightness attributes; a missing attribute, one that is not a
    /// decimal number, or a current value above the maximum is a `ReadError`.
    pub fn from_attributes(current: Option<&[u8]>, max: Option<&[u8]>) -> (r: Result<Brightness, Error>)
        ensures
            r is Ok <==> (current matches Some(c) && max matches Some(m) && decimal_within(
                c@,
                usize::MAX as nat,
            ) matches Some(cv) && decimal_within(m@, usize::MAX as nat) matches Some(mv) && cv <= mv),
            r matches Ok(b) ==> b.well_formed() && (current matches Some(c) && max matches Some(m)
                && decimal_within(c@, usize::MAX as nat) == Some(b.current as nat) && decimal_within(
                m@,
                usize::MAX as nat,
            ) == Some(b.max as nat)),
            r matches Err(e) ==> e == Error::ReadError,
    {
        let (c, m) = match (current, max) {
            (Some(c), Some(m)) => (c, m),
            _ => return Err(Error::ReadError),
        };
        let cv = match parse_decimal(c, usize::MAX) {
            Some(v) => v,
            None => return Err(Error::ReadError),
        };
        let mv = match parse_decimal(m, usize::MAX) {
            Some(v) => v,
            None => return Err(Error::ReadError),
        };
        match Brightness::new(cv, mv) {
            Some(b) => Ok(b),
            None => Err(Error::ReadError),
        }
    }

    pub fn is_toggleable(&self) -> (r: bool)
        ensures
            r == (self.max == 1),
    {
        self.max == 1
    }
}

/// The level that toggling an on/off device writes: `On` is the maximum, `Off` is zero,
/// and no state flips the single bit of the current level.
pub open spec fn toggled_level(b: Brightness, state: Option<ToggleState>) -> usize {
    match state {
        Some(ToggleState::On) => b.max,
        Some(ToggleState::Off) => 0,
        None => if b.current == 0 {
            1
        } else {
            0
        },
    }
}

/// One controllable light: its class, its id within the class, and where it lives.
#[derive(Debug, Clone)]
pub struct Device {
    pub class: Class,
    pub id: Id,
    pub path: String,
}

/// The index of the first device whose id is `id`, if any.
pub open spec fn first_with_id(devices: Seq<Device>, id: Seq<char>, k: int) -> bool {
    &&& 0 <= k < devices.len()
    &&& devices[k].id@ == id
    &&& forall|j: int| 0 <= j < k ==> devices[j].id@ != id
}

/// The index of the first backlight, if any.
pub open spec fn first_backlight(devices: Seq<Device>, k: int) -> bool {
    &&& 0 <= k < devices.len()
    &&& devices[k].class == Class::Backlight
    &&& forall|j: int| 0 <= j < k ==> devices[j].class != Class::Backlight
}

/// `k` is the device chosen for `id`: the first with that id, or the first backlight.
pub open spec fn chosen(devices: Seq<Device>, id: Option<Id>, k: int) -> bool {
    match id {
        Some(i) => first_with_id(devices, i@, k),
        None => first_backlight(devices, k),
    }
}

/// The error for a choice that no device satisfies.
pub open spec fn choice_error(id: Option<Id>) -> Error {
    match id {
        Some(_) => Error::SpecifiedDeviceNotFound,
        None => Error::SuitableDeviceNotFound,
    }
}

impl Device {
    pub fn new(class: Class, id: Id, path: String) -> (r: Device)
        ensures
            r == (Device { class, id, path }),
    {
        Device { class, id, path }
    }

    /// A copy of this device, field for field.
    pub fn duplicate(&self) -> (r: Device)
        ensures
            r == *self,
    {
        Device { class: self.class, id: Id(self.id.0.clone()), path: self.path.clone() }
    }

    pub fn class(&self) -> (r: Class)
        ensures
            r == self.class,
    {
        self.class
    }

    pub fn id(&self) -> (r: &Id)
        ensures
            r == &self.id,
    {
        &self.id
    }

    pub fn path(&self) -> (r: &str)
        ensures
            r@ == self.path@,
    {
        self.path.as_str()
    }

    /// Decides the level to write when toggling; only an on/off device can be toggled.
    pub fn toggle(brightness: &Brightness, state: Option<ToggleState>) -> (r: Result<usize, Error>)
        requires
            brightness.well_formed(),
        ensures
            brightness.max != 1 ==> r == Err::<usize, Error>(Error::CannotToggle),
            brightness.max == 1 ==> r == Ok::<usize, Error>(toggled_level(*brightness, state)),
    {
        if brightness.is_toggleable() {
            let new = match state {
                Some(ToggleState::On) => brightness.max,
                Some(ToggleState::Off) => 0,
                None => brightness.current ^ 1,
            };
            proof {
                if state is None {
                    let c = brightness.current;
                    assert(c == 0 || c == 1);
                    assert(0usize ^ 1usize == 1usize) by (bit_vector);
                    assert(1usize ^ 1usize == 0usize) by (bit_vector);
                }
            }
            Ok(new)
        } else {
            Err(Error::CannotToggle)
        }
    }

    /// The first device with the given id.
    pub fn find<'a>(devices: &'a [Device], id: &Id) -> (r: Option<&'a Device>)
        ensures
            r matches Some(d) ==> exists|k: int| first_with_id(devices@, id@, k) && *d == devices@[k],
            r is None ==> forall|k: int| 0 <= k < devices@.len() ==> devices@[k].id@ != id@,
    {
        let mut i: usize = 0;
        while i < devices.len()
            invariant
                0 <= i <= devices@.len(),
                forall|j: int| 0 <= j < i ==> devices@[j].id@ != id@,
            decreases devices@.len() - i,
        {
            if devices[i].id.0 == id.0 {
                assert(first_with_id(devices@, id@, i as int));
                return Some(&devices[i]);
            }
            i = i + 1;
        }
        None
    }

    /// The first backlight, the device chosen when none is named.
    pub fn find_default<'a>(devices: &'a [Device]) -> (r: Option<&'a Device>)
        ensures
            r matches Some(d) ==> exists|k: int| first_backlight(devices@, k) && *d == devices@[k],
            r is None ==> forall|k: int| 0 <= k < devices@.len() ==> devices@[k].class != Class::Backlight,
    {
        let mut i: usize = 0;
        while i < devices.len()
            invariant
                0 <= i <= devices@.len(),
                forall|j: int| 0 <= j < i ==> devices@[j].class != Class::Backlight,
            decreases devices@.len() - i,
        {
            if devices[i].class == Class::Backlight {
                assert(first_backlight(devices@, i as int));
                return Some(&devices[i]);
            }
            i = i + 1;
        }
        None
    }

    /// The device named by `id`, or the first backlight when no id is given.
    pub fn select<'a>(devices: &'a [Device], id: Option<Id>) -> (r: Result<&'a Device, Error>)
        ensures
            r matches Ok(d) ==> exists|k: int| chosen(devices@, id, k) && *d == devices@[k],
            r matches Err(e) ==> e == choice_error(id) && forall|k: int|
                0 <= k < devices@.len() ==> !chosen(devices@, id, k),
            id matches Some(i) ==> (r matches Ok(d) ==> exists|k: int|
                first_with_id(devices@, i@, k) && *d == devices@[k]) && (r matches Err(e) ==> e
                == Error::SpecifiedDeviceNotFound && forall|k: int|
                0 <= k < devices@.len() ==> devices@[k].id@ != i@),
            id is None ==> (r matches Ok(d) ==> exists|k: int|
                first_backlight(devices@, k) && *d == devices@[k]) && (r matches Err(e) ==> e
                == Error::SuitableDeviceNotFound && forall|k: int|
                0 <= k < devices@.len() ==> devices@[k].class != Class::Backlight),
    {
        match id {
            Some(i) => match Self::find(devices, &i) {
                Some(d) => Ok(d),
                None => Err(Error::SpecifiedDeviceNotFound),
            },
            None => match Self::find_default(devices) {
                Some(d) => Ok(d),
                None => Err(Error::SuitableDeviceNotFound),
            },
        }
    }
}

} // verus!
