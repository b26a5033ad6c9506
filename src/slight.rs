use vstd::prelude::*;

use crate::device::{chosen, choice_error, Device, Id};
use crate::error::Error;
use crate::input::{parsed_input, Input, Quantity, Sign};
use crate::range::{Exponential, Range, RangeBuilder, Step, Value, value_range};

verus! {

/// The exponent, in hundredths, used when shaping is asked for without a value (4.0).
pub const EXPONENT_DEFAULT: u32 = 400;

/// The shaping exponent in effect: none when shaping was not asked for, the default when
/// it was asked for without a value, else the value given.
pub open spec fn resolved_exponent(requested: Option<Option<u32>>) -> Option<u32> {
    match requested {
        None => None,
        Some(None) => Some(EXPONENT_DEFAULT),
        Some(Some(e)) => Some(e),
    }
}

/// The move that a request describes, from `curr` on a device whose maximum is `max`.
pub open spec fn value_of(curr: usize, max: usize, input: Input) -> Value {
    let r = Range { curr, max };
    match input {
        Input::To(Quantity::Absolute(v)) => Value::Absolute(v as isize, Step::To(r)),
        Input::To(Quantity::Relative(p)) => Value::Relative(p as isize, Step::To(r)),
        Input::By(Sign::Plus, Quantity::Absolute(v)) => Value::Absolute(v as isize, Step::By(r)),
        Input::By(Sign::Minus, Quantity::Absolute(v)) => Value::Absolute(-v as isize, Step::By(r)),
        Input::By(Sign::Plus, Quantity::Relative(p)) => Value::Relative(p as isize, Step::By(r)),
        Input::By(Sign::Minus, Quantity::Relative(p)) => Value::Relative(-p as isize, Step::By(r)),
    }
}

/// The amounts of a request fit in an `isize`, as those read by `Input::parse` do.
pub open spec fn input_in_range(input: Input) -> bool {
    match input {
        Input::To(Quantity::Absolute(v)) => v <= isize::MAX,
        Input::To(Quantity::Relative(v)) => v <= isize::MAX,
        Input::By(_, Quantity::Absolute(v)) => v <= isize::MAX,
        Input::By(_, Quantity::Relative(v)) => v <= isize::MAX,
    }
}

/// `steps` is what a request yields, shaped by `exponent` when there is one.
pub open spec fn planned(curr: usize, max: usize, input: Input, exponent: Option<u32>, steps: Seq<usize>) -> bool {
    match exponent {
        None => value_of(curr, max, input).yields(steps),
        Some(e) => (Exponential { value: value_of(curr, max, input), exponent: e }).yields(steps),
    }
}

/// One brightness change: the device, the request and how to carry it out.
pub struct Slight {
    pub device: Device,
    pub exponent: Option<u32>,
    pub input: Input,
    pub stdout: bool,
    pub verbose: bool,
}

impl Slight {
    /// The shaping exponent in effect for a request.
    pub fn resolve_exponent(requested: Option<Option<u32>>) -> (r: Option<u32>)
        ensures
            r == resolved_exponent(requested),
    {
        match requested {
            None => None,
            Some(None) => Some(EXPONENT_DEFAULT),
            Some(Some(e)) => Some(e),
        }
    }

    /// The levels to pass through from `curr` to satisfy `input` on a device of maximum `max`.
    pub fn create_range(curr: usize, input: &Input, max: usize, exponent: Option<u32>) -> (r: Vec<usize>)
        requires
            curr <= max,
            input_in_range(*input),
        ensures
            planned(curr, max, *input, exponent, r@),
    {
        let range = Range::new(curr, max);
        let value = match input {
            Input::To(Quantity::Absolute(v)) => range.to().absolute(*v as isize),
            Input::To(Quantity::Relative(p)) => range.to().relative(*p as isize),
            Input::By(Sign::Plus, Quantity::Absolute(v)) => range.by().absolute(*v as isize),
            Input::By(Sign::Minus, Quantity::Absolute(v)) => range.by().absolute(-(*v as isize)),
            Input::By(Sign::Plus, Quantity::Relative(p)) => range.by().relative(*p as isize),
            Input::By(Sign::Minus, Quantity::Relative(p)) => range.by().relative(-(*p as isize)),
        };
        assert(value_range(value).well_formed());
        match exponent {
            None => value.build(),
            Some(e) => value.exp(e).build(),
        }
    }

    /// Prepares a change from the scanned devices and the user's request: the device is
    /// chosen first, then the request is read.
    pub fn new(
        devices: &[Device],
        id: Option<Id>,
        exponent: Option<Option<u32>>,
        input: Option<&[u8]>,
        stdout: bool,
        verbose: bool,
    ) -> (r: Result<Slight, Error>)
        ensures
            (forall|k: int| 0 <= k < devices@.len() ==> !chosen(devices@, id, k)) ==> r == Err::<
                Slight,
                Error,
            >(choice_error(id)),
            (exists|k: int| chosen(devices@, id, k)) && input is None ==> r == Err::<Slight, Error>(
                Error::NoInput,
            ),
            (exists|k: int| chosen(devices@, id, k)) && (input matches Some(t) && parsed_input(t@)
                is None) ==> r == Err::<Slight, Error>(Error::ParseError),
            (exists|k: int| chosen(devices@, id, k)) && (input matches Some(t) && parsed_input(t@)
                is Some) ==> r is Ok,
            r matches Ok(s) ==> (exists|k: int| chosen(devices@, id, k) && s.device == devices@[k])
                && (input matches Some(t) && parsed_input(t@) == Some(s.input)) && s.exponent
                == resolved_exponent(exponent) && s.stdout == stdout && s.verbose == verbose,
    {
        let device = match Device::select(devices, id) {
            Ok(d) => d.duplicate(),
            Err(e) => return Err(e),
        };
        let text = match input {
            Some(t) => t,
            None => return Err(Error::NoInput),
        };
        let input = match Input::parse(text) {
            Ok(i) => i,
            Err(e) => return Err(e),
        };
        Ok(Slight { device, exponent: Self::resolve_exponent(exponent), input, stdout, verbose })
    }
}

/// What the driver of a transition does next.
#[derive(Debug, Clone, Copy, PartialEq, Eq, Structural)]
pub enum Action {
    /// Write this level, then wait before asking again.
    Write(usize),
    /// Every level has been written.
    Finish,
    /// A write failed: stop, leaving the device at the last level written.
    Halt,
}

/// Walks a sequence of levels one write at a time, stopping at the first failed write.
pub struct Transition {
    pub steps: Vec<usize>,
    pub next: usize,
    pub halted: bool,
}

impl Transition {
    pub open spec fn well_formed(&self) -> bool {
        self.next <= self.steps@.len()
    }

    pub fn new(steps: Vec<usize>) -> (r: Transition)
        ensures
            r.steps@ == steps@,
            r.next == 0,
            !r.halted,
            r.well_formed(),
    {
        Transition { steps, next: 0, halted: false }
    }

    /// The next action, given whether the previous write succeeded (`true` before the first).
    pub fn advance(&mut self, last_write_ok: bool) -> (r: Action)
        requires
            old(self).well_formed(),
        ensures
            final(self).well_formed(),
            final(self).steps@ == old(self).steps@,
            old(self).halted || !last_write_ok ==> r == Action::Halt && final(self).halted
                && final(self).next == old(self).next,
            !old(self).halted && last_write_ok && old(self).next < old(self).steps@.len() ==> r
                == Action::Write(old(self).steps@[old(self).next as int]) && !final(self).halted
                && final(self).next == old(self).next + 1,
            !old(self).halted && last_write_ok && old(self).next == old(self).steps@.len() ==> r
                == Action::Finish && !final(self).halted && final(self).next == old(self).next,
    {
        if self.halted || !last_write_ok {
            self.halted = true;
            Action::Halt
        } else if self.next < self.steps.len() {
            let v = self.steps[self.next];
            self.next = self.next + 1;
            Action::Write(v)
        } else {
            Action::Finish
        }
    }
}

} // verus!
