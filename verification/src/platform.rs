//! Plain window-system values: sizes, positions, key states and modifier
//! sets, and the application's exit and wake-up requests.
use vstd::prelude::*;

verus! {

/// A size in physical pixels.
#[derive(Clone, Copy, Debug, Default, PartialEq, Eq)]
pub struct PhysicalSize<T> {
    pub width: T,
    pub height: T,
}

impl<T> PhysicalSize<T> {
    pub fn new(width: T, height: T) -> (s: Self)
        ensures
            s.width == width,
            s.height == height,
    {
        PhysicalSize { width, height }
    }
}

/// A position in physical pixels.
#[derive(Clone, Copy, Debug, Default, PartialEq)]
pub struct PhysicalPosition<T> {
    pub x: T,
    pub y: T,
}

impl<T> PhysicalPosition<T> {
    pub fn new(x: T, y: T) -> (p: Self)
        ensures
            p.x == x,
            p.y == y,
    {
        PhysicalPosition { x, y }
    }
}

/// When the event loop should wake up next: on the next event, or at a
/// deadline in milliseconds of the application clock.
#[derive(Clone, Copy, Debug, PartialEq, Eq, Structural)]
pub enum ControlFlow {
    Wait,
    WaitUntil(u64),
}

/// The application's requests to its event loop.
#[derive(Clone, Copy, Debug, Default, PartialEq, Eq, Structural)]
pub struct AppControl {
    pub exiting: bool,
    pub deadline: Option<u64>,
}

impl AppControl {
    /// Asks the event loop to end.
    pub fn exit(&mut self)
        ensures
            final(self).exiting,
            final(self).deadline == old(self).deadline,
    {
        self.exiting = true;
    }

    /// Sets when the event loop should wake up next.
    pub fn set_control_flow(&mut self, flow: ControlFlow)
        ensures
            final(self).exiting == old(self).exiting,
            final(self).deadline == match flow {
                ControlFlow::Wait => None,
                ControlFlow::WaitUntil(t) => Some(t),
            },
    {
        self.deadline = match flow {
            ControlFlow::Wait => None,
            ControlFlow::WaitUntil(t) => Some(t),
        };
    }
}

/// Whether a key or button went down or up.
#[derive(Clone, Copy, Debug, PartialEq, Eq, Structural)]
pub enum ElementState {
    Pressed,
    Released,
}

/// A set of held modifier keys: shift, control, alt and super, as the bits
/// 1, 2, 4 and 8.
#[derive(Clone, Copy, Debug, Default, PartialEq, Eq, Structural)]
pub struct ModifiersState(u8);

impl ModifiersState {
    /// The set holding only shift.
    pub fn shift() -> (m: ModifiersState)
        ensures
            m.bits() == 1,
    {
        ModifiersState(1)
    }

    /// The set holding only control.
    pub fn control() -> (m: ModifiersState)
        ensures
            m.bits() == 2,
    {
        ModifiersState(2)
    }

    /// The set holding only alt.
    pub fn alt() -> (m: ModifiersState)
        ensures
            m.bits() == 4,
    {
        ModifiersState(4)
    }

    /// The set holding only super.
    pub fn super_modifier() -> (m: ModifiersState)
        ensures
            m.bits() == 8,
    {
        ModifiersState(8)
    }

    /// The bits of the set.
    pub closed spec fn bits(self) -> u8 {
        self.0
    }

    pub open spec fn spec_shift(self) -> bool {
        self.bits() & 1 != 0
    }

    pub open spec fn spec_control(self) -> bool {
        self.bits() & 2 != 0
    }

    pub open spec fn spec_alt(self) -> bool {
        self.bits() & 4 != 0
    }

    pub open spec fn spec_super(self) -> bool {
        self.bits() & 8 != 0
    }

    /// The set of the modifiers whose bits are set in `bits`.
    pub fn from_bits(bits: u8) -> (m: ModifiersState)
        ensures
            m.bits() == bits,
    {
        ModifiersState(bits)
    }

    pub fn is_empty(self) -> (r: bool)
        ensures
            r == (self.bits() == 0),
    {
        self.0 == 0
    }

    pub fn empty() -> (m: ModifiersState)
        ensures
            m.bits() == 0,
    {
        ModifiersState(0)
    }

    pub fn shift_key(self) -> (r: bool)
        ensures
            r == self.spec_shift(),
    {
        self.0 & 1 != 0
    }

    pub fn control_key(self) -> (r: bool)
        ensures
            r == self.spec_control(),
    {
        self.0 & 2 != 0
    }

    pub fn alt_key(self) -> (r: bool)
        ensures
            r == self.spec_alt(),
    {
        self.0 & 4 != 0
    }

    pub fn super_key(self) -> (r: bool)
        ensures
            r == self.spec_super(),
    {
        self.0 & 8 != 0
    }

    /// Takes the modifiers of `other` out of the set.
    pub fn remove(&mut self, other: ModifiersState)
        ensures
            final(self).bits() == old(self).bits() & !other.bits(),
    {
        self.0 = self.0 & !other.0;
    }

    /// The modifiers of either set.
    pub fn union(self, other: ModifiersState) -> (m: ModifiersState)
        ensures
            m.bits() == self.bits() | other.bits(),
    {
        ModifiersState(self.0 | other.0)
    }
}

impl core::ops::BitOr for ModifiersState {
    type Output = ModifiersState;

    fn bitor(self, rhs: ModifiersState) -> (m: ModifiersState)
        ensures
            m.bits() == self.bits() | rhs.bits(),
    {
        ModifiersState(self.0 | rhs.0)
    }
}

impl vstd::std_specs::ops::BitOrSpecImpl for ModifiersState {
    open spec fn obeys_bitor_spec() -> bool {
        true
    }

    open spec fn bitor_req(self, rhs: ModifiersState) -> bool {
        true
    }

    closed spec fn bitor_spec(self, rhs: ModifiersState) -> ModifiersState {
        ModifiersState(self.0 | rhs.0)
    }
}

} // verus!
