//! Enabled/disabled state as a pair of small traits.
//!
//! A type exposing an on/off state implements `GetEnabledDisabled` to read it
//! and `SetEnabledDisabled` to change it; `EnableDisable` bundles the two.
//! The plain `bool` carries the state directly.

use vstd::prelude::*;

verus! {

/// Read access to an enabled/disabled state.
pub trait GetEnabledDisabled {
    /// The abstract enabled state the implementing type carries.
    spec fn enabled_spec(&self) -> bool;

    fn is_enabled(&self) -> (r: bool)
        ensures
            r == self.enabled_spec(),
    ;

    fn is_disabled(&self) -> (r: bool)
        ensures
            r == !self.enabled_spec(),
    {
        !self.is_enabled()
    }
}

/// Write access to an enabled/disabled state.
pub trait SetEnabledDisabled: GetEnabledDisabled {
    fn set_enabled_disabled(&mut self, enable: bool)
        ensures
            final(self).enabled_spec() == enable,
    ;

    fn set_enabled(&mut self)
        ensures
            final(self).enabled_spec(),
    {
        self.set_enabled_disabled(true);
    }

    fn set_disabled(&mut self)
        ensures
            !final(self).enabled_spec(),
    {
        self.set_enabled_disabled(false);
    }
}

/// Read and write access to an enabled/disabled state.
pub trait EnableDisable: GetEnabledDisabled + SetEnabledDisabled {

}

impl GetEnabledDisabled for bool {
    open spec fn enabled_spec(&self) -> bool {
        *self
    }

    fn is_enabled(&self) -> (r: bool) {
        *self
    }
}

impl SetEnabledDisabled for bool {
    fn set_enabled_disabled(&mut self, enable: bool) {
        *self = enable;
    }
}

impl EnableDisable for bool {

}

} // verus!
