use vstd::prelude::*;
use crate::config::{PinConfiguration, PinMode, PullMode};

verus! {

/// A stand-in for a pin that the backend declares unsupported. Reads give
/// `false`, writes and mode changes do nothing, and the first access of any
/// kind records one warning in the caller's sink.
pub struct NullPin {
    name: String,
    has_warned: bool,
}

impl NullPin {
    pub closed spec fn warned(&self) -> bool {
        self.has_warned
    }

    pub closed spec fn name_spec(&self) -> Seq<char> {
        self.name@
    }

    /// What one access does to the warning sink.
    pub open spec fn warned_into(
        &self,
        after: &NullPin,
        sink_before: Seq<String>,
        sink_after: Seq<String>,
    ) -> bool {
        &&& after.warned()
        &&& after.name_spec() == self.name_spec()
        &&& if self.warned() {
            sink_after == sink_before
        } else {
            sink_after.len() == sink_before.len() + 1 && sink_after.drop_last() == sink_before
                && sink_after.last()@ == self.name_spec()
        }
    }

    pub fn new(name: &str) -> (r: NullPin)
        ensures
            !r.warned(),
            r.name_spec() == name@,
    {
        NullPin { name: name.to_owned(), has_warned: false }
    }

    /// Records a warning naming this pin, the first time only.
    pub fn warn(&mut self, sink: &mut Vec<String>)
        ensures
            old(self).warned_into(final(self), old(sink)@, final(sink)@),
    {
        if !self.has_warned {
            let ghost before = sink@;
            sink.push(self.name.clone());
            assert(sink@.drop_last() =~= before);
            self.has_warned = true;
        }
    }

    pub fn read(&mut self, sink: &mut Vec<String>) -> (r: bool)
        ensures
            !r,
            old(self).warned_into(final(self), old(sink)@, final(sink)@),
    {
        self.warn(sink);
        false
    }

    pub fn write(&mut self, _value: bool, sink: &mut Vec<String>)
        ensures
            old(self).warned_into(final(self), old(sink)@, final(sink)@),
    {
        self.warn(sink);
    }

    pub fn set_mode(&mut self, _mode: PinMode, sink: &mut Vec<String>)
        ensures
            old(self).warned_into(final(self), old(sink)@, final(sink)@),
    {
        self.warn(sink);
    }

    /// Applies a whole pin configuration: nothing but the warning.
    pub fn set(&mut self, _conf: PinConfiguration, sink: &mut Vec<String>)
        ensures
            old(self).warned_into(final(self), old(sink)@, final(sink)@),
    {
        self.warn(sink);
    }

    pub fn set_pull_mode(&mut self, _mode: PullMode, sink: &mut Vec<String>)
        ensures
            old(self).warned_into(final(self), old(sink)@, final(sink)@),
    {
        self.warn(sink);
    }
}

/// A pin handed out by the wrapper: a backend pin under its canonical name,
/// or the stand-in for the reserved name `NULL`.
pub enum GpioPin {
    Hardware(String),
    Null(NullPin),
}

} // verus!
