//! Logical controls and the actions bound to them.
//!
//! Every physical control (slider, button or dial) is represented by one
//! [`Component`] per bank: a fixed controller ID plus an optionally bound
//! action. All three kinds share this structure; the kind tag exists so a
//! future revision may give them distinct physical semantics.

use vstd::prelude::*;

verus! {

/// The closed set of component kinds a preset can name.
#[derive(Clone, Copy, Debug, PartialEq, Eq)]
pub enum ComponentType {
    Slider,
    Button,
    Dial,
}

/// The behavior a component invokes when it receives a value: a handle
/// into the host's table of raw-value callbacks, or a handle to a resolved
/// audio session. For a session the host applies the perceptual volume
/// curve to the raw value before setting the session's volume; a callback
/// receives the raw 7-bit value and decides its own mapping.
#[derive(Clone, Copy, Debug, PartialEq, Eq)]
pub enum ActionSink {
    Callback(usize),
    Session(usize),
}

/// One action invocation the engine asks its host to perform: send the
/// raw 7-bit `value` to `sink`.
#[derive(Clone, Copy, Debug, PartialEq, Eq)]
pub struct Invocation {
    pub sink: ActionSink,
    pub value: u8,
}

/// One logical control: an immutable controller ID and, once bound, an
/// action. A component starts unbound and its action is owned by this
/// component instance alone.
#[derive(Clone, Copy, Debug, PartialEq, Eq)]
pub struct Component {
    pub controller: u8,
    pub action: Option<ActionSink>,
}

impl Component {
    /// A fresh, unbound component listening to `controller`.
    pub fn new(controller: u8) -> (c: Component)
        ensures
            c.controller == controller,
            c.action is None,
    {
        Component { controller, action: None }
    }

    /// The fixed controller ID this component listens to.
    pub fn get_controller(&self) -> (id: u8)
        ensures
            id == self.controller,
    {
        self.controller
    }

    /// Binds `action`, silently replacing any previous binding.
    pub fn bind(&mut self, action: ActionSink)
        ensures
            final(self).controller == old(self).controller,
            final(self).action == Some(action),
    {
        self.action = Some(action);
    }

    /// The invocation this component asks for on an incoming value: its
    /// bound action applied to the raw value, or nothing when unbound.
    pub open spec fn spec_dispatch(&self, value: u8) -> Option<Invocation> {
        match self.action {
            Some(sink) => Some(Invocation { sink, value }),
            None => None,
        }
    }

    /// Dispatches an incoming raw value to this component.
    pub fn dispatch(&self, value: u8) -> (r: Option<Invocation>)
        ensures
            r == self.spec_dispatch(value),
    {
        match self.action {
            Some(sink) => Some(Invocation { sink, value }),
            None => None,
        }
    }
}

} // verus!
