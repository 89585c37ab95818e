//! A bank-switchable mapping engine for MIDI control surfaces.
//!
//! A hardware controller exposes sliders, buttons and rotary dials, each
//! identified by a 7-bit control-change number. This library turns a compact
//! preset description into a grid of logical components, replicated across
//! independent banks, and routes incoming control-change values to the action
//! bound to the matching component of the currently selected bank.
//!
//! The library is purely reactive: it performs no I/O of its own. The host
//! decodes MIDI messages, feeds them to the engine, and carries out the
//! action invocations the engine hands back.

pub mod audio;
pub mod component;
pub mod controller;
pub mod preset;
