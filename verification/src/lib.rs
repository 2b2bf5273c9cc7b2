//! Verified core of a DIY keyboard instrument: the key-matrix debounce and
//! velocity state machine, the serial wire protocol that carries key events
//! to the host, and the host-side pipeline that checks the firmware version
//! and turns key events into MIDI messages.

pub mod keybed;
pub mod midi;
pub mod protocol;
pub mod serial;
pub mod supervisor;
pub mod text;
pub mod updater;
