//! The firmware supervisor: the host-side state machine that gates the
//! event stream on a version handshake.
//!
//! After process start or a reflash the supervisor is `Verifying`: it waits
//! for a version frame and compares it byte for byte against the expected
//! version.  A match makes it `Operational`, and key frames are translated
//! into MIDI events from then on; a mismatch asks the caller to reflash the
//! firmware and reopen the link, and the supervisor keeps verifying.  A
//! device fault is fatal: the device's state is unknown and its byte stream
//! unsafe to keep interpreting.

use crate::midi::{
    curve_wf, note, spec_velocity, velocity, Curve, MidiEvent, MIDDLE_C_KEY_INDEX, MIDDLE_C_NOTE,
};
use crate::protocol::{FirmwareMessage, MessageModel};
use vstd::prelude::*;

verus! {

/// Whether the device's identity has been confirmed yet.
#[derive(Copy, Clone, PartialEq, Eq, Structural, Debug)]
pub enum SupervisorState {
    /// Awaiting a version frame that matches the expected version.
    Verifying,
    /// Version confirmed; key frames are routed to the translator.
    Operational,
}

/// What the caller must do with the transport, the flasher or the MIDI
/// sink after one message is handled.
#[derive(Copy, Clone, PartialEq, Eq, Structural, Debug)]
pub enum SupervisorAction {
    /// The reported version matches; nothing to do.
    VersionOk,
    /// The reported version differs: reflash the firmware over the closed
    /// transport, reopen it, and keep verifying.
    Reflash,
    /// Hand this event to the MIDI sink.
    Emit(MidiEvent),
    /// Nothing to do for this message in the current state.
    Ignore,
    /// The device reported a fault; its state is unknown and the pipeline
    /// must stop.
    Fatal,
}

/// The supervisor's state: the handshake phase, the expected version bytes
/// (fixed header plus provisioned build identifier), and the velocity curve
/// the translator applies.
pub struct Supervisor {
    pub state: SupervisorState,
    pub expected_version: Vec<u8>,
    pub curve: Curve,
}

/// Byte-for-byte equality of two byte strings.
fn bytes_eq(a: &Vec<u8>, b: &Vec<u8>) -> (r: bool)
    ensures
        r == (a@ == b@),
{
    if a.len() != b.len() {
        return false;
    }
    let n: usize = a.len();
    let mut i: usize = 0;
    while i < n
        invariant
            i <= n,
            n == a@.len() == b@.len(),
            forall|q: int| 0 <= q < i ==> a@[q] == b@[q],
        decreases n - i,
    {
        if a[i] != b[i] {
            return false;
        }
        i = i + 1;
    }
    assert(a@ =~= b@);
    true
}

impl Supervisor {
    /// A valid supervisor carries a valid velocity curve.
    pub open spec fn wf(&self) -> bool {
        curve_wf(self.curve)
    }

    /// A fresh supervisor starts out verifying, with the expected version
    /// bytes and the velocity curve injected by the caller.
    pub fn new(expected_version: Vec<u8>, curve: Curve) -> (s: Supervisor)
        requires
            curve_wf(curve),
        ensures
            s.wf(),
            s.state == SupervisorState::Verifying,
            s.expected_version@ == expected_version@,
            s.curve == curve,
    {
        Supervisor { state: SupervisorState::Verifying, expected_version, curve }
    }

    /// Handles one decoded frame.
    ///
    /// A version frame is compared byte for byte in any state: a match
    /// makes the supervisor operational, a mismatch asks for a reflash and
    /// keeps it verifying.  Key frames translate to MIDI events — note-on
    /// with the curve-shaped velocity, note-off — once operational, and are
    /// ignored while verifying.  A fault frame is always fatal.
    pub fn handle_message(&mut self, msg: &FirmwareMessage) -> (action: SupervisorAction)
        requires
            old(self).wf(),
            msg@ matches MessageModel::KeyDown(key, _)
                ==> key + MIDDLE_C_NOTE - MIDDLE_C_KEY_INDEX <= 255,
            msg@ matches MessageModel::KeyUp(key)
                ==> key + MIDDLE_C_NOTE - MIDDLE_C_KEY_INDEX <= 255,
        ensures
            final(self).wf(),
            final(self).expected_version@ == old(self).expected_version@,
            final(self).curve == old(self).curve,
            match msg@ {
                MessageModel::Version(text) => {
                    &&& final(self).state == (if text == old(self).expected_version@ {
                        SupervisorState::Operational
                    } else {
                        SupervisorState::Verifying
                    })
                    &&& action == (if text == old(self).expected_version@ {
                        SupervisorAction::VersionOk
                    } else {
                        SupervisorAction::Reflash
                    })
                },
                MessageModel::KeyDown(key, travel) => {
                    &&& final(self).state == old(self).state
                    &&& action == (if old(self).state is Operational {
                        SupervisorAction::Emit(
                            MidiEvent::NoteOn {
                                note: (key + MIDDLE_C_NOTE - MIDDLE_C_KEY_INDEX) as u8,
                                velocity: spec_velocity(travel, old(self).curve) as u8,
                            },
                        )
                    } else {
                        SupervisorAction::Ignore
                    })
                },
                MessageModel::KeyUp(key) => {
                    &&& final(self).state == old(self).state
                    &&& action == (if old(self).state is Operational {
                        SupervisorAction::Emit(
                            MidiEvent::NoteOff {
                                note: (key + MIDDLE_C_NOTE - MIDDLE_C_KEY_INDEX) as u8,
                            },
                        )
                    } else {
                        SupervisorAction::Ignore
                    })
                },
                MessageModel::Panic => {
                    &&& final(self).state == old(self).state
                    &&& action == SupervisorAction::Fatal
                },
            },
    {
        match msg {
            FirmwareMessage::Version(text) => {
                if bytes_eq(text, &self.expected_version) {
                    self.state = SupervisorState::Operational;
                    SupervisorAction::VersionOk
                } else {
                    self.state = SupervisorState::Verifying;
                    SupervisorAction::Reflash
                }
            },
            FirmwareMessage::KeyDown(key, travel) => {
                match self.state {
                    SupervisorState::Operational => SupervisorAction::Emit(
                        MidiEvent::NoteOn {
                            note: note(*key),
                            velocity: velocity(*travel, &self.curve),
                        },
                    ),
                    SupervisorState::Verifying => SupervisorAction::Ignore,
                }
            },
            FirmwareMessage::KeyUp(key) => {
                match self.state {
                    SupervisorState::Operational => SupervisorAction::Emit(
                        MidiEvent::NoteOff { note: note(*key) },
                    ),
                    SupervisorState::Verifying => SupervisorAction::Ignore,
                }
            },
            FirmwareMessage::Panic => SupervisorAction::Fatal,
        }
    }
}

} // verus!
