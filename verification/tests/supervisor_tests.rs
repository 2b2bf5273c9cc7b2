use keystation::keybed::{Key, Keybed, SCAN_POSITIONS};
use keystation::midi::{midi_bytes, Curve, MidiEvent};
use keystation::protocol::{decode_next, frame_for_event, DecodeOutcome, FirmwareMessage};
use keystation::supervisor::{Supervisor, SupervisorAction, SupervisorState};

fn expected_version() -> Vec<u8> {
    b"I am a keyboard! :3 1.0".to_vec()
}

#[test]
fn matching_version_makes_the_supervisor_operational() {
    let mut sup = Supervisor::new(expected_version(), Curve::Power(2));
    assert_eq!(sup.state, SupervisorState::Verifying);
    let action = sup.handle_message(&FirmwareMessage::Version(expected_version()));
    assert_eq!(action, SupervisorAction::VersionOk);
    assert_eq!(sup.state, SupervisorState::Operational);
}

#[test]
fn version_mismatch_triggers_exactly_one_reflash_cycle() {
    // "abc" received, "xyz" expected: one reflash-and-reopen, then the next
    // comparison succeeds.
    let mut sup = Supervisor::new(b"xyz".to_vec(), Curve::Power(2));
    let mut reflashes = 0;

    let action = sup.handle_message(&FirmwareMessage::Version(b"abc".to_vec()));
    if action == SupervisorAction::Reflash {
        reflashes += 1;
    }
    assert_eq!(action, SupervisorAction::Reflash);
    assert_eq!(sup.state, SupervisorState::Verifying);

    // After the reflash the device reports the expected version.
    let action = sup.handle_message(&FirmwareMessage::Version(b"xyz".to_vec()));
    if action == SupervisorAction::Reflash {
        reflashes += 1;
    }
    assert_eq!(action, SupervisorAction::VersionOk);
    assert_eq!(sup.state, SupervisorState::Operational);
    assert_eq!(reflashes, 1);
}

#[test]
fn key_frames_are_ignored_until_the_version_is_confirmed() {
    let mut sup = Supervisor::new(expected_version(), Curve::Power(2));
    assert_eq!(
        sup.handle_message(&FirmwareMessage::KeyDown(10, 12)),
        SupervisorAction::Ignore
    );
    assert_eq!(sup.handle_message(&FirmwareMessage::KeyUp(10)), SupervisorAction::Ignore);
    assert_eq!(sup.state, SupervisorState::Verifying);
}

#[test]
fn key_frames_translate_once_operational() {
    let mut sup = Supervisor::new(expected_version(), Curve::Power(2));
    sup.handle_message(&FirmwareMessage::Version(expected_version()));

    assert_eq!(
        sup.handle_message(&FirmwareMessage::KeyDown(10, 12)),
        SupervisorAction::Emit(MidiEvent::NoteOn { note: 46, velocity: 125 })
    );
    assert_eq!(
        sup.handle_message(&FirmwareMessage::KeyUp(10)),
        SupervisorAction::Emit(MidiEvent::NoteOff { note: 46 })
    );
}

#[test]
fn device_fault_is_fatal_in_any_state() {
    let mut sup = Supervisor::new(expected_version(), Curve::Power(2));
    assert_eq!(sup.handle_message(&FirmwareMessage::Panic), SupervisorAction::Fatal);
    sup.handle_message(&FirmwareMessage::Version(expected_version()));
    assert_eq!(sup.handle_message(&FirmwareMessage::Panic), SupervisorAction::Fatal);
}

#[test]
fn end_to_end_press_becomes_a_note_on() {
    // Key 10 goes Up -> DownPartial(t0=100) -> Down(12) at t=112, the frame
    // crosses the wire, and the translator emits NoteOn(46, 125) with the
    // default quadratic curve: 125 = round(127 - (((12-1)/79)^2) * 126).
    let pos_of_key_10 = ((10 % 8 + 1) % 8) * 7 + 10 / 8;

    let mut kb = Keybed::new();
    let mut readings = vec![(false, false); SCAN_POSITIONS];
    readings[pos_of_key_10] = (false, true);
    assert!(kb.scan(&readings, 100).is_empty());
    readings[pos_of_key_10] = (true, true);
    let events = kb.scan(&readings, 112);
    assert_eq!(events, vec![(10, Key::Down(12))]);

    // Device side: the reportable transition becomes a wire frame.
    let (index, state) = events[0];
    let frame = frame_for_event(index, state).expect("a completed press is always reported");

    // Host side: decode, then translate under an operational supervisor.
    let msg = match decode_next(&frame) {
        DecodeOutcome::Frame { msg, used } => {
            assert_eq!(used, frame.len());
            msg
        }
        other => panic!("expected a frame, got {:?}", other),
    };
    assert_eq!(msg, FirmwareMessage::KeyDown(10, 12));

    let mut sup = Supervisor::new(expected_version(), Curve::Power(2));
    sup.handle_message(&FirmwareMessage::Version(expected_version()));
    let action = sup.handle_message(&msg);
    assert_eq!(action, SupervisorAction::Emit(MidiEvent::NoteOn { note: 46, velocity: 125 }));

    // And the sink would put these three bytes on the MIDI wire.
    if let SupervisorAction::Emit(event) = action {
        assert_eq!(midi_bytes(&event), vec![0x90, 46, 125]);
    }
}
