use keystation::midi::{
    midi_bytes, note, sustain_event, velocity, Curve, MidiEvent, MIDDLE_C_KEY_INDEX,
    MIDDLE_C_NOTE,
};

#[test]
fn middle_c_alignment() {
    // The documented alignment: key 24 plays MIDI middle C, note 60.
    assert_eq!(note(MIDDLE_C_KEY_INDEX), MIDDLE_C_NOTE);
    assert_eq!(note(24), 60);
    assert_eq!(note(0), 36);
    assert_eq!(note(10), 46);
    assert_eq!(note(48), 84);
}

#[test]
fn velocity_exact_values_quadratic() {
    let curve = Curve::Power(2);
    assert_eq!(velocity(1, &curve), 127);
    assert_eq!(velocity(2, &curve), 127);
    assert_eq!(velocity(12, &curve), 125);
    assert_eq!(velocity(40, &curve), 96);
    assert_eq!(velocity(80, &curve), 1);
}

#[test]
fn velocity_exact_values_linear() {
    let curve = Curve::Linear;
    assert_eq!(velocity(1, &curve), 127);
    assert_eq!(velocity(12, &curve), 109);
    assert_eq!(velocity(40, &curve), 65);
    assert_eq!(velocity(80, &curve), 1);
}

#[test]
fn velocity_clamps_travel_time() {
    for curve in [Curve::Linear, Curve::Power(2)] {
        assert_eq!(velocity(0, &curve), velocity(1, &curve));
        assert_eq!(velocity(81, &curve), velocity(80, &curve));
        assert_eq!(velocity(255, &curve), velocity(80, &curve));
    }
}

#[test]
fn velocity_stays_in_range_and_monotone() {
    for curve in [Curve::Linear, Curve::Power(1), Curve::Power(2), Curve::Power(10)] {
        let mut previous = velocity(0, &curve);
        for travel in 0..=255u8 {
            let v = velocity(travel, &curve);
            assert!(1 <= v && v <= 127, "velocity {} out of range at {}", v, travel);
            assert!(v <= previous, "velocity grew from {} to {} at {}", previous, v, travel);
            previous = v;
        }
    }
}

#[test]
fn sustain_events_follow_the_pedal_edge() {
    assert_eq!(sustain_event(true), MidiEvent::SustainOn);
    assert_eq!(sustain_event(false), MidiEvent::SustainOff);
}

#[test]
fn midi_wire_bytes() {
    assert_eq!(midi_bytes(&MidiEvent::NoteOn { note: 60, velocity: 125 }), vec![0x90, 60, 125]);
    assert_eq!(midi_bytes(&MidiEvent::NoteOff { note: 60 }), vec![0x80, 60, 0]);
    assert_eq!(midi_bytes(&MidiEvent::SustainOn), vec![0xB0, 0x40, 0x7F]);
    assert_eq!(midi_bytes(&MidiEvent::SustainOff), vec![0xB0, 0x40, 0x00]);
}

#[test]
fn midi_wire_bytes_clamp_to_seven_bits() {
    assert_eq!(
        midi_bytes(&MidiEvent::NoteOn { note: 200, velocity: 255 }),
        vec![0x90, 127, 127]
    );
    assert_eq!(midi_bytes(&MidiEvent::NoteOff { note: 128 }), vec![0x80, 127, 0]);
}
