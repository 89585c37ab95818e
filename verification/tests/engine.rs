use midi_mixer::component::{ActionSink, Invocation};
use midi_mixer::controller::{bank_select_byte, BankOutOfRange, Controller, MidiEvent, BANK_COUNT};
use midi_mixer::preset::{ParseError, Preset, PresetComponents};

fn small_preset() -> Preset {
    Preset {
        components: PresetComponents {
            sliders: String::from("3-5"),
            buttons: String::from("1"),
            dials: String::from("12"),
        },
    }
}

#[test]
fn builds_one_component_per_named_id() {
    let c = Controller::from_preset(small_preset()).unwrap();
    assert_eq!(c.bank, 0);
    assert_eq!(c.sliders.len(), BANK_COUNT);
    assert_eq!(c.buttons.len(), BANK_COUNT);
    assert_eq!(c.dials.len(), BANK_COUNT);
    for b in 0..BANK_COUNT {
        assert_eq!(c.sliders[b].len(), 3);
        assert_eq!(c.buttons[b].len(), 1);
        assert_eq!(c.dials[b].len(), 1);
    }
    assert_eq!(c.sliders[0][0].controller, 3);
    assert_eq!(c.sliders[0][2].controller, 5);
    assert_eq!(c.buttons[0][0].controller, 1);
    assert_eq!(c.dials[0][0].controller, 12);
}

#[test]
fn counts_duplicates_in_expansion() {
    let preset = Preset {
        components: PresetComponents {
            sliders: String::from("3,3-4"),
            buttons: String::from("1,1"),
            dials: String::from("12"),
        },
    };
    let c = Controller::from_preset(preset).unwrap();
    for b in 0..BANK_COUNT {
        assert_eq!(c.sliders[b].len(), 3);
        assert_eq!(c.buttons[b].len(), 2);
        assert_eq!(c.dials[b].len(), 1);
    }
}

#[test]
fn rejects_malformed_preset() {
    for field in 0..3 {
        let texts = |i: usize| {
            if i == field {
                String::from("abc")
            } else {
                String::from("1")
            }
        };
        let preset = Preset {
            components: PresetComponents {
                sliders: texts(0),
                buttons: texts(1),
                dials: texts(2),
            },
        };
        assert_eq!(Controller::from_preset(preset).err(), Some(ParseError));
    }
}

#[test]
fn dispatch_ignores_unknown_controller() {
    let c = Controller::from_preset(small_preset()).unwrap();
    assert_eq!(c.set_component(99, 10), None);
    assert_eq!(c.set_component(0, 10), None);
}

#[test]
fn dispatch_of_unbound_component_is_noop() {
    let c = Controller::from_preset(small_preset()).unwrap();
    assert_eq!(c.set_component(3, 10), None);
    assert_eq!(c.set_component(1, 10), None);
    assert_eq!(c.set_component(12, 10), None);
}

#[test]
fn binding_routes_dispatch_to_sink() {
    let mut c = Controller::from_preset(small_preset()).unwrap();
    c.set_bank(2).unwrap();
    c.bind_component(3, ActionSink::Callback(0));
    assert_eq!(
        c.set_component(3, 100),
        Some(Invocation {
            sink: ActionSink::Callback(0),
            value: 100,
        })
    );
    c.set_bank(0).unwrap();
    // The binding was made in bank 2; bank 0's copy is still unbound.
    assert_eq!(c.set_component(3, 50), None);
}

#[test]
fn binding_is_bank_local_in_both_directions() {
    let mut c = Controller::from_preset(small_preset()).unwrap();
    c.bind_component(12, ActionSink::Session(7));
    c.set_bank(5).unwrap();
    assert_eq!(c.set_component(12, 64), None);
    c.set_bank(0).unwrap();
    assert_eq!(
        c.set_component(12, 64),
        Some(Invocation {
            sink: ActionSink::Session(7),
            value: 64,
        })
    );
}

#[test]
fn rebinding_replaces_previous_action() {
    let mut c = Controller::from_preset(small_preset()).unwrap();
    c.bind_component(1, ActionSink::Callback(0));
    c.bind_component(1, ActionSink::Callback(1));
    assert_eq!(
        c.set_component(1, 127),
        Some(Invocation {
            sink: ActionSink::Callback(1),
            value: 127,
        })
    );
}

#[test]
fn binding_unknown_controller_is_ignored() {
    let mut c = Controller::from_preset(small_preset()).unwrap();
    c.bind_component(42, ActionSink::Callback(0));
    assert_eq!(c.set_component(42, 1), None);
}

#[test]
fn bank_out_of_range_is_rejected() {
    let mut c = Controller::from_preset(small_preset()).unwrap();
    c.set_bank(2).unwrap();
    assert_eq!(c.set_bank(9), Err(BankOutOfRange));
    assert_eq!(c.bank, 2);
    assert_eq!(c.set_bank(200), Err(BankOutOfRange));
    assert_eq!(c.bank, 2);
    assert!(c.set_bank(8).is_ok());
    assert_eq!(c.bank, 8);
}

#[test]
fn duplicate_id_across_kinds_routes_to_last_kind() {
    // Controller 5 is listed both as a slider and as a dial; dials are
    // indexed last, so the dial copy receives the binding.
    let preset = Preset {
        components: PresetComponents {
            sliders: String::from("5"),
            buttons: String::from("1"),
            dials: String::from("5"),
        },
    };
    let mut c = Controller::from_preset(preset).unwrap();
    c.bind_component(5, ActionSink::Callback(3));
    assert_eq!(c.dials[0][0].action, Some(ActionSink::Callback(3)));
    assert_eq!(c.sliders[0][0].action, None);
}

#[test]
fn handle_event_routes_both_event_kinds() {
    let mut c = Controller::from_preset(small_preset()).unwrap();
    assert_eq!(c.handle_event(MidiEvent::BankSelect(2)), Ok(None));
    assert_eq!(c.bank, 2);
    c.bind_component(4, ActionSink::Callback(9));
    assert_eq!(
        c.handle_event(MidiEvent::ControlChange {
            controller: 4,
            value: 33,
        }),
        Ok(Some(Invocation {
            sink: ActionSink::Callback(9),
            value: 33,
        }))
    );
    assert_eq!(
        c.handle_event(MidiEvent::BankSelect(9)),
        Err(BankOutOfRange)
    );
    assert_eq!(c.bank, 2);
}

#[test]
fn full_layout_routes_across_kinds() {
    let preset = Preset {
        components: PresetComponents {
            sliders: String::from("3-11"),
            buttons: String::from("1,2,23-31,44-49,64,67"),
            dials: String::from("12-22"),
        },
    };
    let mut c = Controller::from_preset(preset).unwrap();
    c.bind_component(5, ActionSink::Callback(0));
    c.bind_component(64, ActionSink::Callback(1));
    c.bind_component(22, ActionSink::Session(2));
    assert_eq!(
        c.set_component(5, 90),
        Some(Invocation {
            sink: ActionSink::Callback(0),
            value: 90,
        })
    );
    assert_eq!(
        c.set_component(64, 0),
        Some(Invocation {
            sink: ActionSink::Callback(1),
            value: 0,
        })
    );
    assert_eq!(
        c.set_component(22, 127),
        Some(Invocation {
            sink: ActionSink::Session(2),
            value: 127,
        })
    );
    // A slider in the same bank that was never bound stays a no-op.
    assert_eq!(c.set_component(11, 64), None);
}

#[test]
fn binding_leaves_other_components_of_the_bank_alone() {
    let mut c = Controller::from_preset(small_preset()).unwrap();
    c.bind_component(4, ActionSink::Callback(1));
    assert_eq!(c.set_component(3, 10), None);
    assert_eq!(c.set_component(5, 10), None);
    assert_eq!(
        c.set_component(4, 10),
        Some(Invocation {
            sink: ActionSink::Callback(1),
            value: 10,
        })
    );
}

#[test]
fn bank_select_byte_is_last_payload_byte() {
    assert_eq!(bank_select_byte(&vec![]), None);
    assert_eq!(bank_select_byte(&vec![4]), Some(4));
    assert_eq!(bank_select_byte(&vec![0x7D, 0x01, 0x06]), Some(6));
}
