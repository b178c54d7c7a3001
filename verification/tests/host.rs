use lv2hm::{AddPluginError, Connection, Lv2Host, PortFacts};

fn facts(name: &str, input: bool, output: bool, optional: bool, control: bool, audio: bool, atom: bool) -> PortFacts {
    PortFacts {
        name: name.to_string(),
        is_input_port: input,
        is_output_port: output,
        connection_optional: optional,
        is_control_port: control,
        is_audio_port: audio,
        is_atom_port: atom,
    }
}

fn add(host: &mut Lv2Host, name: String, world_is_null: bool, plugin_is_null: bool, facts: &Vec<PortFacts>) -> Result<usize, AddPluginError> {
    host.add_plugin(name, world_is_null, plugin_is_null, facts).map(|(slot, _)| slot)
}

fn effect() -> Vec<PortFacts> {
    vec![
        facts("In L", true, false, false, false, true, false),
        facts("In R", true, false, false, false, true, false),
        facts("Out L", false, true, false, false, true, false),
        facts("Out R", false, true, false, false, true, false),
        facts("Ratio", true, false, false, true, false, false),
        facts("Gain", true, false, false, true, false, false),
        facts("Level", false, true, false, true, false, false),
    ]
}

fn synth() -> Vec<PortFacts> {
    vec![
        facts("Events", true, false, false, false, false, true),
        facts("Out L", false, true, false, false, true, false),
        facts("Out R", false, true, false, false, true, false),
        facts("MIDI Channel", true, false, false, true, false, false),
    ]
}

#[test]
fn new_host_is_empty() {
    let host = Lv2Host::new(4, 1, 44100);
    assert_eq!(host.plugin_count(), 0);
    assert_eq!(host.get_index("x"), None);
    assert_eq!(host.atom_buffer().len(), 1024);
    assert!(host.atom_buffer().iter().all(|b| *b == 0));
    assert_eq!(host.sample_rate(), 44100);
    assert_eq!(host.midi_type_urid(), None);
    assert_eq!(host.atom_seq_urid(), None);
}

#[test]
fn add_then_lookup() {
    let mut host = Lv2Host::new(4, 1, 44100);
    assert_eq!(add(&mut host, "reverb".to_string(), false, false, &effect()), Ok(0));
    assert_eq!(add(&mut host, "organ".to_string(), false, false, &synth()), Ok(1));
    assert_eq!(host.get_index("reverb"), Some(0));
    assert_eq!(host.get_index("organ"), Some(1));
    assert_eq!(host.get_index("delay"), None);
    assert_eq!(host.plugin_count(), 2);
}

#[test]
fn capacity_reached() {
    let mut host = Lv2Host::new(1, 1, 44100);
    assert_eq!(add(&mut host, "a".to_string(), false, false, &effect()), Ok(0));
    assert_eq!(
        add(&mut host, "b".to_string(), false, false, &effect()),
        Err(AddPluginError::CapacityReached)
    );
    assert_eq!(host.get_index("b"), None);
    assert_eq!(host.plugin_count(), 1);
}

#[test]
fn zero_capacity_refuses_everything() {
    let mut host = Lv2Host::new(0, 1, 44100);
    assert_eq!(
        add(&mut host, "a".to_string(), false, true, &Vec::new()),
        Err(AddPluginError::CapacityReached)
    );
}

#[test]
fn remove_then_lookup() {
    let mut host = Lv2Host::new(4, 1, 44100);
    add(&mut host, "a".to_string(), false, false, &effect()).unwrap();
    add(&mut host, "b".to_string(), false, false, &effect()).unwrap();
    assert!(host.remove_plugin("a"));
    assert_eq!(host.get_index("a"), None);
    assert_eq!(host.get_index("b"), Some(1));
    assert!(!host.remove_plugin("a"));
    assert!(!host.remove_plugin("never"));
}

#[test]
fn removed_slot_is_reused_last_first() {
    let mut host = Lv2Host::new(3, 1, 44100);
    add(&mut host, "a".to_string(), false, false, &effect()).unwrap();
    add(&mut host, "b".to_string(), false, false, &effect()).unwrap();
    add(&mut host, "c".to_string(), false, false, &effect()).unwrap();
    assert!(host.remove_plugin("a"));
    assert!(host.remove_plugin("c"));
    assert_eq!(add(&mut host, "d".to_string(), false, false, &synth()), Ok(2));
    assert_eq!(add(&mut host, "e".to_string(), false, false, &synth()), Ok(0));
    assert_eq!(
        add(&mut host, "f".to_string(), false, false, &synth()),
        Err(AddPluginError::CapacityReached)
    );
    assert_eq!(host.plugin_count(), 3);
}

#[test]
fn full_host_reuses_released_slot() {
    let mut host = Lv2Host::new(1, 1, 44100);
    add(&mut host, "a".to_string(), false, false, &effect()).unwrap();
    assert!(host.remove_plugin("a"));
    assert_eq!(add(&mut host, "b".to_string(), false, false, &synth()), Ok(0));
    assert_eq!(host.get_index("b"), Some(0));
}

#[test]
fn too_many_audio_ports() {
    let mut host = Lv2Host::new(4, 1, 44100);
    let mut ports = effect();
    ports.push(facts("In C", true, false, false, false, true, false));
    assert_eq!(
        add(&mut host, "surround".to_string(), false, false, &ports),
        Err(AddPluginError::MoreThanTwoInOrOutAudioPorts(3, 2))
    );
    assert_eq!(host.get_index("surround"), None);
}

#[test]
fn too_many_atom_ports() {
    let mut host = Lv2Host::new(4, 1, 44100);
    let mut ports = synth();
    ports.push(facts("Events 2", true, false, false, false, false, true));
    assert_eq!(
        add(&mut host, "synth".to_string(), false, false, &ports),
        Err(AddPluginError::MoreThanOneAtomPort(2))
    );
}

#[test]
fn refused_plugin_loses_released_slot() {
    let mut host = Lv2Host::new(1, 1, 44100);
    add(&mut host, "a".to_string(), false, false, &effect()).unwrap();
    assert!(host.remove_plugin("a"));
    assert_eq!(
        add(&mut host, "b".to_string(), false, true, &Vec::new()),
        Err(AddPluginError::PluginIsNull)
    );
    assert_eq!(
        add(&mut host, "c".to_string(), false, false, &effect()),
        Err(AddPluginError::CapacityReached)
    );
}

#[test]
fn port_errors_reach_the_caller() {
    let mut host = Lv2Host::new(2, 1, 44100);
    assert_eq!(add(&mut host, "w".to_string(), true, false, &effect()), Err(AddPluginError::WorldIsNull));
    let ports = vec![facts("Odd", false, false, false, true, false, false)];
    assert_eq!(
        add(&mut host, "x".to_string(), false, false, &ports),
        Err(AddPluginError::PortNeitherInputOrOutput)
    );
    assert_eq!(host.plugin_count(), 0);
}

#[test]
fn same_name_refers_to_newest() {
    let mut host = Lv2Host::new(4, 1, 44100);
    add(&mut host, "a".to_string(), false, false, &effect()).unwrap();
    assert_eq!(add(&mut host, "a".to_string(), false, false, &synth()), Ok(1));
    assert_eq!(host.get_index("a"), Some(1));
    assert_eq!(host.instances_to_release(), vec![0, 1]);
}

#[test]
fn port_location_lookups() {
    let mut host = Lv2Host::new(4, 1, 44100);
    add(&mut host, "comp".to_string(), false, false, &effect()).unwrap();
    add(&mut host, "organ".to_string(), false, false, &synth()).unwrap();
    assert_eq!(host.port_location("comp", "Ratio"), Some((0, 4)));
    assert_eq!(host.port_location("organ", "MIDI Channel"), Some((1, 3)));
    assert_eq!(host.port_location("organ", "Ratio"), None);
    assert_eq!(host.port_location("nobody", "Ratio"), None);
    assert_eq!(host.plugin(0).port_index("Gain"), Some(5));
    assert_eq!(host.plugin(0).ports().len(), 7);
}

#[test]
fn sheet_layout_counts() {
    let mut host = Lv2Host::new(4, 1, 44100);
    add(&mut host, "comp".to_string(), false, false, &effect()).unwrap();
    add(&mut host, "organ".to_string(), false, false, &synth()).unwrap();
    let s = host.sheet_layout(0);
    assert_eq!(s.audio_ins, 2);
    assert_eq!(s.audio_outs, 2);
    assert_eq!(s.controls, vec![4, 5]);
    let t = host.sheet_layout(1);
    assert_eq!(t.audio_ins, 0);
    assert_eq!(t.audio_outs, 2);
    assert_eq!(t.controls, vec![3]);
}

#[test]
fn apply_instrument_writes_atom_buffer() {
    let mut host = Lv2Host::new(4, 1, 44100);
    assert!(!host.apply_instrument(0, &[1, 2, 3]));
    assert_eq!(host.atom_buffer()[0], 0);
    add(&mut host, "organ".to_string(), false, false, &synth()).unwrap();
    assert!(host.apply_instrument(0, &[1, 2, 3]));
    assert_eq!(&host.atom_buffer()[0..4], &[1, 2, 3, 0]);
    assert_eq!(host.atom_buffer().len(), 1024);
}

#[test]
fn apply_instrument_missing_slot_ignores_long_input() {
    let mut host = Lv2Host::new(4, 1, 44100);
    let long = vec![7u8; 2000];
    assert!(!host.apply_instrument(3, &long));
}

#[test]
fn set_urids_stores_little_endian() {
    let mut host = Lv2Host::new(1, 1, 44100);
    host.set_urids(Some(0x0102_0304), Some(17));
    assert_eq!(host.midi_type_urid(), Some([4, 3, 2, 1]));
    assert_eq!(host.atom_seq_urid(), Some([17, 0, 0, 0]));
    host.set_urids(None, Some(5));
    assert_eq!(host.midi_type_urid(), None);
}

#[test]
fn midi_input_note_on() {
    let mut host = Lv2Host::new(1, 1, 44100);
    host.set_urids(Some(0x22), Some(0x11));
    let bytes = host.write_midi_input(Some([0x90, 72, 96]));
    assert_eq!(bytes.len(), 38);
    assert_eq!(&bytes[0..8], &[32, 0, 0, 0, 0x11, 0, 0, 0]);
    assert_eq!(&bytes[24..38], &[3, 0, 0, 0, 0x22, 0, 0, 0, 0x90, 72, 96, 0, 0, 0]);
    assert_eq!(&host.atom_buffer()[0..38], &bytes[..]);
}

#[test]
fn midi_input_none_writes_empty_sequence() {
    let mut host = Lv2Host::new(1, 1, 44100);
    host.set_urids(Some(0x22), Some(0x11));
    host.write_midi_input(Some([0x90, 72, 96]));
    let bytes = host.write_midi_input(None);
    assert_eq!(bytes, vec![8, 0, 0, 0, 0x11, 0, 0, 0, 0, 0, 0, 0, 0, 0, 0, 0]);
    assert_eq!(host.atom_buffer()[16], 0);
    assert_eq!(host.atom_buffer()[24], 3);
    assert_eq!(host.atom_buffer()[32], 0x90);
}

#[test]
fn release_skips_removed_slots() {
    let mut host = Lv2Host::new(4, 1, 44100);
    add(&mut host, "a".to_string(), false, false, &effect()).unwrap();
    add(&mut host, "b".to_string(), false, false, &effect()).unwrap();
    add(&mut host, "c".to_string(), false, false, &effect()).unwrap();
    assert!(host.remove_plugin("b"));
    assert_eq!(host.instances_to_release(), vec![0, 2]);
}

#[test]
fn add_plugin_returns_wiring() {
    let mut host = Lv2Host::new(4, 1, 44100);
    let (slot, plan) = host.add_plugin("comp".to_string(), false, false, &effect()).unwrap();
    assert_eq!(slot, 0);
    assert_eq!(
        plan,
        vec![
            Connection::AudioInput(0),
            Connection::AudioInput(1),
            Connection::AudioOutput(0),
            Connection::AudioOutput(1),
            Connection::ControlValue,
            Connection::ControlValue,
            Connection::ControlValue,
        ]
    );
    let (slot2, plan2) = host.add_plugin("organ".to_string(), false, false, &synth()).unwrap();
    assert_eq!(slot2, 1);
    assert_eq!(
        plan2,
        vec![
            Connection::AtomSequence,
            Connection::AudioOutput(0),
            Connection::AudioOutput(1),
            Connection::ControlValue,
        ]
    );
}

#[test]
fn removed_then_refused_add_loses_slot_for_release() {
    let mut host = Lv2Host::new(1, 1, 44100);
    add(&mut host, "a".to_string(), false, false, &effect()).unwrap();
    assert!(host.remove_plugin("a"));
    assert_eq!(host.instances_to_release(), Vec::<usize>::new());
    assert_eq!(add(&mut host, "b".to_string(), false, true, &Vec::new()), Err(AddPluginError::PluginIsNull));
    assert_eq!(host.instances_to_release(), vec![0]);
}
