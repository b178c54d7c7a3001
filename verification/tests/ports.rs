use lv2hm::{create_ports, AddPluginError, Connection, PortFacts, PortType};
use lv2hm::port::{classify_port, connection_plan};

fn facts(name: &str, input: bool, output: bool, optional: bool, control: bool, audio: bool, atom: bool) -> PortFacts {
    PortFacts {
        name: name.to_string(),
        is_input_port: input,
        is_output_port: output,
        connection_optional: optional,
        is_control_port: control,
        is_audio_port: audio,
        is_atom_port: atom,
    }
}

fn audio_in(name: &str) -> PortFacts {
    facts(name, true, false, false, false, true, false)
}

fn audio_out(name: &str) -> PortFacts {
    facts(name, false, true, false, false, true, false)
}

fn control_in(name: &str) -> PortFacts {
    facts(name, true, false, false, true, false, false)
}

#[test]
fn classify_control_input() {
    assert_eq!(classify_port(&control_in("Gain")), Ok((true, PortType::Control)));
}

#[test]
fn classify_audio_output() {
    assert_eq!(classify_port(&audio_out("Out L")), Ok((false, PortType::Audio)));
}

#[test]
fn classify_atom_input() {
    let f = facts("Events", true, false, false, false, false, true);
    assert_eq!(classify_port(&f), Ok((true, PortType::Atom)));
}

#[test]
fn classify_atom_output_required_is_refused() {
    let f = facts("Notify", false, true, false, false, false, true);
    assert_eq!(classify_port(&f), Err(AddPluginError::PortNeitherControlOrAudioOrOptional));
}

#[test]
fn classify_atom_output_optional_is_other() {
    let f = facts("Notify", false, true, true, false, false, true);
    assert_eq!(classify_port(&f), Ok((false, PortType::Other)));
}

#[test]
fn classify_no_direction_required_is_refused() {
    let f = facts("Odd", false, false, false, true, false, false);
    assert_eq!(classify_port(&f), Err(AddPluginError::PortNeitherInputOrOutput));
}

#[test]
fn classify_no_direction_optional_is_output() {
    let f = facts("Odd", false, false, true, true, false, false);
    assert_eq!(classify_port(&f), Ok((false, PortType::Control)));
}

#[test]
fn create_ports_world_null() {
    let v = vec![audio_in("In")];
    assert!(matches!(create_ports(true, true, &v), Err(AddPluginError::WorldIsNull)));
}

#[test]
fn create_ports_plugin_null() {
    let v = vec![audio_in("In")];
    assert!(matches!(create_ports(false, true, &v), Err(AddPluginError::PluginIsNull)));
}

#[test]
fn create_ports_counts_and_names() {
    let v = vec![
        audio_in("In L"),
        audio_in("In R"),
        audio_out("Out L"),
        control_in("Gain"),
        facts("Events", true, false, false, false, false, true),
        facts("Latency", false, true, true, true, false, false),
    ];
    let r = create_ports(false, false, &v).ok().unwrap();
    assert_eq!(r.n_audio_in, 2);
    assert_eq!(r.n_audio_out, 1);
    assert_eq!(r.n_atom_in, 1);
    assert_eq!(r.ports.len(), 6);
    assert_eq!(r.ports[3].index, 3);
    assert_eq!(r.ports[3].ptype, PortType::Control);
    assert!(r.ports[3].is_input);
    assert_eq!(r.ports[5].ptype, PortType::Control);
    assert!(!r.ports[5].is_input);
    assert!(r.ports[5].optional);
    assert_eq!(r.ports[4].name, "Events");
    assert_eq!(r.port_names.get("Gain"), Some(&3));
    assert_eq!(r.port_names.get("Out L"), Some(&2));
    assert_eq!(r.port_names.get("Nope"), None);
}

#[test]
fn create_ports_duplicate_names_last_wins() {
    let v = vec![control_in("Level"), control_in("Level")];
    let r = create_ports(false, false, &v).ok().unwrap();
    assert_eq!(r.port_names.get("Level"), Some(&1));
}

#[test]
fn create_ports_first_refused_port_decides() {
    let v = vec![
        control_in("Gain"),
        facts("Odd", false, false, false, true, false, false),
        facts("Notify", false, true, false, false, false, true),
    ];
    assert!(matches!(create_ports(false, false, &v), Err(AddPluginError::PortNeitherInputOrOutput)));
    let w = vec![
        control_in("Gain"),
        facts("Notify", false, true, false, false, false, true),
        facts("Odd", false, false, false, true, false, false),
    ];
    assert!(matches!(
        create_ports(false, false, &w),
        Err(AddPluginError::PortNeitherControlOrAudioOrOptional)
    ));
}

#[test]
fn create_ports_empty_plugin() {
    let v: Vec<PortFacts> = Vec::new();
    let r = create_ports(false, false, &v).ok().unwrap();
    assert_eq!(r.ports.len(), 0);
    assert_eq!(r.n_audio_in, 0);
}

#[test]
fn connection_plan_offsets() {
    let v = vec![
        control_in("Gain"),
        audio_in("In L"),
        audio_out("Out L"),
        audio_in("In R"),
        audio_out("Out R"),
        facts("Events", true, false, false, false, false, true),
        facts("Notify", false, true, true, false, false, true),
    ];
    let r = create_ports(false, false, &v).ok().unwrap();
    let plan = connection_plan(&r.ports);
    assert_eq!(
        plan,
        vec![
            Connection::ControlValue,
            Connection::AudioInput(0),
            Connection::AudioOutput(0),
            Connection::AudioInput(1),
            Connection::AudioOutput(1),
            Connection::AtomSequence,
            Connection::Unconnected,
        ]
    );
}
