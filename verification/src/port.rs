use vstd::prelude::*;
use vstd::hash_map::StringHashMap;
use crate::error::AddPluginError;

verus! {

/// The role a port plays once the host has classified it.
#[derive(Debug, Clone, Copy, PartialEq, Eq, Structural)]
pub enum PortType {
    Control,
    Audio,
    Atom,
    Other,
}

/// What the plugin's description says of one port.
///
/// Each flag is the answer to one class or property query on the port: is it an
/// input port, an output port, is its connection optional, is it a control,
/// audio or atom port.
pub struct PortFacts {
    pub name: String,
    pub is_input_port: bool,
    pub is_output_port: bool,
    pub connection_optional: bool,
    pub is_control_port: bool,
    pub is_audio_port: bool,
    pub is_atom_port: bool,
}

/// A classified port of a plugin.
pub struct Port {
    pub index: u32,
    pub optional: bool,
    pub is_input: bool,
    pub ptype: PortType,
    pub name: String,
}

/// The mathematical value of a [`Port`].
pub struct PortView {
    pub index: u32,
    pub optional: bool,
    pub is_input: bool,
    pub ptype: PortType,
    pub name: Seq<char>,
}

impl View for Port {
    type V = PortView;

    open spec fn view(&self) -> PortView {
        PortView {
            index: self.index,
            optional: self.optional,
            is_input: self.is_input,
            ptype: self.ptype,
            name: self.name@,
        }
    }
}

pub open spec fn view_ports(ports: Seq<Port>) -> Seq<PortView> {
    ports.map_values(|p: Port| p@)
}

/// How one port is classified: its direction and its type, or why the plugin
/// is refused. A port that is neither an input nor an output is refused unless
/// its connection is optional; a port that is not a control port, an audio
/// port or an atom input is refused unless its connection is optional.
pub open spec fn spec_classify(f: PortFacts) -> Result<(bool, PortType), AddPluginError> {
    if !f.is_input_port && !f.is_output_port && !f.connection_optional {
        Err(AddPluginError::PortNeitherInputOrOutput)
    } else if f.is_control_port {
        Ok((f.is_input_port, PortType::Control))
    } else if f.is_audio_port {
        Ok((f.is_input_port, PortType::Audio))
    } else if f.is_atom_port && f.is_input_port {
        Ok((f.is_input_port, PortType::Atom))
    } else if !f.connection_optional {
        Err(AddPluginError::PortNeitherControlOrAudioOrOptional)
    } else {
        Ok((f.is_input_port, PortType::Other))
    }
}

/// The error of the first of the first `k` ports that is refused, if any.
pub open spec fn first_port_error(facts: Seq<PortFacts>, k: int) -> Option<AddPluginError>
    decreases k,
{
    if k <= 0 {
        None
    } else {
        match first_port_error(facts, k - 1) {
            Some(e) => Some(e),
            None => match spec_classify(facts[k - 1]) {
                Err(e) => Some(e),
                Ok(_) => None,
            },
        }
    }
}

/// The port built from the facts at position `i`.
pub open spec fn port_at(facts: Seq<PortFacts>, i: int) -> PortView {
    let (is_input, ptype) = match spec_classify(facts[i]) {
        Ok(c) => c,
        Err(_) => (false, PortType::Other),
    };
    PortView {
        index: i as u32,
        optional: facts[i].connection_optional,
        is_input,
        ptype,
        name: facts[i].name@,
    }
}

pub open spec fn scanned_ports(facts: Seq<PortFacts>) -> Seq<PortView> {
    Seq::new(facts.len(), |i: int| port_at(facts, i))
}

/// Each port name of the first `k` ports mapped to its index; where two ports
/// share a name, the later one wins.
pub open spec fn port_name_map(facts: Seq<PortFacts>, k: int) -> Map<Seq<char>, usize>
    decreases k,
{
    if k <= 0 {
        Map::empty()
    } else {
        port_name_map(facts, k - 1).insert(facts[k - 1].name@, (k - 1) as usize)
    }
}

/// The number of ports of the given type and direction.
pub open spec fn count_ports(ports: Seq<PortView>, ty: PortType, input: bool) -> nat
    decreases ports.len(),
{
    if ports.len() == 0 {
        0
    } else {
        count_ports(ports.drop_last(), ty, input) + if ports.last().ptype == ty
            && ports.last().is_input == input {
            1nat
        } else {
            0nat
        }
    }
}

/// The ports of a plugin, the index of each port name, and the number of audio
/// inputs, audio outputs and atom inputs.
pub struct ScanView {
    pub ports: Seq<PortView>,
    pub port_names: Map<Seq<char>, usize>,
    pub n_audio_in: nat,
    pub n_audio_out: nat,
    pub n_atom_in: nat,
}

/// What scanning a plugin's ports gives: the world and the plugin must exist,
/// then the ports are classified in index order and the first refused port
/// decides the error.
pub open spec fn spec_create_ports(
    world_is_null: bool,
    plugin_is_null: bool,
    facts: Seq<PortFacts>,
) -> Result<ScanView, AddPluginError> {
    if world_is_null {
        Err(AddPluginError::WorldIsNull)
    } else if plugin_is_null {
        Err(AddPluginError::PluginIsNull)
    } else {
        match first_port_error(facts, facts.len() as int) {
            Some(e) => Err(e),
            None => {
                let ports = scanned_ports(facts);
                Ok(
                    ScanView {
                        ports,
                        port_names: port_name_map(facts, facts.len() as int),
                        n_audio_in: count_ports(ports, PortType::Audio, true),
                        n_audio_out: count_ports(ports, PortType::Audio, false),
                        n_atom_in: count_ports(ports, PortType::Atom, true),
                    },
                )
            },
        }
    }
}

/// The classified ports of a plugin with their name index and counts.
pub struct CreatePortsRes {
    pub ports: Vec<Port>,
    pub port_names: StringHashMap<usize>,
    pub n_audio_in: usize,
    pub n_audio_out: usize,
    pub n_atom_in: usize,
}

impl View for CreatePortsRes {
    type V = ScanView;

    open spec fn view(&self) -> ScanView {
        ScanView {
            ports: view_ports(self.ports@),
            port_names: self.port_names@,
            n_audio_in: self.n_audio_in as nat,
            n_audio_out: self.n_audio_out as nat,
            n_atom_in: self.n_atom_in as nat,
        }
    }
}

/// Classifies one port from what its description says.
pub fn classify_port(f: &PortFacts) -> (r: Result<(bool, PortType), AddPluginError>)
    ensures
        r == spec_classify(*f),
{
    let is_input = if f.is_input_port {
        true
    } else if !f.is_output_port && !f.connection_optional {
        return Err(AddPluginError::PortNeitherInputOrOutput);
    } else {
        false
    };
    let ptype = if f.is_control_port {
        PortType::Control
    } else if f.is_audio_port {
        PortType::Audio
    } else if f.is_atom_port && is_input {
        PortType::Atom
    } else if !f.connection_optional {
        return Err(AddPluginError::PortNeitherControlOrAudioOrOptional);
    } else {
        PortType::Other
    };
    Ok((is_input, ptype))
}

/// Once one of the first `k` ports is refused, the first error stays the same
/// whatever ports follow.
proof fn lemma_first_error_stable(facts: Seq<PortFacts>, k: int, j: int)
    requires
        0 <= k <= j,
        first_port_error(facts, k) is Some,
    ensures
        first_port_error(facts, j) == first_port_error(facts, k),
    decreases j - k,
{
    if j > k {
        lemma_first_error_stable(facts, k, j - 1);
    }
}

proof fn lemma_count_push(ports: Seq<PortView>, p: PortView, ty: PortType, input: bool)
    ensures
        count_ports(ports.push(p), ty, input) == count_ports(ports, ty, input) + if p.ptype == ty
            && p.is_input == input {
            1nat
        } else {
            0nat
        },
{
    assert(ports.push(p).drop_last() =~= ports);
}

pub proof fn lemma_count_le_len(ports: Seq<PortView>, ty: PortType, input: bool)
    ensures
        count_ports(ports, ty, input) <= ports.len(),
    decreases ports.len(),
{
    if ports.len() > 0 {
        lemma_count_le_len(ports.drop_last(), ty, input);
    }
}

/// Scans the ports of a plugin: checks that the world and the plugin exist,
/// classifies every port in index order, and counts audio and atom ports.
pub fn create_ports(
    world_is_null: bool,
    plugin_is_null: bool,
    facts: &Vec<PortFacts>,
) -> (r: Result<CreatePortsRes, AddPluginError>)
    requires
        facts.len() <= u32::MAX,
    ensures
        match r {
            Ok(s) => spec_create_ports(world_is_null, plugin_is_null, facts@) == Ok::<
                ScanView,
                AddPluginError,
            >(s@),
            Err(e) => spec_create_ports(world_is_null, plugin_is_null, facts@) == Err::<
                ScanView,
                AddPluginError,
            >(e),
        },
{
    if world_is_null {
        return Err(AddPluginError::WorldIsNull);
    }
    if plugin_is_null {
        return Err(AddPluginError::PluginIsNull);
    }
    let mut ports: Vec<Port> = Vec::new();
    let mut names: StringHashMap<usize> = StringHashMap::new();
    let mut n_audio_in: usize = 0;
    let mut n_audio_out: usize = 0;
    let mut n_atom_in: usize = 0;
    let n = facts.len();
    let mut i: usize = 0;
    while i < n
        invariant
            !world_is_null,
            !plugin_is_null,
            n == facts.len(),
            n <= u32::MAX,
            i <= n,
            first_port_error(facts@, i as int) is None,
            view_ports(ports@) =~= scanned_ports(facts@).take(i as int),
            names@ == port_name_map(facts@, i as int),
            n_audio_in == count_ports(view_ports(ports@), PortType::Audio, true),
            n_audio_out == count_ports(view_ports(ports@), PortType::Audio, false),
            n_atom_in == count_ports(view_ports(ports@), PortType::Atom, true),
            n_audio_in <= i,
            n_audio_out <= i,
            n_atom_in <= i,
        decreases n - i,
    {
        let f = &facts[i];
        match classify_port(f) {
            Err(e) => {
                proof {
                    assert(first_port_error(facts@, i + 1) == Some(e));
                    lemma_first_error_stable(facts@, i + 1, n as int);
                }
                return Err(e);
            },
            Ok((is_input, ptype)) => {
                let ghost old_ports = view_ports(ports@);
                names.insert(f.name.clone(), i);
                if ptype == PortType::Audio {
                    if is_input {
                        n_audio_in = n_audio_in + 1;
                    } else {
                        n_audio_out = n_audio_out + 1;
                    }
                } else if ptype == PortType::Atom {
                    n_atom_in = n_atom_in + 1;
                }
                let port = Port {
                    index: i as u32,
                    optional: f.connection_optional,
                    is_input,
                    ptype,
                    name: f.name.clone(),
                };
                ports.push(port);
                proof {
                    assert(view_ports(ports@) =~= old_ports.push(port@));
                    assert(port@ == port_at(facts@, i as int));
                    assert(scanned_ports(facts@).take(i + 1) =~= scanned_ports(facts@).take(
                        i as int,
                    ).push(port_at(facts@, i as int)));
                    lemma_count_push(old_ports, port@, PortType::Audio, true);
                    lemma_count_push(old_ports, port@, PortType::Audio, false);
                    lemma_count_push(old_ports, port@, PortType::Atom, true);
                }
            },
        }
        i = i + 1;
    }
    proof {
        assert(scanned_ports(facts@).take(n as int) =~= scanned_ports(facts@));
    }
    Ok(CreatePortsRes { ports, port_names: names, n_audio_in, n_audio_out, n_atom_in })
}

/// How a port is wired when the plugin is instantiated.
#[derive(Debug, Clone, Copy, PartialEq, Eq, Structural)]
pub enum Connection {
    /// Connected to the port's own control value.
    ControlValue,
    /// Connected to the input audio buffer at this offset.
    AudioInput(usize),
    /// Connected to the output audio buffer at this offset.
    AudioOutput(usize),
    /// Connected to the shared atom buffer.
    AtomSequence,
    /// Left unconnected.
    Unconnected,
}

/// The wiring of port `i`: audio inputs take consecutive offsets of the input
/// buffer in port order, audio outputs consecutive offsets of the output buffer.
pub open spec fn spec_connection(ports: Seq<PortView>, i: int) -> Connection {
    let p = ports[i];
    match p.ptype {
        PortType::Control => Connection::ControlValue,
        PortType::Audio => if p.is_input {
            Connection::AudioInput(count_ports(ports.take(i), PortType::Audio, true) as usize)
        } else {
            Connection::AudioOutput(count_ports(ports.take(i), PortType::Audio, false) as usize)
        },
        PortType::Atom => Connection::AtomSequence,
        PortType::Other => Connection::Unconnected,
    }
}

/// Decides how each port of a plugin is wired.
pub fn connection_plan(ports: &Vec<Port>) -> (plan: Vec<Connection>)
    ensures
        plan.len() == ports.len(),
        forall|i: int| 0 <= i < ports.len() ==> plan[i] == spec_connection(view_ports(ports@), i),
{
    let ghost pv = view_ports(ports@);
    let mut plan: Vec<Connection> = Vec::new();
    let mut ins: usize = 0;
    let mut outs: usize = 0;
    let n = ports.len();
    let mut k: usize = 0;
    while k < n
        invariant
            n == ports.len(),
            pv == view_ports(ports@),
            k <= n,
            plan.len() == k,
            ins == count_ports(pv.take(k as int), PortType::Audio, true),
            outs == count_ports(pv.take(k as int), PortType::Audio, false),
            ins <= k,
            outs <= k,
            forall|i: int| 0 <= i < k ==> plan[i] == spec_connection(pv, i),
        decreases n - k,
    {
        let p = &ports[k];
        let c = match p.ptype {
            PortType::Control => Connection::ControlValue,
            PortType::Audio => if p.is_input {
                Connection::AudioInput(ins)
            } else {
                Connection::AudioOutput(outs)
            },
            PortType::Atom => Connection::AtomSequence,
            PortType::Other => Connection::Unconnected,
        };
        proof {
            assert(pv.take(k + 1) =~= pv.take(k as int).push(pv[k as int]));
            lemma_count_push(pv.take(k as int), pv[k as int], PortType::Audio, true);
            lemma_count_push(pv.take(k as int), pv[k as int], PortType::Audio, false);
        }
        if p.ptype == PortType::Audio {
            if p.is_input {
                ins = ins + 1;
            } else {
                outs = outs + 1;
            }
        }
        plan.push(c);
        k = k + 1;
    }
    plan
}

} // verus!
