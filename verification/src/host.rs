use vstd::prelude::*;
use vstd::hash_map::StringHashMap;
use crate::error::AddPluginError;
use crate::port::{
    connection_plan, count_ports, create_ports, spec_connection, spec_create_ports, view_ports,
    Connection, Port, PortFacts, PortType, PortView,
};
use crate::atom::{empty_sequence, empty_sequence_atom, midi_event_atom, test_midi_atom};

verus! {

/// The number of bytes in the buffer that atom ports are connected to.
pub const ATOM_BUF_LEN: usize = 1024;

/// A plugin held by the host: its classified ports and the index of each port
/// name.
pub struct Plugin {
    port_names: StringHashMap<usize>,
    ports: Vec<Port>,
}

/// The mathematical value of a [`Plugin`].
pub struct PluginView {
    pub ports: Seq<PortView>,
    pub port_names: Map<Seq<char>, usize>,
}

impl View for Plugin {
    type V = PluginView;

    closed spec fn view(&self) -> PluginView {
        PluginView { ports: view_ports(self.ports@), port_names: self.port_names@ }
    }
}

impl PluginView {
    /// Every port name refers to a port of the plugin, and the plugin has at
    /// most two audio inputs, two audio outputs and one atom input.
    pub open spec fn wf(self) -> bool {
        &&& forall|n: Seq<char>| #[trigger]
            self.port_names.contains_key(n) ==> self.port_names[n] < self.ports.len()
        &&& count_ports(self.ports, PortType::Audio, true) <= 2
        &&& count_ports(self.ports, PortType::Audio, false) <= 2
        &&& count_ports(self.ports, PortType::Atom, true) <= 1
    }
}

impl Plugin {
    /// The index of the port with the given name.
    pub fn port_index(&self, port: &str) -> (r: Option<usize>)
        ensures
            r == (if self@.port_names.contains_key(port@) {
                Some(self@.port_names[port@])
            } else {
                None
            }),
    {
        match self.port_names.get(port) {
            Some(i) => Some(*i),
            None => None,
        }
    }

    /// The classified ports of the plugin, in index order.
    pub fn ports(&self) -> (r: &Vec<Port>)
        ensures
            view_ports(r@) == self@.ports,
    {
        &self.ports
    }
}

/// The mathematical value of an [`Lv2Host`].
pub struct HostView {
    pub plugin_cap: usize,
    pub buffer_len: usize,
    pub sample_rate: usize,
    pub plugins: Seq<PluginView>,
    pub plugin_names: Map<Seq<char>, usize>,
    pub dead_list: Seq<usize>,
    pub atom_buf: Seq<u8>,
    pub atom_seq_urid: Option<[u8; 4]>,
    pub midi_type_urid: Option<[u8; 4]>,
}

impl HostView {
    /// The host's invariant: no more slots than the capacity; every name refers
    /// to its own slot; released slots are distinct, exist, and carry no name;
    /// the atom buffer has its fixed size; every plugin's port names refer to
    /// its ports.
    pub open spec fn wf(self) -> bool {
        &&& self.plugins.len() <= self.plugin_cap
        &&& forall|n: Seq<char>| #[trigger]
            self.plugin_names.contains_key(n) ==> self.plugin_names[n] < self.plugins.len()
        &&& forall|n1: Seq<char>, n2: Seq<char>|
            #![trigger self.plugin_names[n1], self.plugin_names[n2]]
            self.plugin_names.contains_key(n1) && self.plugin_names.contains_key(n2) && n1 != n2
                ==> self.plugin_names[n1] != self.plugin_names[n2]
        &&& forall|i: int| 0 <= i < self.dead_list.len() ==> #[trigger] self.dead_list[i] < self.plugins.len()
        &&& forall|i: int, j: int|
            0 <= i < j < self.dead_list.len() ==> #[trigger] self.dead_list[i] != #[trigger] self.dead_list[j]
        &&& forall|n: Seq<char>, i: int|
            self.plugin_names.contains_key(n) && 0 <= i < self.dead_list.len()
                ==> #[trigger] self.plugin_names[n] != #[trigger] self.dead_list[i]
        &&& self.atom_buf.len() == ATOM_BUF_LEN
        &&& forall|s: int| 0 <= s < self.plugins.len() ==> (#[trigger] self.plugins[s]).wf()
    }
}

/// The host as created: no slot, no name, nothing released, a zeroed atom
/// buffer and no URIDs.
pub open spec fn initial_view(plugin_cap: usize, buffer_len: usize, sample_rate: usize) -> HostView {
    HostView {
        plugin_cap,
        buffer_len,
        sample_rate,
        plugins: Seq::empty(),
        plugin_names: Map::empty(),
        dead_list: Seq::empty(),
        atom_buf: Seq::new(ATOM_BUF_LEN as nat, |i: int| 0u8),
        atom_seq_urid: None,
        midi_type_urid: None,
    }
}

/// The slot that a plugin name refers to.
pub open spec fn spec_get_index(v: HostView, name: Seq<char>) -> Option<usize> {
    if v.plugin_names.contains_key(name) {
        Some(v.plugin_names[name])
    } else {
        None
    }
}

/// Taking a slot for a new plugin: the most recently released slot is popped
/// off the release list; without one, a new slot is available only below the
/// capacity.
pub open spec fn spec_reserve(v: HostView) -> (HostView, Result<Option<usize>, AddPluginError>) {
    if v.dead_list.len() > 0 {
        (HostView { dead_list: v.dead_list.drop_last(), ..v }, Ok(Some(v.dead_list.last())))
    } else if v.plugins.len() == v.plugin_cap {
        (v, Err(AddPluginError::CapacityReached))
    } else {
        (v, Ok(None))
    }
}

/// Adding a plugin under a name: a slot is taken first, then the ports are
/// scanned and the plugin refused if it has more than two audio inputs or
/// outputs or more than one atom input. A slot taken from the release list is
/// not given back when the plugin is refused. An accepted plugin fills the
/// reused slot or a new one at the end, and the name refers to that slot.
pub open spec fn spec_add_plugin(
    v: HostView,
    name: Seq<char>,
    world_is_null: bool,
    plugin_is_null: bool,
    facts: Seq<PortFacts>,
) -> (HostView, Result<usize, AddPluginError>) {
    let (v1, reserved) = spec_reserve(v);
    match reserved {
        Err(e) => (v1, Err(e)),
        Ok(replace_index) => match spec_create_ports(world_is_null, plugin_is_null, facts) {
            Err(e) => (v1, Err(e)),
            Ok(scan) => if scan.n_audio_in > 2 || scan.n_audio_out > 2 {
                (
                    v1,
                    Err(
                        AddPluginError::MoreThanTwoInOrOutAudioPorts(
                            scan.n_audio_in as usize,
                            scan.n_audio_out as usize,
                        ),
                    ),
                )
            } else if scan.n_atom_in > 1 {
                (v1, Err(AddPluginError::MoreThanOneAtomPort(scan.n_atom_in as usize)))
            } else {
                let p = PluginView { ports: scan.ports, port_names: scan.port_names };
                match replace_index {
                    Some(i) => (
                        HostView {
                            plugins: v1.plugins.update(i as int, p),
                            plugin_names: v1.plugin_names.insert(name, i),
                            ..v1
                        },
                        Ok(i),
                    ),
                    None => (
                        HostView {
                            plugins: v1.plugins.push(p),
                            plugin_names: v1.plugin_names.insert(name, v1.plugins.len() as usize),
                            ..v1
                        },
                        Ok(v1.plugins.len() as usize),
                    ),
                }
            },
        },
    }
}

/// Removing a plugin by name: its slot goes onto the release list and the name
/// is forgotten; an unknown name changes nothing.
pub open spec fn spec_remove_plugin(v: HostView, name: Seq<char>) -> (HostView, bool) {
    if v.plugin_names.contains_key(name) {
        (
            HostView {
                dead_list: v.dead_list.push(v.plugin_names[name]),
                plugin_names: v.plugin_names.remove(name),
                ..v
            },
            true,
        )
    } else {
        (v, false)
    }
}

/// The slot and port index that a plugin name and a port name refer to.
pub open spec fn spec_port_location(v: HostView, plugin: Seq<char>, port: Seq<char>) -> Option<
    (usize, usize),
> {
    if v.plugin_names.contains_key(plugin) {
        let i = v.plugin_names[plugin];
        if v.plugins[i as int].port_names.contains_key(port) {
            Some((i, v.plugins[i as int].port_names[port]))
        } else {
            None
        }
    } else {
        None
    }
}

/// The indices of the control input ports, in port order.
pub open spec fn control_inputs(ports: Seq<PortView>) -> Seq<usize>
    decreases ports.len(),
{
    if ports.len() == 0 {
        Seq::empty()
    } else {
        let rest = control_inputs(ports.drop_last());
        if ports.last().ptype == PortType::Control && ports.last().is_input {
            rest.push((ports.len() - 1) as usize)
        } else {
            rest
        }
    }
}

/// What the atom buffer holds after `bytes` were written at its start.
pub open spec fn written_atom(atom_buf: Seq<u8>, bytes: Seq<u8>) -> Seq<u8> {
    bytes + atom_buf.skip(bytes.len() as int)
}

/// A stored URID holds the little-endian bytes of the mapped number.
pub open spec fn stores_urid(stored: Option<[u8; 4]>, urid: Option<u32>) -> bool {
    match urid {
        Some(x) => stored is Some && stored.unwrap()@ == vstd::bytes::spec_u32_to_le_bytes(x),
        None => stored is None,
    }
}

/// The audio port counts of a plugin and the indices of its control inputs.
pub struct SheetLayout {
    pub audio_ins: usize,
    pub audio_outs: usize,
    pub controls: Vec<usize>,
}

/// The bookkeeping of a plugin host: plugin slots, plugin names, released
/// slots, the atom buffer and the URIDs of the atom types it writes.
pub struct Lv2Host {
    plugin_cap: usize,
    plugins: Vec<Plugin>,
    plugin_names: StringHashMap<usize>,
    dead_list: Vec<usize>,
    buffer_len: usize,
    sample_rate: usize,
    atom_buf: Vec<u8>,
    atom_seq_urid: Option<[u8; 4]>,
    midi_type_urid: Option<[u8; 4]>,
}

impl View for Lv2Host {
    type V = HostView;

    closed spec fn view(&self) -> HostView {
        HostView {
            plugin_cap: self.plugin_cap,
            buffer_len: self.buffer_len,
            sample_rate: self.sample_rate,
            plugins: self.plugins@.map_values(|p: Plugin| p@),
            plugin_names: self.plugin_names@,
            dead_list: self.dead_list@,
            atom_buf: self.atom_buf@,
            atom_seq_urid: self.atom_seq_urid,
            midi_type_urid: self.midi_type_urid,
        }
    }
}

impl Lv2Host {
    pub open spec fn wf(&self) -> bool {
        self@.wf()
    }

    /// A host with room for `plugin_cap` plugins, no plugin yet, a zeroed atom
    /// buffer and no URIDs.
    pub fn new(plugin_cap: usize, buffer_len: usize, sample_rate: usize) -> (r: Self)
        ensures
            r.wf(),
            r@ == initial_view(plugin_cap, buffer_len, sample_rate),
    {
        let mut atom_buf: Vec<u8> = Vec::new();
        let mut k: usize = 0;
        while k < ATOM_BUF_LEN
            invariant
                k <= ATOM_BUF_LEN,
                atom_buf@ =~= Seq::new(k as nat, |i: int| 0u8),
            decreases ATOM_BUF_LEN - k,
        {
            atom_buf.push(0);
            k = k + 1;
        }
        let r = Lv2Host {
            plugin_cap,
            plugins: Vec::with_capacity(plugin_cap),
            plugin_names: StringHashMap::new(),
            dead_list: Vec::new(),
            buffer_len,
            sample_rate,
            atom_buf,
            atom_seq_urid: None,
            midi_type_urid: None,
        };
        assert(r@.plugins =~= Seq::<PluginView>::empty());
        r
    }

    /// The slot that the plugin name refers to.
    pub fn get_index(&self, name: &str) -> (r: Option<usize>)
        ensures
            r == spec_get_index(self@, name@),
    {
        match self.plugin_names.get(name) {
            Some(i) => Some(*i),
            None => None,
        }
    }

    /// Adds a plugin under `name`, given what the plugin's description says of
    /// the world, the plugin and each of its ports. Returns the slot it fills
    /// and how each of its ports is to be wired.
    pub fn add_plugin(
        &mut self,
        name: String,
        world_is_null: bool,
        plugin_is_null: bool,
        facts: &Vec<PortFacts>,
    ) -> (r: Result<(usize, Vec<Connection>), AddPluginError>)
        requires
            old(self).wf(),
            facts.len() <= u32::MAX,
        ensures
            final(self).wf(),
            final(self)@ == spec_add_plugin(old(self)@, name@, world_is_null, plugin_is_null, facts@).0,
            match r {
                Ok((i, plan)) => {
                    &&& spec_add_plugin(old(self)@, name@, world_is_null, plugin_is_null, facts@).1
                        == Ok::<usize, AddPluginError>(i)
                    &&& plan.len() == final(self)@.plugins[i as int].ports.len()
                    &&& forall|k: int|
                        0 <= k < plan.len() ==> plan[k] == spec_connection(
                            final(self)@.plugins[i as int].ports,
                            k,
                        )
                },
                Err(e) => spec_add_plugin(old(self)@, name@, world_is_null, plugin_is_null, facts@).1
                    == Err::<usize, AddPluginError>(e),
            },
    {
        proof {
            crate::laws::lemma_add_plugin_keeps_wf(
                self@,
                name@,
                world_is_null,
                plugin_is_null,
                facts@,
            );
        }
        let ghost v0 = self@;
        let replace_index = self.dead_list.pop();
        if self.plugins.len() == self.plugin_cap && replace_index.is_none() {
            return Err(AddPluginError::CapacityReached);
        }
        let scan = match create_ports(world_is_null, plugin_is_null, facts) {
            Ok(s) => s,
            Err(e) => {
                return Err(e);
            },
        };
        if scan.n_audio_in > 2 || scan.n_audio_out > 2 {
            return Err(AddPluginError::MoreThanTwoInOrOutAudioPorts(scan.n_audio_in, scan.n_audio_out));
        }
        if scan.n_atom_in > 1 {
            return Err(AddPluginError::MoreThanOneAtomPort(scan.n_atom_in));
        }
        let plan = connection_plan(&scan.ports);
        let p = Plugin { port_names: scan.port_names, ports: scan.ports };
        match replace_index {
            Some(i) => {
                self.plugins.set(i, p);
                self.plugin_names.insert(name, i);
                assert(self@.plugins =~= spec_add_plugin(
                    v0,
                    name@,
                    world_is_null,
                    plugin_is_null,
                    facts@,
                ).0.plugins);
                Ok((i, plan))
            },
            None => {
                self.plugins.push(p);
                let idx = self.plugins.len() - 1;
                self.plugin_names.insert(name, idx);
                assert(self@.plugins =~= spec_add_plugin(
                    v0,
                    name@,
                    world_is_null,
                    plugin_is_null,
                    facts@,
                ).0.plugins);
                Ok((idx, plan))
            },
        }
    }

    /// Removes the plugin with the given name; its slot may be reused later.
    /// Returns whether the name was known.
    pub fn remove_plugin(&mut self, name: &str) -> (r: bool)
        requires
            old(self).wf(),
        ensures
            final(self).wf(),
            (final(self)@, r) == spec_remove_plugin(old(self)@, name@),
    {
        proof {
            crate::laws::lemma_remove_plugin_keeps_wf(self@, name@);
        }
        match self.plugin_names.get(name) {
            Some(idx) => {
                let index = *idx;
                self.dead_list.push(index);
                self.plugin_names.remove(name);
                true
            },
            None => false,
        }
    }

    /// The slot and port index that the plugin name and the port name refer to.
    pub fn port_location(&self, plugin: &str, port: &str) -> (r: Option<(usize, usize)>)
        requires
            self.wf(),
        ensures
            r == spec_port_location(self@, plugin@, port@),
            r matches Some((i, k)) ==> i < self@.plugins.len() && k < self@.plugins[i as int].ports.len(),
    {
        match self.plugin_names.get(plugin) {
            Some(idx) => {
                let i = *idx;
                assert(self@.plugins[i as int] == self.plugins@[i as int]@);
                let r = self.plugins[i].port_index(port);
                match r {
                    Some(k) => Some((i, k)),
                    None => None,
                }
            },
            None => None,
        }
    }

    /// The number of plugin slots, released ones included.
    pub fn plugin_count(&self) -> (r: usize)
        ensures
            r == self@.plugins.len(),
    {
        self.plugins.len()
    }

    /// The plugin in a slot.
    pub fn plugin(&self, index: usize) -> (r: &Plugin)
        requires
            index < self@.plugins.len(),
        ensures
            r@ == self@.plugins[index as int],
    {
        &self.plugins[index]
    }

    /// The audio port counts and the control inputs of the plugin in a slot.
    pub fn sheet_layout(&self, index: usize) -> (r: SheetLayout)
        requires
            self.wf(),
            index < self@.plugins.len(),
        ensures
            r.audio_ins <= 2,
            r.audio_outs <= 2,
            r.audio_ins == count_ports(self@.plugins[index as int].ports, PortType::Audio, true),
            r.audio_outs == count_ports(self@.plugins[index as int].ports, PortType::Audio, false),
            r.controls@ == control_inputs(self@.plugins[index as int].ports),
    {
        let plug = &self.plugins[index];
        let ghost pv = view_ports(plug.ports@);
        assert(pv == self@.plugins[index as int].ports);
        let mut ains: usize = 0;
        let mut aouts: usize = 0;
        let mut controls: Vec<usize> = Vec::new();
        let n = plug.ports.len();
        let mut k: usize = 0;
        while k < n
            invariant
                n == plug.ports.len(),
                pv == view_ports(plug.ports@),
                k <= n,
                ains == count_ports(pv.take(k as int), PortType::Audio, true),
                aouts == count_ports(pv.take(k as int), PortType::Audio, false),
                controls@ == control_inputs(pv.take(k as int)),
                ains <= k,
                aouts <= k,
            decreases n - k,
        {
            let port = &plug.ports[k];
            proof {
                assert(pv.take(k + 1).drop_last() =~= pv.take(k as int));
                assert(pv.take(k + 1).last() == port@);
            }
            if port.ptype == PortType::Audio {
                if port.is_input {
                    ains = ains + 1;
                } else {
                    aouts = aouts + 1;
                }
            } else if port.ptype == PortType::Control && port.is_input {
                controls.push(k);
            }
            k = k + 1;
        }
        assert(pv.take(n as int) =~= pv);
        assert(self@.plugins[index as int].wf());
        SheetLayout { audio_ins: ains, audio_outs: aouts, controls }
    }

    /// Writes `bytes` at the start of the atom buffer.
    fn write_atom(&mut self, bytes: &[u8])
        requires
            old(self).wf(),
            bytes@.len() <= ATOM_BUF_LEN,
        ensures
            final(self).wf(),
            final(self)@ == (HostView { atom_buf: written_atom(old(self)@.atom_buf, bytes@), ..old(self)@ }),
    {
        let n = bytes.len();
        let mut k: usize = 0;
        while k < n
            invariant
                n == bytes@.len(),
                n <= ATOM_BUF_LEN,
                k <= n,
                self.atom_buf@.len() == ATOM_BUF_LEN,
                forall|i: int| 0 <= i < k ==> self.atom_buf@[i] == bytes@[i],
                forall|i: int| k <= i < ATOM_BUF_LEN ==> self.atom_buf@[i] == old(self).atom_buf@[i],
                self.plugins == old(self).plugins,
                self.plugin_names == old(self).plugin_names,
                self.dead_list == old(self).dead_list,
                self.plugin_cap == old(self).plugin_cap,
                self.buffer_len == old(self).buffer_len,
                self.sample_rate == old(self).sample_rate,
                self.atom_seq_urid == old(self).atom_seq_urid,
                self.midi_type_urid == old(self).midi_type_urid,
            decreases n - k,
        {
            self.atom_buf.set(k, bytes[k]);
            k = k + 1;
        }
        assert(self.atom_buf@ =~= written_atom(old(self)@.atom_buf, bytes@));
    }

    /// Hands raw event input to the plugin in a slot: when the slot exists, the
    /// bytes are written at the start of the atom buffer. Returns whether the
    /// slot exists.
    pub fn apply_instrument(&mut self, index: usize, input: &[u8]) -> (r: bool)
        requires
            old(self).wf(),
            index < old(self)@.plugins.len() ==> input@.len() <= ATOM_BUF_LEN,
        ensures
            final(self).wf(),
            r == (index < old(self)@.plugins.len()),
            final(self)@ == (if r {
                HostView { atom_buf: written_atom(old(self)@.atom_buf, input@), ..old(self)@ }
            } else {
                old(self)@
            }),
    {
        if index >= self.plugins.len() {
            return false;
        }
        self.write_atom(input);
        true
    }

    /// Writes the atom sequence for an optional MIDI message at the start of
    /// the atom buffer and returns the bytes written: one MIDI event when a
    /// message is given, an empty sequence otherwise.
    pub fn write_midi_input(&mut self, input: Option<[u8; 3]>) -> (r: Vec<u8>)
        requires
            old(self).wf(),
            old(self)@.midi_type_urid is Some,
            old(self)@.atom_seq_urid is Some,
        ensures
            final(self).wf(),
            r@ == (match input {
                Some(m) => midi_event_atom(
                    old(self)@.midi_type_urid.unwrap()@,
                    old(self)@.atom_seq_urid.unwrap()@,
                    m@,
                ),
                None => empty_sequence_atom(old(self)@.atom_seq_urid.unwrap()@),
            }),
            final(self)@ == (HostView { atom_buf: written_atom(old(self)@.atom_buf, r@), ..old(self)@ }),
    {
        let midi_urid_bytes = self.midi_type_urid.unwrap();
        let atom_urid_bytes = self.atom_seq_urid.unwrap();
        let mut out: Vec<u8> = Vec::new();
        match input {
            Some(inner) => {
                let buffer = test_midi_atom(midi_urid_bytes, atom_urid_bytes, inner);
                let mut k: usize = 0;
                while k < 38
                    invariant
                        k <= 38,
                        buffer@.len() == 38,
                        out@ =~= buffer@.take(k as int),
                    decreases 38 - k,
                {
                    out.push(buffer[k]);
                    k = k + 1;
                }
                assert(buffer@.take(38) =~= buffer@);
            },
            None => {
                let buffer = empty_sequence(atom_urid_bytes);
                let mut k: usize = 0;
                while k < 16
                    invariant
                        k <= 16,
                        buffer@.len() == 16,
                        out@ =~= buffer@.take(k as int),
                    decreases 16 - k,
                {
                    out.push(buffer[k]);
                    k = k + 1;
                }
                assert(buffer@.take(16) =~= buffer@);
            },
        }
        self.write_atom(out.as_slice());
        out
    }

    /// Whether a slot is on the release list.
    fn is_released(&self, index: usize) -> (r: bool)
        ensures
            r == self@.dead_list.contains(index),
    {
        let n = self.dead_list.len();
        let mut k: usize = 0;
        while k < n
            invariant
                n == self.dead_list@.len(),
                k <= n,
                forall|i: int| 0 <= i < k ==> self.dead_list@[i] != index,
            decreases n - k,
        {
            if self.dead_list[k] == index {
                return true;
            }
            k = k + 1;
        }
        false
    }

    /// The slots whose plugin instances are still to be released when the host
    /// goes away: every slot not on the release list, in increasing order.
    pub fn instances_to_release(&self) -> (r: Vec<usize>)
        ensures
            forall|i: int, j: int| 0 <= i < j < r@.len() ==> r@[i] < r@[j],
            forall|s: usize|
                r@.contains(s) <==> (s < self@.plugins.len() && !self@.dead_list.contains(s)),
    {
        let mut r: Vec<usize> = Vec::new();
        let n = self.plugins.len();
        let mut k: usize = 0;
        while k < n
            invariant
                n == self@.plugins.len(),
                k <= n,
                forall|i: int, j: int| 0 <= i < j < r@.len() ==> r@[i] < r@[j],
                forall|i: int| 0 <= i < r@.len() ==> r@[i] < k,
                forall|s: usize|
                    r@.contains(s) <==> (s < k && !self@.dead_list.contains(s)),
            decreases n - k,
        {
            let ghost r0 = r@;
            let released = self.is_released(k);
            if !released {
                r.push(k);
            }
            proof {
                assert forall|s: usize| r@.contains(s) <==> (s < k + 1 && !self@.dead_list.contains(s)) by {
                    if !released {
                        if s == k {
                            assert(r@[r0.len() as int] == k);
                        }
                        if r@.contains(s) && s != k {
                            let j = choose|j: int| 0 <= j < r@.len() && r@[j] == s;
                            assert(r0[j] == s);
                        }
                        if r0.contains(s) {
                            let j = choose|j: int| 0 <= j < r0.len() && r0[j] == s;
                            assert(r@[j] == s);
                        }
                    }
                }
            }
            k = k + 1;
        }
        r
    }

    /// Stores the URIDs of the MIDI event type and of the atom sequence type as
    /// little-endian bytes.
    pub fn set_urids(&mut self, midi_type: Option<u32>, atom_seq: Option<u32>)
        requires
            old(self).wf(),
        ensures
            final(self).wf(),
            stores_urid(final(self)@.midi_type_urid, midi_type),
            stores_urid(final(self)@.atom_seq_urid, atom_seq),
            final(self)@ == (HostView {
                midi_type_urid: final(self)@.midi_type_urid,
                atom_seq_urid: final(self)@.atom_seq_urid,
                ..old(self)@
            }),
    {
        self.midi_type_urid = match midi_type {
            Some(x) => Some(le_bytes(x)),
            None => None,
        };
        self.atom_seq_urid = match atom_seq {
            Some(x) => Some(le_bytes(x)),
            None => None,
        };
    }

    /// The stored URID of the MIDI event type.
    pub fn midi_type_urid(&self) -> (r: Option<[u8; 4]>)
        ensures
            r == self@.midi_type_urid,
    {
        self.midi_type_urid
    }

    /// The stored URID of the atom sequence type.
    pub fn atom_seq_urid(&self) -> (r: Option<[u8; 4]>)
        ensures
            r == self@.atom_seq_urid,
    {
        self.atom_seq_urid
    }

    /// The atom buffer that atom input ports are connected to.
    pub fn atom_buffer(&self) -> (r: &Vec<u8>)
        ensures
            r@ == self@.atom_buf,
    {
        &self.atom_buf
    }

    /// The sample rate that plugins are instantiated with.
    pub fn sample_rate(&self) -> (r: usize)
        ensures
            r == self@.sample_rate,
    {
        self.sample_rate
    }
}

/// The little-endian bytes of a 32-bit number.
fn le_bytes(x: u32) -> (r: [u8; 4])
    ensures
        r@ == vstd::bytes::spec_u32_to_le_bytes(x),
{
    let v = vstd::bytes::u32_to_le_bytes(x);
    let r: [u8; 4] = [v[0], v[1], v[2], v[3]];
    assert(r@ =~= v@);
    r
}

} // verus!
