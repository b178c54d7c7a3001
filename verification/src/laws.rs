use vstd::prelude::*;
use crate::error::AddPluginError;
use crate::atom::{empty_sequence_atom, midi_event_atom};
use crate::host::{
    control_inputs, initial_view, spec_add_plugin, spec_get_index, spec_port_location,
    spec_remove_plugin, spec_reserve, stores_urid, written_atom, HostView, PluginView,
};
use crate::port::{
    count_ports, first_port_error, port_name_map, spec_classify, spec_connection,
    spec_create_ports, Connection, PortFacts, PortType, PortView,
};

verus! {

/// Every port name of a scan refers to one of the scanned ports.
pub proof fn lemma_port_names_in_range(facts: Seq<PortFacts>, k: int)
    requires
        0 <= k <= facts.len(),
        facts.len() <= usize::MAX,
    ensures
        forall|n: Seq<char>| #[trigger]
            port_name_map(facts, k).contains_key(n) ==> port_name_map(facts, k)[n] < k,
    decreases k,
{
    if k > 0 {
        lemma_port_names_in_range(facts, k - 1);
        let m = port_name_map(facts, k - 1);
        let key = facts[k - 1].name@;
        assert(port_name_map(facts, k) == m.insert(key, (k - 1) as usize));
        assert forall|n: Seq<char>| #[trigger]
            port_name_map(facts, k).contains_key(n) implies port_name_map(facts, k)[n] < k by {
            if n != key {
                assert(m.contains_key(n));
            }
        }
    }
}

/// Taking a slot keeps the host's invariant, and a slot taken from the release
/// list carries no name and is no longer on the list.
pub proof fn lemma_reserve_keeps_wf(v: HostView)
    requires
        v.wf(),
    ensures
        spec_reserve(v).0.wf(),
        spec_reserve(v).1 matches Ok(Some(i)) ==> {
            &&& i < v.plugins.len()
            &&& !spec_reserve(v).0.dead_list.contains(i)
            &&& forall|n: Seq<char>| #[trigger]
                v.plugin_names.contains_key(n) ==> v.plugin_names[n] != i
        },
        spec_reserve(v).1 matches Ok(None) ==> v.plugins.len() < v.plugin_cap,
{
    let (v1, r) = spec_reserve(v);
    if v.dead_list.len() > 0 {
        let i = v.dead_list.last();
        assert(v.dead_list[v.dead_list.len() - 1] == i);
        assert forall|j: int| 0 <= j < v1.dead_list.len() implies v1.dead_list[j] != i by {
            assert(v1.dead_list[j] == v.dead_list[j]);
        }
        assert forall|n: Seq<char>| #[trigger] v.plugin_names.contains_key(n) implies v.plugin_names[n] != i by {
            assert(v.plugin_names[n] != v.dead_list[v.dead_list.len() - 1]);
        }
        assert forall|j: int| 0 <= j < v1.dead_list.len() implies #[trigger] v1.dead_list[j] < v1.plugins.len() by {
            assert(v1.dead_list[j] == v.dead_list[j]);
        }
        assert forall|a: int, b: int| 0 <= a < b < v1.dead_list.len() implies #[trigger] v1.dead_list[a] != #[trigger] v1.dead_list[b] by {
            assert(v1.dead_list[a] == v.dead_list[a]);
            assert(v1.dead_list[b] == v.dead_list[b]);
        }
        assert forall|n: Seq<char>, j: int|
            v1.plugin_names.contains_key(n) && 0 <= j < v1.dead_list.len()
            implies #[trigger] v1.plugin_names[n] != #[trigger] v1.dead_list[j] by {
            assert(v1.dead_list[j] == v.dead_list[j]);
        }
    }
}

/// Adding a plugin keeps the host's invariant, whatever the outcome.
pub proof fn lemma_add_plugin_keeps_wf(
    v: HostView,
    name: Seq<char>,
    world_is_null: bool,
    plugin_is_null: bool,
    facts: Seq<PortFacts>,
)
    requires
        v.wf(),
        facts.len() <= usize::MAX,
    ensures
        spec_add_plugin(v, name, world_is_null, plugin_is_null, facts).0.wf(),
{
    lemma_reserve_keeps_wf(v);
    let (v1, reserved) = spec_reserve(v);
    lemma_port_names_in_range(facts, facts.len() as int);
    let post = spec_add_plugin(v, name, world_is_null, plugin_is_null, facts).0;
    if let Ok(replace_index) = reserved {
        if let Ok(scan) = spec_create_ports(world_is_null, plugin_is_null, facts) {
            if !(scan.n_audio_in > 2 || scan.n_audio_out > 2) && !(scan.n_atom_in > 1) {
                let p = PluginView { ports: scan.ports, port_names: scan.port_names };
                assert(scan.ports.len() == facts.len());
                assert(p.wf());
                let slot: usize = match replace_index {
                    Some(i) => i,
                    None => v1.plugins.len() as usize,
                };
                assert(post.plugin_names == v1.plugin_names.insert(name, slot));
                assert(forall|s: int| 0 <= s < post.plugins.len() ==> (#[trigger] post.plugins[s]).wf()) by {
                    assert forall|s: int| 0 <= s < post.plugins.len() implies (#[trigger] post.plugins[s]).wf() by {
                        if s == slot as int {
                            assert(post.plugins[s] == p);
                        } else {
                            assert(post.plugins[s] == v1.plugins[s]);
                        }
                    }
                }
                assert forall|n1: Seq<char>, n2: Seq<char>|
                    post.plugin_names.contains_key(n1) && post.plugin_names.contains_key(n2) && n1 != n2
                    implies #[trigger] post.plugin_names[n1] != #[trigger] post.plugin_names[n2] by {
                    if n1 != name && n2 != name {
                        assert(v1.plugin_names[n1] != v1.plugin_names[n2]);
                    } else if n1 == name {
                        assert(v1.plugin_names.contains_key(n2));
                        assert(v1.plugin_names[n2] < v1.plugins.len());
                    } else {
                        assert(v1.plugin_names.contains_key(n1));
                        assert(v1.plugin_names[n1] < v1.plugins.len());
                    }
                }
                assert forall|n: Seq<char>, j: int|
                    post.plugin_names.contains_key(n) && 0 <= j < post.dead_list.len()
                    implies #[trigger] post.plugin_names[n] != #[trigger] post.dead_list[j] by {
                    if n == name {
                        assert(!v1.dead_list.contains(slot) || replace_index is None);
                        if replace_index is None {
                            assert(v1.dead_list[j] < v1.plugins.len());
                        } else {
                            assert(v1.dead_list[j] != slot);
                        }
                    } else {
                        assert(v1.plugin_names[n] != v1.dead_list[j]);
                    }
                }
                assert forall|n: Seq<char>| #[trigger] post.plugin_names.contains_key(n) implies post.plugin_names[n] < post.plugins.len() by {
                    if n != name {
                        assert(v1.plugin_names[n] < v1.plugins.len());
                    }
                }
                assert forall|j: int| 0 <= j < post.dead_list.len() implies #[trigger] post.dead_list[j] < post.plugins.len() by {
                    assert(v1.dead_list[j] < v1.plugins.len());
                }
            }
        }
    }
}

/// Removing a plugin keeps the host's invariant.
pub proof fn lemma_remove_plugin_keeps_wf(v: HostView, name: Seq<char>)
    requires
        v.wf(),
    ensures
        spec_remove_plugin(v, name).0.wf(),
{
    let post = spec_remove_plugin(v, name).0;
    if v.plugin_names.contains_key(name) {
        let idx = v.plugin_names[name];
        let last = v.dead_list.len() as int;
        assert(post.dead_list[last] == idx);
        assert forall|j: int| 0 <= j < post.dead_list.len() implies #[trigger] post.dead_list[j] < post.plugins.len() by {
            if j < last {
                assert(post.dead_list[j] == v.dead_list[j]);
            }
        }
        assert forall|a: int, b: int| 0 <= a < b < post.dead_list.len() implies #[trigger] post.dead_list[a] != #[trigger] post.dead_list[b] by {
            assert(post.dead_list[a] == v.dead_list[a]);
            if b < last {
                assert(post.dead_list[b] == v.dead_list[b]);
            } else {
                assert(v.plugin_names[name] != v.dead_list[a]);
            }
        }
        assert forall|n: Seq<char>, j: int|
            post.plugin_names.contains_key(n) && 0 <= j < post.dead_list.len()
            implies #[trigger] post.plugin_names[n] != #[trigger] post.dead_list[j] by {
            assert(n != name);
            if j < last {
                assert(post.dead_list[j] == v.dead_list[j]);
                assert(v.plugin_names[n] != v.dead_list[j]);
            } else {
                assert(v.plugin_names[n] != v.plugin_names[name]);
            }
        }
        assert forall|n1: Seq<char>, n2: Seq<char>|
            post.plugin_names.contains_key(n1) && post.plugin_names.contains_key(n2) && n1 != n2
            implies #[trigger] post.plugin_names[n1] != #[trigger] post.plugin_names[n2] by {
            assert(v.plugin_names[n1] != v.plugin_names[n2]);
        }
    }
}

/// A plugin that is added under a name can be found under that name, in the
/// slot that adding it reported.
pub proof fn law_lookup_after_add(
    v: HostView,
    name: Seq<char>,
    world_is_null: bool,
    plugin_is_null: bool,
    facts: Seq<PortFacts>,
)
    requires
        v.wf(),
        facts.len() <= usize::MAX,
    ensures
        ({
            let (post, r) = spec_add_plugin(v, name, world_is_null, plugin_is_null, facts);
            r matches Ok(i) ==> spec_get_index(post, name) == Some(i) && i < post.plugins.len()
        }),
{
    lemma_add_plugin_keeps_wf(v, name, world_is_null, plugin_is_null, facts);
}

/// Adding a plugin never changes which slot another name refers to; a refused
/// plugin leaves every slot and every name as it was.
pub proof fn law_add_leaves_other_names(
    v: HostView,
    name: Seq<char>,
    other: Seq<char>,
    world_is_null: bool,
    plugin_is_null: bool,
    facts: Seq<PortFacts>,
)
    requires
        v.wf(),
        other != name,
    ensures
        ({
            let (post, r) = spec_add_plugin(v, name, world_is_null, plugin_is_null, facts);
            &&& spec_get_index(post, other) == spec_get_index(v, other)
            &&& r is Err ==> post.plugins == v.plugins && post.plugin_names == v.plugin_names
        }),
{
}

proof fn lemma_port_error_kind(facts: Seq<PortFacts>, k: int)
    ensures
        first_port_error(facts, k) matches Some(e) ==> (e == AddPluginError::PortNeitherInputOrOutput
            || e == AddPluginError::PortNeitherControlOrAudioOrOptional),
    decreases k,
{
    if k > 0 {
        lemma_port_error_kind(facts, k - 1);
    }
}

/// A plugin is refused for want of room exactly when no slot was released and
/// every slot is taken; the number of slots never exceeds the capacity.
pub proof fn law_capacity(
    v: HostView,
    name: Seq<char>,
    world_is_null: bool,
    plugin_is_null: bool,
    facts: Seq<PortFacts>,
)
    requires
        v.wf(),
        facts.len() <= usize::MAX,
    ensures
        v.plugins.len() <= v.plugin_cap,
        spec_add_plugin(v, name, world_is_null, plugin_is_null, facts).1 == Err::<
            usize,
            AddPluginError,
        >(AddPluginError::CapacityReached) <==> (v.dead_list.len() == 0 && v.plugins.len()
            == v.plugin_cap),
        spec_add_plugin(v, name, world_is_null, plugin_is_null, facts).0.plugins.len()
            <= v.plugin_cap,
{
    lemma_port_error_kind(facts, facts.len() as int);
    lemma_add_plugin_keeps_wf(v, name, world_is_null, plugin_is_null, facts);
}

/// After a plugin is removed its name is unknown, the other names are kept,
/// and removing reports whether the name was known; removing an unknown name
/// changes nothing.
pub proof fn law_lookup_after_remove(v: HostView, name: Seq<char>, other: Seq<char>)
    requires
        v.wf(),
        other != name,
    ensures
        ({
            let (post, r) = spec_remove_plugin(v, name);
            &&& spec_get_index(post, name) is None
            &&& spec_get_index(post, other) == spec_get_index(v, other)
            &&& r == spec_get_index(v, name) is Some
            &&& !r ==> post == v
        }),
{
}

/// The slot of the most recently removed plugin is the one the next accepted
/// plugin takes.
pub proof fn law_removed_slot_reused(
    v: HostView,
    name: Seq<char>,
    new_name: Seq<char>,
    world_is_null: bool,
    plugin_is_null: bool,
    facts: Seq<PortFacts>,
)
    requires
        v.wf(),
        v.plugin_names.contains_key(name),
    ensures
        ({
            let v1 = spec_remove_plugin(v, name).0;
            let (post, r) = spec_add_plugin(v1, new_name, world_is_null, plugin_is_null, facts);
            &&& spec_reserve(v1).1 == Ok::<Option<usize>, AddPluginError>(Some(v.plugin_names[name]))
            &&& r is Ok ==> r == Ok::<usize, AddPluginError>(v.plugin_names[name])
            &&& r is Ok ==> post.plugins.len() == v.plugins.len()
        }),
{
    let v1 = spec_remove_plugin(v, name).0;
    assert(v1.dead_list.last() == v.plugin_names[name]);
}

/// A plugin is refused while scanning its ports exactly when one of its ports
/// is refused.
pub proof fn law_scan_refused_iff_port_refused(facts: Seq<PortFacts>, k: int)
    requires
        0 <= k <= facts.len(),
    ensures
        first_port_error(facts, k) is Some <==> exists|i: int|
            0 <= i < k && (#[trigger] spec_classify(facts[i])) is Err,
    decreases k,
{
    if k > 0 {
        law_scan_refused_iff_port_refused(facts, k - 1);
        if spec_classify(facts[k - 1]) is Err {
            assert(0 <= k - 1 < k && spec_classify(facts[k - 1]) is Err);
        }
    }
}

proof fn lemma_count_take_step(ports: Seq<PortView>, i: int, ty: PortType, input: bool)
    requires
        0 <= i < ports.len(),
    ensures
        count_ports(ports.take(i + 1), ty, input) == count_ports(ports.take(i), ty, input) + if
            ports[i].ptype == ty && ports[i].is_input == input {
            1nat
        } else {
            0nat
        },
{
    assert(ports.take(i + 1).drop_last() =~= ports.take(i));
}

proof fn lemma_count_take_monotone(ports: Seq<PortView>, a: int, b: int, ty: PortType, input: bool)
    requires
        0 <= a <= b <= ports.len(),
    ensures
        count_ports(ports.take(a), ty, input) <= count_ports(ports.take(b), ty, input),
    decreases b - a,
{
    if a < b {
        lemma_count_take_monotone(ports, a, b - 1, ty, input);
        lemma_count_take_step(ports, b - 1, ty, input);
    }
}

/// Audio ports of one direction are wired to distinct buffer offsets, in port
/// order, each below the number of audio ports of that direction: a plugin with
/// at most two audio inputs and outputs only touches the first two frames of
/// each buffer.
pub proof fn law_audio_offsets_distinct(ports: Seq<PortView>, i: int, j: int, input: bool)
    requires
        0 <= i < j < ports.len(),
        ports.len() <= usize::MAX,
        ports[i].ptype == PortType::Audio && ports[i].is_input == input,
        ports[j].ptype == PortType::Audio && ports[j].is_input == input,
    ensures
        ({
            let n = count_ports(ports, PortType::Audio, input);
            if input {
                spec_connection(ports, i) matches Connection::AudioInput(a)
                    && spec_connection(ports, j) matches Connection::AudioInput(b) && a < b && b < n
            } else {
                spec_connection(ports, i) matches Connection::AudioOutput(a)
                    && spec_connection(ports, j) matches Connection::AudioOutput(b) && a < b && b < n
            }
        }),
{
    lemma_count_take_step(ports, i, PortType::Audio, input);
    lemma_count_take_monotone(ports, i + 1, j, PortType::Audio, input);
    lemma_count_take_step(ports, j, PortType::Audio, input);
    lemma_count_take_monotone(ports, j + 1, ports.len() as int, PortType::Audio, input);
    assert(ports.take(ports.len() as int) =~= ports);
    crate::port::lemma_count_le_len(ports.take(i), PortType::Audio, input);
    crate::port::lemma_count_le_len(ports.take(j), PortType::Audio, input);
    crate::port::lemma_count_le_len(ports, PortType::Audio, input);
}

/// The MIDI event atom is 38 bytes long; it names the sequence type in bytes
/// 4 to 8, the event type in bytes 28 to 32 and carries the MIDI message in
/// bytes 32 to 35. The empty sequence is 16 bytes long and names the sequence
/// type in bytes 4 to 8.
pub proof fn law_atom_layout(type_urid: Seq<u8>, seq_urid: Seq<u8>, midi: Seq<u8>)
    requires
        type_urid.len() == 4,
        seq_urid.len() == 4,
        midi.len() == 3,
    ensures
        midi_event_atom(type_urid, seq_urid, midi).len() == 38,
        midi_event_atom(type_urid, seq_urid, midi).subrange(4, 8) == seq_urid,
        midi_event_atom(type_urid, seq_urid, midi).subrange(28, 32) == type_urid,
        midi_event_atom(type_urid, seq_urid, midi).subrange(32, 35) == midi,
        empty_sequence_atom(seq_urid).len() == 16,
        empty_sequence_atom(seq_urid).subrange(4, 8) == seq_urid,
{
    assert(midi_event_atom(type_urid, seq_urid, midi).subrange(4, 8) =~= seq_urid);
    assert(midi_event_atom(type_urid, seq_urid, midi).subrange(28, 32) =~= type_urid);
    assert(midi_event_atom(type_urid, seq_urid, midi).subrange(32, 35) =~= midi);
    assert(empty_sequence_atom(seq_urid).subrange(4, 8) =~= seq_urid);
}

/// Writing into the atom buffer keeps its size, puts the written bytes at its
/// start and leaves the rest untouched.
pub proof fn law_atom_write(atom_buf: Seq<u8>, bytes: Seq<u8>)
    requires
        bytes.len() <= atom_buf.len(),
    ensures
        written_atom(atom_buf, bytes).len() == atom_buf.len(),
        written_atom(atom_buf, bytes).take(bytes.len() as int) == bytes,
        forall|i: int|
            bytes.len() <= i < atom_buf.len() ==> #[trigger] written_atom(atom_buf, bytes)[i]
                == atom_buf[i],
{
    assert(written_atom(atom_buf, bytes).take(bytes.len() as int) =~= bytes);
}

/// A stored URID decodes back to the number the mapper gave.
pub proof fn law_stored_urid_decodes(stored: Option<[u8; 4]>, urid: u32)
    requires
        stores_urid(stored, Some(urid)),
    ensures
        vstd::bytes::spec_u32_from_le_bytes(stored.unwrap()@) == urid,
{
    vstd::bytes::lemma_auto_spec_u32_to_from_le_bytes();
    assert(vstd::bytes::spec_u32_to_le_bytes(urid).len() == 4);
}

/// One call that changes which plugins the host holds.
pub enum HostCall {
    Add { name: Seq<char>, world_is_null: bool, plugin_is_null: bool, facts: Seq<PortFacts> },
    Remove { name: Seq<char> },
}

pub open spec fn step(v: HostView, c: HostCall) -> HostView {
    match c {
        HostCall::Add { name, world_is_null, plugin_is_null, facts } => spec_add_plugin(
            v,
            name,
            world_is_null,
            plugin_is_null,
            facts,
        ).0,
        HostCall::Remove { name } => spec_remove_plugin(v, name).0,
    }
}

/// The host after a history of calls.
pub open spec fn run_calls(v0: HostView, calls: Seq<HostCall>) -> HostView
    decreases calls.len(),
{
    if calls.len() == 0 {
        v0
    } else {
        step(run_calls(v0, calls.drop_last()), calls.last())
    }
}

/// Every call of the history passes a port list that fits in memory.
pub open spec fn sized_calls(calls: Seq<HostCall>) -> bool {
    forall|j: int|
        0 <= j < calls.len() ==> (#[trigger] calls[j] matches HostCall::Add { facts, .. } ==> facts.len()
            <= usize::MAX)
}

/// The slot a name is bound to after a history: the slot reported by the last
/// add of that name that succeeded, unless a removal of the name came after it.
pub open spec fn name_binding(v0: HostView, calls: Seq<HostCall>, name: Seq<char>) -> Option<usize>
    decreases calls.len(),
{
    if calls.len() == 0 {
        spec_get_index(v0, name)
    } else {
        let before = run_calls(v0, calls.drop_last());
        match calls.last() {
            HostCall::Add { name: n, world_is_null, plugin_is_null, facts } => if n == name {
                match spec_add_plugin(before, n, world_is_null, plugin_is_null, facts).1 {
                    Ok(i) => Some(i),
                    Err(_) => name_binding(v0, calls.drop_last(), name),
                }
            } else {
                name_binding(v0, calls.drop_last(), name)
            },
            HostCall::Remove { name: n } => if n == name {
                None
            } else {
                name_binding(v0, calls.drop_last(), name)
            },
        }
    }
}

proof fn lemma_history_wf(v0: HostView, calls: Seq<HostCall>)
    requires
        v0.wf(),
        sized_calls(calls),
    ensures
        run_calls(v0, calls).wf(),
        run_calls(v0, calls).plugin_cap == v0.plugin_cap,
    decreases calls.len(),
{
    if calls.len() > 0 {
        assert(sized_calls(calls.drop_last())) by {
            assert forall|j: int| 0 <= j < calls.drop_last().len() implies (#[trigger] calls.drop_last()[j] matches HostCall::Add { facts, .. } ==> facts.len() <= usize::MAX) by {
                assert(calls.drop_last()[j] == calls[j]);
            }
        }
        lemma_history_wf(v0, calls.drop_last());
        let before = run_calls(v0, calls.drop_last());
        assert(calls[calls.len() - 1] == calls.last());
        match calls.last() {
            HostCall::Add { name, world_is_null, plugin_is_null, facts } => {
                lemma_add_plugin_keeps_wf(before, name, world_is_null, plugin_is_null, facts);
            },
            HostCall::Remove { name } => {
                lemma_remove_plugin_keeps_wf(before, name);
            },
        }
    }
}

/// Over any history of calls from a new host, a name is found exactly in the
/// slot that the last successful add of that name reported, unless a removal
/// of the name followed; that slot exists, lies within the capacity and is not
/// on the release list.
pub proof fn law_lookup_over_history(
    plugin_cap: usize,
    buffer_len: usize,
    sample_rate: usize,
    calls: Seq<HostCall>,
    name: Seq<char>,
)
    requires
        sized_calls(calls),
    ensures
        ({
            let v0 = initial_view(plugin_cap, buffer_len, sample_rate);
            let v = run_calls(v0, calls);
            &&& v.wf()
            &&& spec_get_index(v, name) == name_binding(v0, calls, name)
            &&& name_binding(v0, calls, name) matches Some(i) ==> i < v.plugins.len() <= plugin_cap
                && !v.dead_list.contains(i)
        }),
    decreases calls.len(),
{
    let v0 = initial_view(plugin_cap, buffer_len, sample_rate);
    assert(v0.wf());
    lemma_history_wf(v0, calls);
    let v = run_calls(v0, calls);
    if calls.len() > 0 {
        assert(sized_calls(calls.drop_last())) by {
            assert forall|j: int| 0 <= j < calls.drop_last().len() implies (#[trigger] calls.drop_last()[j] matches HostCall::Add { facts, .. } ==> facts.len() <= usize::MAX) by {
                assert(calls.drop_last()[j] == calls[j]);
            }
        }
        law_lookup_over_history(plugin_cap, buffer_len, sample_rate, calls.drop_last(), name);
        let before = run_calls(v0, calls.drop_last());
        assert(calls[calls.len() - 1] == calls.last());
        match calls.last() {
            HostCall::Add { name: n, world_is_null, plugin_is_null, facts } => {
                if n == name {
                    law_lookup_after_add(before, n, world_is_null, plugin_is_null, facts);
                    let (post, r) = spec_add_plugin(before, n, world_is_null, plugin_is_null, facts);
                    if r is Err {
                        assert(post.plugin_names == before.plugin_names);
                        assert(spec_get_index(v, name) == spec_get_index(before, name));
                    }
                } else {
                    law_add_leaves_other_names(before, n, name, world_is_null, plugin_is_null, facts);
                }
            },
            HostCall::Remove { name: n } => {
                if n != name {
                    law_lookup_after_remove(before, n, name);
                } else {
                    assert(!spec_remove_plugin(before, n).0.plugin_names.contains_key(name));
                }
            },
        }
    }
    if let Some(i) = spec_get_index(v, name) {
        if v.dead_list.contains(i) {
            let j = choose|j: int| 0 <= j < v.dead_list.len() && v.dead_list[j] == i;
            assert(v.plugin_names[name] != v.dead_list[j]);
        }
    }
}

/// The host's bookkeeping together with how often the plugin instance now in
/// each slot has been deactivated, and whether every instance that was
/// replaced had been deactivated at most once.
pub struct Lifecycle {
    pub host: HostView,
    pub deactivations: Seq<nat>,
    pub retired_once: bool,
}

/// A call's effect on the instances: a successful add puts a fresh instance in
/// its slot, a successful removal deactivates the instance in the removed slot.
pub open spec fn lifecycle_step(l: Lifecycle, c: HostCall) -> Lifecycle {
    match c {
        HostCall::Add { name, world_is_null, plugin_is_null, facts } => {
            let (post, r) = spec_add_plugin(l.host, name, world_is_null, plugin_is_null, facts);
            match r {
                Ok(i) => if i < l.host.plugins.len() {
                    Lifecycle {
                        host: post,
                        deactivations: l.deactivations.update(i as int, 0),
                        retired_once: l.retired_once && l.deactivations[i as int] <= 1,
                    }
                } else {
                    Lifecycle { host: post, deactivations: l.deactivations.push(0), ..l }
                },
                Err(_) => Lifecycle { host: post, ..l },
            }
        },
        HostCall::Remove { name } => {
            let (post, removed) = spec_remove_plugin(l.host, name);
            if removed {
                let i = l.host.plugin_names[name] as int;
                Lifecycle {
                    host: post,
                    deactivations: l.deactivations.update(i, l.deactivations[i] + 1),
                    ..l
                }
            } else {
                Lifecycle { host: post, ..l }
            }
        },
    }
}

pub open spec fn run_lifecycle(l0: Lifecycle, calls: Seq<HostCall>) -> Lifecycle
    decreases calls.len(),
{
    if calls.len() == 0 {
        l0
    } else {
        lifecycle_step(run_lifecycle(l0, calls.drop_last()), calls.last())
    }
}

/// How often each instance held at the end has been deactivated once the host
/// goes away, which deactivates the instance of every slot not released.
pub open spec fn deactivations_at_drop(l: Lifecycle) -> Seq<nat> {
    Seq::new(
        l.host.plugins.len(),
        |i: int|
            l.deactivations[i] + if l.host.dead_list.contains(i as usize) {
                0nat
            } else {
                1nat
            },
    )
}

/// No call of the history takes a released slot and then refuses the plugin:
/// every add either succeeds or finds no released slot.
pub open spec fn keeps_released_slots(v0: HostView, calls: Seq<HostCall>) -> bool
    decreases calls.len(),
{
    if calls.len() == 0 {
        true
    } else {
        &&& keeps_released_slots(v0, calls.drop_last())
        &&& match calls.last() {
            HostCall::Add { name, world_is_null, plugin_is_null, facts } => {
                let before = run_calls(v0, calls.drop_last());
                spec_add_plugin(before, name, world_is_null, plugin_is_null, facts).1 is Ok
                    || before.dead_list.len() == 0
            },
            HostCall::Remove { .. } => true,
        }
    }
}

proof fn lemma_lifecycle(plugin_cap: usize, buffer_len: usize, sample_rate: usize, calls: Seq<HostCall>)
    requires
        sized_calls(calls),
        keeps_released_slots(initial_view(plugin_cap, buffer_len, sample_rate), calls),
    ensures
        ({
            let v0 = initial_view(plugin_cap, buffer_len, sample_rate);
            let l = run_lifecycle(
                Lifecycle { host: v0, deactivations: Seq::empty(), retired_once: true },
                calls,
            );
            &&& l.host == run_calls(v0, calls)
            &&& l.retired_once
            &&& l.deactivations.len() == l.host.plugins.len()
            &&& forall|i: int|
                0 <= i < l.deactivations.len() ==> #[trigger] l.deactivations[i] == if l.host.dead_list.contains(
                    i as usize,
                ) {
                    1nat
                } else {
                    0nat
                }
        }),
    decreases calls.len(),
{
    let v0 = initial_view(plugin_cap, buffer_len, sample_rate);
    let l0 = Lifecycle { host: v0, deactivations: Seq::empty(), retired_once: true };
    if calls.len() > 0 {
        assert(sized_calls(calls.drop_last())) by {
            assert forall|j: int| 0 <= j < calls.drop_last().len() implies (#[trigger] calls.drop_last()[j] matches HostCall::Add { facts, .. } ==> facts.len() <= usize::MAX) by {
                assert(calls.drop_last()[j] == calls[j]);
            }
        }
        lemma_lifecycle(plugin_cap, buffer_len, sample_rate, calls.drop_last());
        assert(v0.wf());
        lemma_history_wf(v0, calls.drop_last());
        let l = run_lifecycle(l0, calls.drop_last());
        let v = l.host;
        assert(calls[calls.len() - 1] == calls.last());
        let l2 = lifecycle_step(l, calls.last());
        match calls.last() {
            HostCall::Add { name, world_is_null, plugin_is_null, facts } => {
                lemma_reserve_keeps_wf(v);
                let (post, r) = spec_add_plugin(v, name, world_is_null, plugin_is_null, facts);
                match r {
                    Ok(i) => {
                        if i < v.plugins.len() {
                            // the slot was taken from the release list
                            assert(v.dead_list.len() > 0);
                            assert(i == v.dead_list.last());
                            assert(v.dead_list.contains(i)) by {
                                assert(v.dead_list[v.dead_list.len() - 1] == i);
                            }
                            assert(post.dead_list == v.dead_list.drop_last());
                            assert forall|k: int| 0 <= k < l2.deactivations.len() implies #[trigger] l2.deactivations[k] == if post.dead_list.contains(k as usize) { 1nat } else { 0nat } by {
                                if k == i as int {
                                    assert(!post.dead_list.contains(i));
                                } else {
                                    assert(l2.deactivations[k] == l.deactivations[k]);
                                    if v.dead_list.contains(k as usize) {
                                        let j = choose|j: int| 0 <= j < v.dead_list.len() && v.dead_list[j] == k as usize;
                                        assert(j != v.dead_list.len() - 1);
                                        assert(post.dead_list[j] == k as usize);
                                    }
                                    if post.dead_list.contains(k as usize) {
                                        let j = choose|j: int| 0 <= j < post.dead_list.len() && post.dead_list[j] == k as usize;
                                        assert(v.dead_list[j] == k as usize);
                                    }
                                }
                            }
                        } else {
                            assert(v.dead_list.len() == 0);
                            assert(post.dead_list == v.dead_list);
                            assert forall|k: int| 0 <= k < l2.deactivations.len() implies #[trigger] l2.deactivations[k] == if post.dead_list.contains(k as usize) { 1nat } else { 0nat } by {
                                if k < l.deactivations.len() {
                                    assert(l2.deactivations[k] == l.deactivations[k]);
                                }
                            }
                        }
                    },
                    Err(_) => {
                        assert(v.dead_list.len() == 0);
                        assert(post == v);
                    },
                }
            },
            HostCall::Remove { name } => {
                let (post, removed) = spec_remove_plugin(v, name);
                if removed {
                    let i = v.plugin_names[name];
                    assert(!v.dead_list.contains(i)) by {
                        if v.dead_list.contains(i) {
                            let j = choose|j: int| 0 <= j < v.dead_list.len() && v.dead_list[j] == i;
                            assert(v.plugin_names[name] != v.dead_list[j]);
                        }
                    }
                    assert forall|k: int| 0 <= k < l2.deactivations.len() implies #[trigger] l2.deactivations[k] == if post.dead_list.contains(k as usize) { 1nat } else { 0nat } by {
                        assert(post.dead_list == v.dead_list.push(i));
                        if k == i as int {
                            assert(post.dead_list[v.dead_list.len() as int] == i);
                        } else {
                            assert(l2.deactivations[k] == l.deactivations[k]);
                            if v.dead_list.contains(k as usize) {
                                let j = choose|j: int| 0 <= j < v.dead_list.len() && v.dead_list[j] == k as usize;
                                assert(post.dead_list[j] == k as usize);
                            }
                            if post.dead_list.contains(k as usize) {
                                let j = choose|j: int| 0 <= j < post.dead_list.len() && post.dead_list[j] == k as usize;
                                assert(j < v.dead_list.len());
                                assert(v.dead_list[j] == k as usize);
                            }
                        }
                    }
                }
            },
        }
    }
}

/// Over the life of a host in which no refused plugin took a released slot,
/// every plugin instance is deactivated exactly once: an instance replaced in
/// its slot had been deactivated once by the removal that released the slot,
/// and when the host goes away each instance it still holds has been
/// deactivated once, by a removal or by the host's own release.
pub proof fn law_each_instance_deactivated_once(
    plugin_cap: usize,
    buffer_len: usize,
    sample_rate: usize,
    calls: Seq<HostCall>,
)
    requires
        sized_calls(calls),
        keeps_released_slots(initial_view(plugin_cap, buffer_len, sample_rate), calls),
    ensures
        ({
            let l = run_lifecycle(
                Lifecycle {
                    host: initial_view(plugin_cap, buffer_len, sample_rate),
                    deactivations: Seq::empty(),
                    retired_once: true,
                },
                calls,
            );
            &&& l.retired_once
            &&& forall|i: int|
                0 <= i < l.host.plugins.len() ==> #[trigger] deactivations_at_drop(l)[i] == 1
        }),
{
    lemma_lifecycle(plugin_cap, buffer_len, sample_rate, calls);
}

/// A plugin whose ports all classify, with at most two audio inputs, at most
/// two audio outputs and at most one atom input, is accepted whenever a slot is
/// available; it is refused for its audio ports exactly when it has more than
/// two audio inputs or outputs, and for its atom ports exactly when it has more
/// than one atom input but few enough audio ports.
pub proof fn law_accepts_drivable_plugins(
    v: HostView,
    name: Seq<char>,
    world_is_null: bool,
    plugin_is_null: bool,
    facts: Seq<PortFacts>,
)
    ensures
        ({
            let r = spec_add_plugin(v, name, world_is_null, plugin_is_null, facts).1;
            spec_reserve(v).1 is Ok ==> match spec_create_ports(world_is_null, plugin_is_null, facts) {
                Ok(scan) => {
                    &&& (scan.n_audio_in <= 2 && scan.n_audio_out <= 2 && scan.n_atom_in <= 1)
                        ==> r is Ok
                    &&& (scan.n_audio_in > 2 || scan.n_audio_out > 2) ==> r == Err::<
                        usize,
                        AddPluginError,
                    >(
                        AddPluginError::MoreThanTwoInOrOutAudioPorts(
                            scan.n_audio_in as usize,
                            scan.n_audio_out as usize,
                        ),
                    )
                    &&& (scan.n_audio_in <= 2 && scan.n_audio_out <= 2 && scan.n_atom_in > 1) ==> r
                        == Err::<usize, AddPluginError>(
                        AddPluginError::MoreThanOneAtomPort(scan.n_atom_in as usize),
                    )
                },
                Err(e) => r == Err::<usize, AddPluginError>(e),
            }
        }),
{
}

/// The number of ports of a type and direction is the number of ports that
/// have that type and direction.
pub proof fn law_count_ports(ports: Seq<PortView>, ty: PortType, input: bool)
    ensures
        count_ports(ports, ty, input) == ports.filter(
            |p: PortView| p.ptype == ty && p.is_input == input,
        ).len(),
    decreases ports.len(),
{
    reveal_with_fuel(Seq::filter, 1);
    if ports.len() > 0 {
        law_count_ports(ports.drop_last(), ty, input);
    }
}

/// The MIDI event atom, byte by byte, for every type URID, sequence URID and
/// MIDI message: size 32, the sequence type, sixteen zero bytes, event size 3,
/// the event type, the three MIDI bytes, and three zero bytes. The empty
/// sequence is size 8, the sequence type and eight zero bytes.
pub proof fn law_atom_bytes(type_urid: Seq<u8>, seq_urid: Seq<u8>, midi: Seq<u8>)
    requires
        type_urid.len() == 4,
        seq_urid.len() == 4,
        midi.len() == 3,
    ensures
        ({
            let a = midi_event_atom(type_urid, seq_urid, midi);
            &&& a.len() == 38
            &&& a.subrange(0, 4) == seq![32u8, 0u8, 0u8, 0u8]
            &&& a.subrange(4, 8) == seq_urid
            &&& forall|i: int| 8 <= i < 24 ==> #[trigger] a[i] == 0u8
            &&& a.subrange(24, 28) == seq![3u8, 0u8, 0u8, 0u8]
            &&& a.subrange(28, 32) == type_urid
            &&& a.subrange(32, 35) == midi
            &&& a.subrange(35, 38) == seq![0u8, 0u8, 0u8]
        }),
        ({
            let e = empty_sequence_atom(seq_urid);
            &&& e.len() == 16
            &&& e.subrange(0, 4) == seq![8u8, 0u8, 0u8, 0u8]
            &&& e.subrange(4, 8) == seq_urid
            &&& forall|i: int| 8 <= i < 16 ==> #[trigger] e[i] == 0u8
        }),
{
    let a = midi_event_atom(type_urid, seq_urid, midi);
    assert(a.subrange(0, 4) =~= seq![32u8, 0u8, 0u8, 0u8]);
    assert(a.subrange(4, 8) =~= seq_urid);
    assert(a.subrange(24, 28) =~= seq![3u8, 0u8, 0u8, 0u8]);
    assert(a.subrange(28, 32) =~= type_urid);
    assert(a.subrange(32, 35) =~= midi);
    assert(a.subrange(35, 38) =~= seq![0u8, 0u8, 0u8]);
    let e = empty_sequence_atom(seq_urid);
    assert(e.subrange(0, 4) =~= seq![8u8, 0u8, 0u8, 0u8]);
    assert(e.subrange(4, 8) =~= seq_urid);
}

/// The control inputs listed for a plugin are exactly the positions of its
/// control input ports, in increasing order.
pub proof fn law_control_inputs(ports: Seq<PortView>)
    requires
        ports.len() <= usize::MAX,
    ensures
        forall|k: int|
            0 <= k < ports.len() ==> (control_inputs(ports).contains(k as usize) <==> (
            #[trigger] ports[k]).ptype == PortType::Control && ports[k].is_input),
        forall|j: int|
            0 <= j < control_inputs(ports).len() ==> #[trigger] control_inputs(ports)[j]
                < ports.len(),
        forall|a: int, b: int|
            0 <= a < b < control_inputs(ports).len() ==> #[trigger] control_inputs(ports)[a]
                < #[trigger] control_inputs(ports)[b],
    decreases ports.len(),
{
    if ports.len() > 0 {
        let rest = ports.drop_last();
        law_control_inputs(rest);
        let c = control_inputs(ports);
        let cr = control_inputs(rest);
        let last = (ports.len() - 1) as usize;
        assert forall|k: int|
            0 <= k < ports.len() implies (c.contains(k as usize) <==> (
            #[trigger] ports[k]).ptype == PortType::Control && ports[k].is_input) by {
            if k < ports.len() - 1 {
                assert(ports[k] == rest[k]);
                if c.contains(k as usize) {
                    let j = choose|j: int| 0 <= j < c.len() && c[j] == k as usize;
                    if j < cr.len() {
                        assert(cr[j] == k as usize);
                    }
                }
                if cr.contains(k as usize) {
                    let j = choose|j: int| 0 <= j < cr.len() && cr[j] == k as usize;
                    assert(c[j] == k as usize);
                }
            } else {
                if c.contains(k as usize) {
                    let j = choose|j: int| 0 <= j < c.len() && c[j] == k as usize;
                    if j < cr.len() {
                        assert(cr[j] < rest.len());
                    }
                }
                if ports[k].ptype == PortType::Control && ports[k].is_input {
                    assert(c[cr.len() as int] == last);
                }
            }
        }
    }
}

/// The location of a port is found whenever the plugin name is bound and the
/// port name is one of that plugin's port names, and only then.
pub proof fn law_port_location(v: HostView, plugin: Seq<char>, port: Seq<char>)
    ensures
        (v.plugin_names.contains_key(plugin) && v.plugins[v.plugin_names[plugin] as int].port_names.contains_key(port))
            ==> spec_port_location(v, plugin, port) == Some(
            (
                v.plugin_names[plugin],
                v.plugins[v.plugin_names[plugin] as int].port_names[port],
            ),
        ),
        !(v.plugin_names.contains_key(plugin) && v.plugins[v.plugin_names[plugin] as int].port_names.contains_key(port))
            ==> spec_port_location(v, plugin, port) is None,
{
}

/// Audio ports of one direction are wired at their rank among those ports: the
/// first one at offset 0, and each next one at the offset after the previous.
pub proof fn law_audio_offsets_rank(ports: Seq<PortView>, i: int, j: int, input: bool)
    requires
        ports.len() <= usize::MAX,
        0 <= i < j < ports.len(),
        ports[i].ptype == PortType::Audio && ports[i].is_input == input,
        ports[j].ptype == PortType::Audio && ports[j].is_input == input,
    ensures
        (forall|k: int|
            0 <= k < i ==> !((#[trigger] ports[k]).ptype == PortType::Audio && ports[k].is_input
                == input)) ==> (if input {
            spec_connection(ports, i) == Connection::AudioInput(0)
        } else {
            spec_connection(ports, i) == Connection::AudioOutput(0)
        }),
        (forall|k: int|
            i < k < j ==> !((#[trigger] ports[k]).ptype == PortType::Audio && ports[k].is_input
                == input)) ==> (if input {
            spec_connection(ports, i) matches Connection::AudioInput(a)
                && spec_connection(ports, j) == Connection::AudioInput((a + 1) as usize)
        } else {
            spec_connection(ports, i) matches Connection::AudioOutput(a)
                && spec_connection(ports, j) == Connection::AudioOutput((a + 1) as usize)
        }),
{
    lemma_count_take_step(ports, i, PortType::Audio, input);
    lemma_count_take_step(ports, j, PortType::Audio, input);
    crate::port::lemma_count_le_len(ports.take(i), PortType::Audio, input);
    crate::port::lemma_count_le_len(ports.take(j), PortType::Audio, input);
    if forall|k: int|
        0 <= k < i ==> !((#[trigger] ports[k]).ptype == PortType::Audio && ports[k].is_input
            == input) {
        lemma_count_none(ports, i, input);
    }
    if forall|k: int|
        i < k < j ==> !((#[trigger] ports[k]).ptype == PortType::Audio && ports[k].is_input
            == input) {
        lemma_count_gap(ports, i + 1, j, input);
    }
}

proof fn lemma_count_none(ports: Seq<PortView>, i: int, input: bool)
    requires
        0 <= i <= ports.len(),
        forall|k: int|
            0 <= k < i ==> !((#[trigger] ports[k]).ptype == PortType::Audio && ports[k].is_input
                == input),
    ensures
        count_ports(ports.take(i), PortType::Audio, input) == 0,
    decreases i,
{
    if i > 0 {
        lemma_count_none(ports, i - 1, input);
        lemma_count_take_step(ports, i - 1, PortType::Audio, input);
    }
}

proof fn lemma_count_gap(ports: Seq<PortView>, a: int, b: int, input: bool)
    requires
        0 <= a <= b <= ports.len(),
        forall|k: int|
            a <= k < b ==> !((#[trigger] ports[k]).ptype == PortType::Audio && ports[k].is_input
                == input),
    ensures
        count_ports(ports.take(b), PortType::Audio, input) == count_ports(ports.take(a), PortType::Audio, input),
    decreases b - a,
{
    if a < b {
        lemma_count_gap(ports, a, b - 1, input);
        lemma_count_take_step(ports, b - 1, PortType::Audio, input);
    }
}

/// How one port is classified, in terms of what its description says: it is
/// refused when it has no direction and is not optional, or when it is neither
/// a control, an audio nor an atom input port and is not optional; otherwise
/// it is an input exactly when it is an input port, a control port before
/// anything else, then an audio port, then an atom input, else unconnected.
pub proof fn law_classify(f: PortFacts)
    ensures
        spec_classify(f) is Err <==> ((!f.is_input_port && !f.is_output_port && !f.connection_optional)
            || (!f.is_control_port && !f.is_audio_port && !(f.is_atom_port && f.is_input_port)
            && !f.connection_optional)),
        (!f.is_input_port && !f.is_output_port && !f.connection_optional) ==> spec_classify(f)
            == Err::<(bool, PortType), AddPluginError>(AddPluginError::PortNeitherInputOrOutput),
        spec_classify(f) matches Ok((is_input, ptype)) ==> {
            &&& is_input == f.is_input_port
            &&& (ptype == PortType::Control <==> f.is_control_port)
            &&& (ptype == PortType::Audio <==> (!f.is_control_port && f.is_audio_port))
            &&& (ptype == PortType::Atom <==> (!f.is_control_port && !f.is_audio_port
                && f.is_atom_port && f.is_input_port))
        },
{
}

/// A scan that refuses a plugin reports the error of its lowest-numbered
/// refused port.
pub proof fn law_first_refused_port_decides(facts: Seq<PortFacts>, k: int)
    requires
        0 <= k <= facts.len(),
    ensures
        first_port_error(facts, k) matches Some(e) ==> exists|i: int|
            0 <= i < k && (#[trigger] spec_classify(facts[i])) == Err::<(bool, PortType), AddPluginError>(e)
                && forall|j: int| 0 <= j < i ==> (#[trigger] spec_classify(facts[j])) is Ok,
        first_port_error(facts, k) is None ==> forall|j: int|
            0 <= j < k ==> (#[trigger] spec_classify(facts[j])) is Ok,
    decreases k,
{
    if k > 0 {
        law_first_refused_port_decides(facts, k - 1);
    }
}

/// A scanned plugin keeps its ports in index order with their names and
/// optional flags, classified one by one; a port name refers to the last port
/// that has that name.
pub proof fn law_scanned_ports(facts: Seq<PortFacts>)
    requires
        facts.len() <= u32::MAX,
    ensures
        spec_create_ports(false, false, facts) matches Ok(scan) ==> {
            &&& scan.ports.len() == facts.len()
            &&& forall|i: int|
                0 <= i < facts.len() ==> {
                    &&& (#[trigger] scan.ports[i]).index == i
                    &&& scan.ports[i].name == facts[i].name@
                    &&& scan.ports[i].optional == facts[i].connection_optional
                    &&& spec_classify(facts[i]) == Ok::<(bool, PortType), AddPluginError>(
                        (scan.ports[i].is_input, scan.ports[i].ptype),
                    )
                }
            &&& forall|n: Seq<char>|
                #[trigger] scan.port_names.contains_key(n) <==> exists|i: int|
                    0 <= i < facts.len() && (#[trigger] facts[i]).name@ == n
            &&& forall|n: Seq<char>| #[trigger]
                scan.port_names.contains_key(n) ==> {
                    let i = scan.port_names[n] as int;
                    &&& 0 <= i < facts.len()
                    &&& facts[i].name@ == n
                    &&& forall|j: int| i < j < facts.len() ==> (#[trigger] facts[j]).name@ != n
                }
        },
{
    law_first_refused_port_decides(facts, facts.len() as int);
    lemma_name_map(facts, facts.len() as int);
}

proof fn lemma_name_map(facts: Seq<PortFacts>, k: int)
    requires
        0 <= k <= facts.len(),
        facts.len() <= u32::MAX,
    ensures
        forall|n: Seq<char>|
            #[trigger] port_name_map(facts, k).contains_key(n) <==> exists|i: int|
                0 <= i < k && (#[trigger] facts[i]).name@ == n,
        forall|n: Seq<char>| #[trigger]
            port_name_map(facts, k).contains_key(n) ==> {
                let i = port_name_map(facts, k)[n] as int;
                &&& 0 <= i < k
                &&& facts[i].name@ == n
                &&& forall|j: int| i < j < k ==> (#[trigger] facts[j]).name@ != n
            },
    decreases k,
{
    if k > 0 {
        lemma_name_map(facts, k - 1);
        let m = port_name_map(facts, k - 1);
        let key = facts[k - 1].name@;
        assert(port_name_map(facts, k) == m.insert(key, (k - 1) as usize));
        assert forall|n: Seq<char>|
            #[trigger] port_name_map(facts, k).contains_key(n) <==> exists|i: int|
                0 <= i < k && (#[trigger] facts[i]).name@ == n by {
            if n == key {
                assert(facts[k - 1].name@ == n);
            } else if exists|i: int| 0 <= i < k && (#[trigger] facts[i]).name@ == n {
                let i = choose|i: int| 0 <= i < k && (#[trigger] facts[i]).name@ == n;
                assert(i != k - 1);
            }
        }
    }
}

/// Each port is wired by its type: control ports to their own value, atom
/// inputs to the atom buffer, other ports not at all, and audio ports to the
/// buffer of their direction.
pub proof fn law_connection_kinds(ports: Seq<PortView>, i: int)
    requires
        0 <= i < ports.len(),
    ensures
        ports[i].ptype == PortType::Control <==> spec_connection(ports, i) == Connection::ControlValue,
        ports[i].ptype == PortType::Atom <==> spec_connection(ports, i) == Connection::AtomSequence,
        ports[i].ptype == PortType::Other <==> spec_connection(ports, i) == Connection::Unconnected,
        (ports[i].ptype == PortType::Audio && ports[i].is_input) <==> spec_connection(ports, i) is AudioInput,
        (ports[i].ptype == PortType::Audio && !ports[i].is_input) <==> spec_connection(ports, i) is AudioOutput,
{
}

/// An accepted plugin is stored in the slot reported, with the scanned ports
/// and port names; every other slot keeps its plugin, and the number of slots
/// grows by one only when no released slot was reused.
pub proof fn law_add_stores_plugin(
    v: HostView,
    name: Seq<char>,
    world_is_null: bool,
    plugin_is_null: bool,
    facts: Seq<PortFacts>,
)
    requires
        v.wf(),
    ensures
        ({
            let (post, r) = spec_add_plugin(v, name, world_is_null, plugin_is_null, facts);
            r matches Ok(i) ==> {
                &&& spec_create_ports(world_is_null, plugin_is_null, facts) matches Ok(scan)
                    && post.plugins[i as int] == (PluginView {
                    ports: scan.ports,
                    port_names: scan.port_names,
                })
                &&& forall|j: int|
                    0 <= j < v.plugins.len() && j != i ==> #[trigger] post.plugins[j] == v.plugins[j]
                &&& (v.dead_list.len() > 0 ==> post.plugins.len() == v.plugins.len()
                    && i == v.dead_list.last())
                &&& (v.dead_list.len() == 0 ==> post.plugins.len() == v.plugins.len() + 1
                    && i == v.plugins.len())
            }
        }),
{
    lemma_reserve_keeps_wf(v);
}

} // verus!
