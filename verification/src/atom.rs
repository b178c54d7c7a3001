use vstd::prelude::*;

verus! {

/// The atom sequence that carries one three-byte MIDI event at time zero:
/// the sequence header (size, sequence type), sixteen zero bytes of time
/// stamp, the event header (size three, MIDI event type), the MIDI bytes and
/// three bytes of padding.
pub open spec fn midi_event_atom(
    type_urid: Seq<u8>,
    seq_urid: Seq<u8>,
    midi: Seq<u8>,
) -> Seq<u8> {
    seq![32u8, 0u8, 0u8, 0u8] + seq_urid + Seq::new(16, |i: int| 0u8) + seq![3u8, 0u8, 0u8, 0u8]
        + type_urid + midi + seq![0u8, 0u8, 0u8]
}

/// The atom sequence with no events: the sequence header (size eight,
/// sequence type) and an eight-byte zero body.
pub open spec fn empty_sequence_atom(seq_urid: Seq<u8>) -> Seq<u8> {
    seq![8u8, 0u8, 0u8, 0u8] + seq_urid + Seq::new(8, |i: int| 0u8)
}

/// Builds the atom sequence that delivers one MIDI message to a plugin.
pub fn test_midi_atom(typebytes: [u8; 4], seqbytes: [u8; 4], midibytes: [u8; 3]) -> (r: [u8; 38])
    ensures
        r@ == midi_event_atom(typebytes@, seqbytes@, midibytes@),
{
    let r: [u8; 38] = [
        32, 0, 0, 0,
        seqbytes[0], seqbytes[1], seqbytes[2], seqbytes[3],
        0, 0, 0, 0, 0, 0, 0, 0,
        0, 0, 0, 0, 0, 0, 0, 0,
        3, 0, 0, 0,
        typebytes[0], typebytes[1], typebytes[2], typebytes[3],
        midibytes[0], midibytes[1], midibytes[2],
        0, 0, 0,
    ];
    assert(r@ =~= midi_event_atom(typebytes@, seqbytes@, midibytes@));
    r
}

/// Builds the atom sequence that tells a plugin no MIDI event arrived.
pub fn empty_sequence(seqbytes: [u8; 4]) -> (r: [u8; 16])
    ensures
        r@ == empty_sequence_atom(seqbytes@),
{
    let r: [u8; 16] = [
        8, 0, 0, 0,
        seqbytes[0], seqbytes[1], seqbytes[2], seqbytes[3],
        0, 0, 0, 0, 0, 0, 0, 0,
    ];
    assert(r@ =~= empty_sequence_atom(seqbytes@));
    r
}

} // verus!
