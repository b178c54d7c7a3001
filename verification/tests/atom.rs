use lv2hm::{empty_sequence, test_midi_atom};

#[test]
fn midi_atom_bytes() {
    let r = test_midi_atom([5, 6, 7, 8], [1, 2, 3, 4], [0x90, 72, 96]);
    let expected: [u8; 38] = [
        32, 0, 0, 0, 1, 2, 3, 4, 0, 0, 0, 0, 0, 0, 0, 0, 0, 0, 0, 0, 0, 0, 0, 0, 3, 0, 0, 0, 5, 6,
        7, 8, 0x90, 72, 96, 0, 0, 0,
    ];
    assert_eq!(r, expected);
}

#[test]
fn midi_atom_layout_positions() {
    let r = test_midi_atom([0xaa, 0xbb, 0xcc, 0xdd], [0x11, 0x22, 0x33, 0x44], [0x80, 60, 0]);
    assert_eq!(&r[4..8], &[0x11, 0x22, 0x33, 0x44]);
    assert_eq!(&r[28..32], &[0xaa, 0xbb, 0xcc, 0xdd]);
    assert_eq!(&r[32..35], &[0x80, 60, 0]);
}

#[test]
fn empty_sequence_bytes() {
    let r = empty_sequence([9, 8, 7, 6]);
    assert_eq!(r, [8, 0, 0, 0, 9, 8, 7, 6, 0, 0, 0, 0, 0, 0, 0, 0]);
}
