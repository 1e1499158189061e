use synth::keys::{build_keyboard, KeyTable};

#[test]
fn keyboard_maps_sixteen_keys() {
    let freqs: Vec<u32> = (0..16u32).map(|n| 220_000 + 1000 * n).collect();
    let table = build_keyboard(&freqs);
    assert_eq!(table.get('z'), Some(220_000));
    assert_eq!(table.get('c'), Some(223_000));
    assert_eq!(table.get(','), Some(232_000));
    assert_eq!(table.get('/'), Some(235_000));
    assert_eq!(table.get('q'), None);
}

#[test]
fn insert_replaces_a_key() {
    let mut table = KeyTable::new();
    assert_eq!(table.get('a'), None);
    table.insert('a', 440_000);
    table.insert('b', 880_000);
    table.insert('a', 220_000);
    assert_eq!(table.get('a'), Some(220_000));
    assert_eq!(table.get('b'), Some(880_000));
}
