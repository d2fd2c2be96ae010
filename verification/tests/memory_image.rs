use dynamic_memory::memory::{DynamicMemory, MemoryEntry};

fn strings(tokens: &[&str]) -> Vec<String> {
    tokens.iter().map(|t| t.to_string()).collect()
}

#[test]
fn scenario_single_scalar() {
    let mut m = DynamicMemory::new();
    m.write_value(1);
    assert_eq!(m.serialize(), strings(&["0x1"]));
}

#[test]
fn scenario_flat_sequence() {
    let mut m = DynamicMemory::new();
    m.write_array(vec![10u64, 20u64]);
    assert_eq!(m.serialize(), strings(&["1", "0xA", "0x14"]));
}

#[test]
fn scenario_nested_sequence() {
    let mut m = DynamicMemory::new();
    m.write_array(vec![vec![5u64]]);
    assert_eq!(m.serialize(), strings(&["1", "2", "0x5"]));
}

#[test]
fn scenario_sequence_with_contexts() {
    let mut m = DynamicMemory::new();
    m.write_array_with(vec![100u64, 200u64], |i: usize| i as u64);
    assert_eq!(m.serialize(), strings(&["1", "0x0", "0x64", "0x1", "0xC8"]));
}

#[test]
fn scalar_round_trip_at_either_depth() {
    let mut m = DynamicMemory::new();
    m.write_value(255);
    m.write_array(vec![255u64]);
    assert_eq!(m.serialize(), strings(&["0xFF", "2", "0xFF"]));
}

#[test]
fn offset_is_sum_of_earlier_segment_lengths() {
    let mut m = DynamicMemory::new();
    for v in 0u64..10 {
        m.write_value(v);
    }
    m.write_array(vec![1u64, 2u64]);
    let out = m.serialize();
    assert_eq!(out.len(), 13);
    // the root holds 11 cells, so the child segment starts at offset 11
    assert_eq!(out[10], "11".to_string());
    assert_eq!(out[11], "0x1".to_string());
    assert_eq!(out[12], "0x2".to_string());
}

#[test]
fn flattening_twice_gives_identical_output() {
    let mut m = DynamicMemory::new();
    m.write_value(42);
    m.write_array(vec![vec![1u64, 2u64], vec![3u64]]);
    let first = m.serialize();
    let second = m.serialize();
    assert_eq!(first, second);
}

#[test]
fn sequence_keeps_input_order() {
    let mut m = DynamicMemory::new();
    m.write_array(vec![3u64, 1u64, 2u64]);
    assert_eq!(m.serialize(), strings(&["1", "0x3", "0x1", "0x2"]));
}

#[test]
fn hexadecimal_rendering_edge_values() {
    let mut m = DynamicMemory::new();
    m.write_value(0);
    m.write_value(26);
    m.write_value(255);
    m.write_value(u64::MAX);
    assert_eq!(
        m.serialize(),
        strings(&["0x0", "0x1A", "0xFF", "0xFFFFFFFFFFFFFFFF"])
    );
}

#[test]
fn entry_to_hex_renders_value() {
    assert_eq!(MemoryEntry::new_value(26).to_hex(), "0x1A".to_string());
    assert_eq!(MemoryEntry::new_value(0).to_hex(), "0x0".to_string());
}

#[test]
fn entry_make_absolute_looks_up_offset() {
    let offsets: Vec<usize> = vec![0, 16];
    let entry = MemoryEntry::new_pointer(1);
    assert_eq!(entry.make_absolute(&offsets), "16".to_string());
}

#[test]
fn empty_sequence_leaves_empty_child_segment() {
    let mut m = DynamicMemory::new();
    m.write_array(Vec::<u64>::new());
    assert_eq!(m.serialize(), strings(&["1"]));
}

#[test]
fn empty_sequence_with_contexts() {
    let mut m = DynamicMemory::new();
    m.write_array_with(Vec::<u64>::new(), |i: usize| i as u64);
    assert_eq!(m.serialize(), strings(&["1"]));
}

#[test]
fn pointer_written_directly_resolves() {
    let mut m = DynamicMemory::new();
    m.write_pointer(0);
    assert_eq!(m.serialize(), strings(&["0"]));
}

#[test]
fn every_scalar_width_writes_one_cell() {
    let mut m = DynamicMemory::new();
    m.write_array(vec![7u8]);
    m.write_array(vec![9u32]);
    m.write_array(vec![11u64]);
    m.write_array(vec![13usize]);
    assert_eq!(
        m.serialize(),
        strings(&["4", "5", "6", "7", "0x7", "0x9", "0xB", "0xD"])
    );
}

#[test]
fn deep_nesting_keeps_references_valid() {
    let mut m = DynamicMemory::new();
    m.write_array(vec![vec![vec![1u64, 2u64]]]);
    assert_eq!(m.serialize(), strings(&["1", "2", "3", "0x1", "0x2"]));
}
