use std::collections::HashMap;

use batch_image_splitter::{
    cell_file_name, decimal_string, resolve, resolve_all, stem_or_default, xor_bytes, xor_cipher,
    BatchResult, LineKind, LinePos, SplitConfig,
};

#[test]
fn record_reports_each_completion_once() {
    let outcomes = [true, false, true, true, false, false, true];
    let mut result = BatchResult::new();
    let mut reported = Vec::new();
    for &ok in &outcomes {
        reported.push(result.record(ok));
    }
    assert_eq!(reported, vec![1, 2, 3, 4, 5, 6, 7]);
    assert_eq!(result, BatchResult { processed: 4, failed: 3 });
}

#[test]
fn from_outcomes_counts_failures() {
    assert_eq!(BatchResult::from_outcomes(&vec![]), BatchResult { processed: 0, failed: 0 });
    assert_eq!(
        BatchResult::from_outcomes(&vec![false, false, true]),
        BatchResult { processed: 1, failed: 2 }
    );
    assert_eq!(
        BatchResult::from_outcomes(&vec![true; 10]),
        BatchResult { processed: 10, failed: 0 }
    );
}

#[test]
fn override_takes_precedence_only_for_its_image() {
    let mut global = SplitConfig::new(2, 2);
    let custom = SplitConfig::new(4, 1);
    let mut overrides = HashMap::new();
    overrides.insert(2usize, custom.clone());
    assert_eq!(resolve(2, &overrides, &global).rows, 4);
    for i in [0usize, 1, 3] {
        assert_eq!(resolve(i, &overrides, &global).rows, 2);
    }
    global.add_line(LineKind::Horizontal, LinePos::from_fraction(1, 4).unwrap());
    for i in [0usize, 1, 3] {
        let c = resolve(i, &overrides, &global);
        assert_eq!(c.rows, 3);
        assert_eq!(c.h_lines.len(), 2);
    }
    let c = resolve(2, &overrides, &global);
    assert_eq!(c.rows, 4);
    assert_eq!(c.h_lines, custom.h_lines);
}

#[test]
fn resolve_all_snapshots_configs() {
    let mut global = SplitConfig::new(2, 1);
    let mut overrides = HashMap::new();
    overrides.insert(1usize, SplitConfig::new(1, 3));
    let snapshot = resolve_all(3, &overrides, &global);
    global.reset_to_default();
    global.rows = 7;
    global.reset_to_default();
    assert_eq!(snapshot.len(), 3);
    assert_eq!(snapshot[0].rows, 2);
    assert_eq!(snapshot[0].h_lines.len(), 1);
    assert_eq!(snapshot[1].cols, 3);
    assert_eq!(snapshot[1].v_lines.len(), 2);
    assert_eq!(snapshot[2].rows, 2);
}

#[test]
fn cell_names_count_from_one() {
    assert_eq!(cell_file_name("x", 0, 1), "x_1_2.jpg");
    assert_eq!(cell_file_name("scan 07", 9, 10), "scan 07_10_11.jpg");
    assert_eq!(cell_file_name("", 0, 0), "_1_1.jpg");
}

#[test]
fn decimal_strings() {
    assert_eq!(decimal_string(0), "0");
    assert_eq!(decimal_string(7), "7");
    assert_eq!(decimal_string(10), "10");
    assert_eq!(decimal_string(1234509), "1234509");
    assert_eq!(decimal_string(usize::MAX), usize::MAX.to_string());
}

#[test]
fn missing_stem_becomes_image() {
    assert_eq!(stem_or_default(None), "image");
    assert_eq!(stem_or_default(Some("cat")), "cat");
}

#[test]
fn xor_cipher_reveals_hidden_text() {
    let hidden: Vec<u8> = "sevencn.com".bytes().map(|b| b ^ 0x5A).collect();
    assert_eq!(hidden, vec![41, 63, 44, 63, 52, 57, 52, 116, 57, 53, 55]);
    assert_eq!(xor_cipher(&hidden, 0x5A), "sevencn.com");
    let label = [191u8, 230, 218, 188, 224, 202, 191, 198, 234, 191, 199, 218, 181, 230, 192];
    assert_eq!(xor_cipher(&label, 0x5A), "开源地址：");
}

#[test]
fn xor_cipher_replaces_invalid_utf8() {
    assert_eq!(xor_cipher(&[0xFF ^ 0x11, b'a' ^ 0x11], 0x11), "\u{FFFD}a");
    assert_eq!(xor_cipher(&[], 0x5A), "");
}

#[test]
fn xor_bytes_twice_restores_data() {
    let data = vec![0u8, 1, 127, 128, 255];
    let once = xor_bytes(&data, 0xA5);
    assert_eq!(once, vec![0xA5, 0xA4, 0xDA, 0x25, 0x5A]);
    assert_eq!(xor_bytes(&once, 0xA5), data);
}
