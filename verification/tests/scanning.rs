use machina::kmp::{kmp_search, prefix_function};
use machina::memory_address::{MatchError, MemoryAddress, SetValueError};
use machina::memory_editor::MemoryEditor;
use machina::memory_scanner::{is_scanned_mapping, MapKind, MemoryRegion, MemoryScanner, ScanError};
use machina::scan_value::{ScanSettings, ScanValue, ScanValueType};

#[test]
fn test_kmp() {
    let text = b"wdn ajubwdjawjd kabhello world dwa iodhwid ahwih";
    let addresses = MemoryScanner::kmp(
        text,
        &ScanValue::String("hello world".to_string()),
        1,
        0,
    );
    assert_eq!(addresses[0].address, 19);
}

#[test]
fn test_memory_scanner() {
    // A region of "memory" holding the searched string somewhere in the middle.
    let searched_string = "hello world";
    let mut bytes = vec![0u8; 64];
    bytes[23..34].copy_from_slice(searched_string.as_bytes());
    let mut ms = MemoryScanner::new();
    let sett = ScanSettings::new(42, ScanValue::String("hello world".to_string()));
    ms.first_scan(&sett, &vec![MemoryRegion { start: 0x1000, bytes: bytes.clone() }]);
    let found = ms.get_selected(Some(0)).expect("Nothing at index 0");
    let at = found.address - 0x1000;
    let read = &bytes[at..at + found.val_type.len()];
    assert_eq!(searched_string, String::from_utf8(read.to_vec()).unwrap());
}

#[test]
fn test_set_value() {
    let mut memory = b"xx hello world yy".to_vec();
    let mut ms = MemoryScanner::new();
    let sett = ScanSettings::new(7, ScanValue::String("hello world".to_string()));
    ms.first_scan(&sett, &vec![MemoryRegion { start: 0, bytes: memory.clone() }]);
    let found = ms.addresses()[0];
    assert_eq!(found.val_type, ScanValueType::String(11));
    let bytes = found
        .set_value(&ScanValue::String("world hello".to_string()))
        .expect("a string of the same length fits");
    memory[found.address..found.address + bytes.len()].copy_from_slice(&bytes);
    assert_eq!(&memory, b"xx world hello yy");
}

#[test]
fn kmp_finds_overlapping_matches() {
    assert_eq!(kmp_search(b"aaaa", b"aa"), vec![0, 1, 2]);
    assert_eq!(kmp_search(b"abababa", b"aba"), vec![0, 2, 4]);
    assert_eq!(kmp_search(b"abc", b"abcd"), Vec::<usize>::new());
    assert_eq!(kmp_search(b"", b"a"), Vec::<usize>::new());
    assert_eq!(kmp_search(b"xyzxyz", b"xyz"), vec![0, 3]);
}

#[test]
fn prefix_function_values() {
    assert_eq!(prefix_function(b"abab"), vec![0, 0, 1, 2]);
    assert_eq!(prefix_function(b"aabaaab"), vec![0, 1, 0, 1, 2, 2, 3]);
    assert_eq!(prefix_function(b""), Vec::<usize>::new());
}

#[test]
fn kmp_addresses_carry_offset_pid_and_type() {
    let memory = [1u8, 0, 0, 0, 7, 1, 0, 0, 0];
    let found = MemoryScanner::kmp(&memory, &ScanValue::DWord(1), 99, 0x4000);
    assert_eq!(
        found,
        vec![
            MemoryAddress::new(99, 0x4000, ScanValueType::DWord),
            MemoryAddress::new(99, 0x4005, ScanValueType::DWord),
        ]
    );
}

#[test]
fn first_scan_goes_region_after_region() {
    let mut ms = MemoryScanner::new();
    let sett = ScanSettings::new(3, ScanValue::Byte(9));
    let regions = vec![
        MemoryRegion { start: 100, bytes: vec![9, 1, 9] },
        MemoryRegion { start: 10, bytes: vec![] },
        MemoryRegion { start: 50, bytes: vec![0, 9] },
    ];
    ms.first_scan(&sett, &regions);
    let addrs: Vec<usize> = ms.addresses().iter().map(|a| a.address).collect();
    assert_eq!(addrs, vec![100, 102, 51]);
}

#[test]
fn next_scan_keeps_only_still_matching() {
    let mut ms = MemoryScanner::new();
    let sett = ScanSettings::new(3, ScanValue::Word(0x0102));
    ms.first_scan(&sett, &vec![MemoryRegion { start: 0, bytes: vec![2, 1, 2, 1, 0, 2, 1] }]);
    let addrs: Vec<usize> = ms.addresses().iter().map(|a| a.address).collect();
    assert_eq!(addrs, vec![0, 2, 5]);
    let reads = vec![Some(vec![2, 1]), None, Some(vec![2, 2])];
    assert_eq!(ms.check_next_scan(3), Ok(()));
    assert_eq!(ms.next_scan(&sett, &reads), Ok(()));
    let addrs: Vec<usize> = ms.addresses().iter().map(|a| a.address).collect();
    assert_eq!(addrs, vec![0]);
}

#[test]
fn next_scan_errors() {
    let mut ms = MemoryScanner::new();
    let sett = ScanSettings::new(3, ScanValue::Byte(1));
    assert_eq!(ms.check_next_scan(3), Err(ScanError::NoAddresses));
    assert_eq!(ms.next_scan(&sett, &vec![]), Err(ScanError::NoAddresses));
    ms.first_scan(&sett, &vec![MemoryRegion { start: 0, bytes: vec![1, 1] }]);
    let other = ScanSettings::new(4, ScanValue::Byte(1));
    assert_eq!(ms.check_next_scan(4), Err(ScanError::ProcessMismatch));
    assert_eq!(ms.next_scan(&other, &vec![None, None]), Err(ScanError::ProcessMismatch));
    assert_eq!(ms.addresses().len(), 2);
    ms.clear();
    assert_eq!(ms.addresses().len(), 0);
    assert_eq!(ms.get_selected(None), None);
}

#[test]
fn set_value_checks_string_length() {
    let pinned = MemoryAddress::new(1, 0x10, ScanValueType::String(3));
    assert_eq!(
        pinned.set_value(&ScanValue::String("abcd".to_string())),
        Err(SetValueError::StringTooLong)
    );
    assert_eq!(pinned.set_value(&ScanValue::String("ab".to_string())), Ok(b"ab".to_vec()));
    let word = MemoryAddress::new(1, 0x10, ScanValueType::Word);
    assert_eq!(word.set_value(&ScanValue::Word(0xbeef)), Ok(vec![0xef, 0xbe]));
}

#[test]
fn matches_compares_a_read() {
    let a = MemoryAddress::new(1, 0, ScanValueType::Word);
    assert_eq!(a.matches(&[1, 2], &[1, 0], 1), Err(MatchError::ReadCountMismatch));
    assert_eq!(a.matches(&[1, 2], &[1, 0], 2), Ok(false));
    assert_eq!(a.matches(&[1, 2], &[1, 2], 2), Ok(true));
}

#[test]
fn memory_editor_pins_once_and_unpins() {
    let mut editor = MemoryEditor::new();
    let a = MemoryAddress::new(1, 0x10, ScanValueType::Byte);
    let b = MemoryAddress::new(1, 0x20, ScanValueType::Word);
    editor.pin_address(a);
    editor.pin_address(b);
    editor.pin_address(a);
    assert_eq!(editor.pinned().len(), 2);
    assert_eq!(editor.get_selected(Some(1)), Some(b));
    editor.update_values(vec![Some(ScanValue::Byte(5)), None]);
    assert!(matches!(editor.pinned()[0].1, Some(ScanValue::Byte(5))));
    assert!(editor.pinned()[1].1.is_none());
    editor.unpin_selected(Some(0));
    assert_eq!(editor.pinned().len(), 1);
    assert_eq!(editor.get_selected(Some(0)), Some(b));
    editor.unpin_selected(None);
    assert_eq!(editor.pinned().len(), 1);
    assert_eq!(editor.get_selected(None), None);
}

#[test]
fn only_heap_stack_and_anonymous_mappings_are_scanned() {
    assert!(is_scanned_mapping(MapKind::Heap));
    assert!(is_scanned_mapping(MapKind::Stack));
    assert!(is_scanned_mapping(MapKind::Anonymous));
    assert!(!is_scanned_mapping(MapKind::Other));
}

#[test]
fn next_scan_on_unchanged_memory_keeps_everything() {
    let memory = vec![5u8, 0, 5, 5];
    let mut ms = MemoryScanner::new();
    let sett = ScanSettings::new(8, ScanValue::Byte(5));
    ms.first_scan(&sett, &vec![MemoryRegion { start: 0x10, bytes: memory.clone() }]);
    let before: Vec<MemoryAddress> = ms.addresses().clone();
    let reads: Vec<Option<Vec<u8>>> = before
        .iter()
        .map(|a| Some(memory[a.address - 0x10..a.address - 0x10 + 1].to_vec()))
        .collect();
    assert_eq!(ms.next_scan(&sett, &reads), Ok(()));
    assert_eq!(ms.addresses(), &before);
    assert_eq!(before.len(), 3);
    // and again: still everything
    assert_eq!(ms.next_scan(&sett, &reads), Ok(()));
    assert_eq!(ms.addresses(), &before);
}

#[test]
fn start_only_shifts_addresses() {
    let memory = b"xxabyyabzz";
    let from_zero = MemoryScanner::kmp(memory, &ScanValue::Word(0x6261), 5, 0);
    let from_start = MemoryScanner::kmp(memory, &ScanValue::Word(0x6261), 5, 0x7000);
    assert_eq!(from_zero.len(), 2);
    assert_eq!(from_zero.len(), from_start.len());
    for (a, b) in from_zero.iter().zip(from_start.iter()) {
        assert_eq!(a.address + 0x7000, b.address);
    }
}
