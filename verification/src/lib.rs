pub mod events;
pub mod input_field;
pub mod kmp;
pub mod little_endian;
pub mod logger;
pub mod memory_address;
pub mod memory_editor;
pub mod memory_scanner;
pub mod scan_value;
pub mod title;
pub mod type_selector;
