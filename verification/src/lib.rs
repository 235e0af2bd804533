//! A verified assembler for a small 8-bit virtual machine.
//!
//! Line-oriented assembly source is preprocessed into a normalized line
//! list, an alias table and a jump-label table with computed addresses;
//! each line is then encoded into the 16-bit machine word (or raw data
//! bytes) it denotes, rendered as uppercase hexadecimal digits.

pub mod chars;
pub mod errors;
pub mod numbers;
pub mod preprocess;
pub mod registers;
pub mod encode;
pub mod labels;
pub mod tokens;

pub use errors::AsmError;
pub use errors::ErrS;
pub use numbers::num;
pub use preprocess::preprocess;
pub use preprocess::scan_lines;
pub use registers::register;
pub use encode::decode;
pub use encode::decode_spec;
pub use labels::AliasLabel;
pub use labels::JumpLabel;
pub use labels::assign_addresses;
pub use labels::lemma_label_ranges_partition;
pub use labels::lemma_label_covers;
pub use tokens::tokens_of;
pub use tokens::normalize_line;
pub use chars::digit_of;
pub use chars::hex_val;
pub use chars::upper_seq;
