//! Reader for the REZ legacy archive container format: a header-format
//! detector tolerating several historical encodings, and a recursive
//! directory-block decoder that reconstructs the resource tree under
//! byte-exact framing and validation rules, all proved against a
//! mathematical statement of the format.

use vstd::prelude::*;

mod cursor;
mod entries;
mod error;
mod extract;
mod glob;
mod header;
mod laws;
mod smallbuf;
mod text;

pub use cursor::{nul_pos, u32_le_at, ByteCursor};
pub use entries::{
    entries_match, entry_matches, file_matches, read_directory_entries_recursive, spec_entry_name,
    spec_entry_type, spec_read_block, spec_read_entries, spec_read_file, Directory, Entry,
    EntryHeader, EntrySpec, EntryType, File, FileSpec, Resource, MAX_DIRECTORY_DEPTH,
};
pub use error::{Error, ErrorSpec, ENCODE_VALUE_XOR, HEAD_TAIL_XOR};
pub use extract::{chunk_plan, chunk_sum, EXTRACT_CHUNK_SIZE};
pub use glob::{
    glob_body, glob_char_regex, glob_pattern_to_regex, glob_regex_string, matches_any,
    regex_compiles, regex_matches, regex_pattern, should_extract, spec_glob_regex, star_matcher,
    star_run,
};
pub use laws::{
    header_prefix_ok, keys_bytes, lemma_block_round_trip, lemma_encoded_detect_head_mismatch,
    lemma_encoded_detect_tail_mismatch, lemma_encoded_value_mismatch, lemma_entries_round_trip,
    lemma_eof_marker_v1_fields, lemma_eof_marker_v2_fields, lemma_nul_pos_value,
    lemma_out_of_bounds_block_fails, lemma_u32_le_at_of_bytes, lemma_unknown_entry_type_fails,
    no_nul, u32_le_bytes, wire_entries_bytes, wire_entries_wf, wire_entry_bytes,
    wire_entry_laid_out, wire_entry_wf, wire_laid_out, wire_model, wire_models, WireEntry,
};
pub use header::{
    ctrl_ok, dec_value, header_matches, is_dec_digits, parse_u32_bytes, parse_u32_decimal,
    spec_read_header, FileHeader, HeaderParse, HeaderSpec,
};
pub use smallbuf::{tb_bytes, TextBuf};
pub use text::{
    iso88591_bytes_to_string, legacy_decode, seq_without_leading_byte, seq_without_trailing_byte,
    without_leading_zero_bytes, without_trailing_spaces, without_trailing_zero_bytes,
};

verus! {

} // verus!
