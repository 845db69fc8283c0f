//! A verified codec for offset-addressed binary table formats.
//!
//! A single byte buffer holds many variable-shaped records that reference
//! each other through relative byte offsets.  The read side interprets such
//! a buffer without copying or panicking on malformed input; the write side
//! assembles an object graph back into one contiguous buffer, resolving
//! each deferred offset once the position of its target is known.

mod array;
mod cpal;
mod delta_codec;
mod error;
mod font_data;
mod font_file;
mod fvar;
mod name;
mod offset;
mod point_codec;
mod post;
mod scaler;
mod variations;
mod writer;

pub use array::U16Array;
pub use array::U32Array;
pub use array::half;
pub use array::saturating_add;
pub use array::subtract;
pub use cpal::ColorRecord;
pub use cpal::ColorRecordArray;
pub use cpal::Cpal;
pub use cpal::CpalMarker;
pub use cpal::compatible;
pub use delta_codec::PackedDeltaRun;
pub use delta_codec::decode_packed_deltas;
pub use delta_codec::encode_packed_deltas;
pub use delta_codec::lemma_delta_round_trip;
pub use delta_codec::lemma_empty_deltas_encode_empty;
pub use error::ReadError;
pub use font_data::Cursor;
pub use font_data::FontData;
pub use font_file::CollectionRef;
pub use font_file::FileRef;
pub use font_file::FontRef;
pub use font_file::TableDirectory;
pub use font_file::TableRecord;
pub use fvar::AxisInstanceArrays;
pub use fvar::Fixed;
pub use fvar::Fvar;
pub use fvar::InstanceRecord;
pub use fvar::MajorMinor;
pub use fvar::OffsetMarker;
pub use fvar::Tag;
pub use fvar::VariationAxisRecord;
pub use fvar::lemma_fvar_round_trip;
pub use fvar::read_fvar;
pub use name::CharIter;
pub use name::Encoding;
pub use name::Entry;
pub use name::LangTagRecord;
pub use name::Name;
pub use name::Name0;
pub use name::Name1;
pub use name::NameRecord;
pub use name::NameRecordArray;
pub use offset::Offset16;
pub use offset::Offset24;
pub use offset::Offset32;
pub use offset::resolve_nullable;
pub use offset::resolve_required;
pub use point_codec::PackedPointRun;
pub use point_codec::decode_packed_points;
pub use point_codec::encode_packed_points;
pub use point_codec::lemma_point_round_trip;
pub use post::Post;
pub use post::Post1_0;
pub use post::Post2_0;
pub use scaler::Blues;
pub use scaler::CffVersion;
pub use scaler::DictEntry;
pub use scaler::HintParams;
pub use scaler::SubfontState;
pub use scaler::TopDict;
pub use scaler::select_version;
pub use variations::PackedDeltas;
pub use variations::PackedPointNumbers;
pub use variations::RegionAxisCoordinates;
pub use variations::VariationRegion;
pub use variations::VariationRegionList;
pub use writer::DumpError;
pub use writer::FontWrite;
pub use writer::TableWriter;
pub use writer::ValidationCtx;
pub use writer::ValidationError;
pub use writer::dump_table;
