//! Plain-value model of the mesh metadata and the user's conversion
//! options. The mesh itself (voxel data, bin edges) lives with an
//! external collaborator; the resolution logic only ever reads the
//! bin counts, the geometry kind and the tally identifier, so those
//! are carried here as plain values.

use vstd::prelude::*;

verus! {

/// Spatial layout of a mesh: determines the output grid kind.
#[derive(Clone, Copy, Debug, PartialEq, Eq, Structural)]
pub enum Geometry {
    Rectangular,
    Cylindrical,
}

/// Output file format for the visual toolkit payload.
#[derive(Clone, Copy, Debug, PartialEq, Eq, Structural)]
pub enum VtkFormat {
    Xml,
    LegacyAscii,
    LegacyBinary,
}

/// Byte ordering of binary payloads.
#[derive(Clone, Copy, Debug, PartialEq, Eq, Structural)]
pub enum ByteOrder {
    BigEndian,
    LittleEndian,
}

/// Compression method for xml payloads.
#[derive(Clone, Copy, Debug, PartialEq, Eq, Structural)]
pub enum Compressor {
    Lzma,
    Lz4,
    Zlib,
    NoCompression,
}

/// An energy or time group: either a specific physical value or the
/// synthetic aggregate "Total" bin.
///
/// The physical value is carried as an order-preserving integer key
/// (the caller maps each real-valued magnitude to a key so that key
/// order agrees with numeric order); the resolution logic only ever
/// compares and deduplicates values, so the key is all it needs.
#[derive(Clone, Copy, Debug, PartialEq, Eq, Structural)]
pub enum Group {
    Value(u64),
    Total,
}

/// Ordering on groups: values by their key, with Total sorting last.
pub open spec fn group_le(a: Group, b: Group) -> bool {
    match (a, b) {
        (Group::Value(x), Group::Value(y)) => x <= y,
        (Group::Value(_), Group::Total) => true,
        (Group::Total, Group::Value(_)) => false,
        (Group::Total, Group::Total) => true,
    }
}

/// The mesh metadata that resolution and naming read.
///
/// Each bin count includes the aggregate "Total" bin as its last
/// index, so both counts are at least one.
#[derive(Clone, Copy, Debug)]
pub struct MeshInfo {
    pub energy_bin_count: usize,
    pub time_bin_count: usize,
    pub tally_id: u32,
    pub geometry: Geometry,
}

impl MeshInfo {
    /// Well-formedness: both dimensions hold at least the Total bin.
    pub open spec fn wf(&self) -> bool {
        self.energy_bin_count >= 1 && self.time_bin_count >= 1
    }
}

/// The user-supplied options that drive resolution, naming and the
/// conversion configuration.
#[derive(Debug)]
pub struct ConvertOptions {
    /// Keep only the aggregate "Total" bin of each dimension.
    pub total: bool,
    /// Read filter tokens as physical values rather than bin indices.
    pub absolute: bool,
    /// Raw filter tokens for the energy dimension.
    pub energy: Vec<String>,
    /// Raw filter tokens for the time dimension.
    pub time: Vec<String>,
    /// Leave the error mesh out of the output.
    pub no_error: bool,
    /// Byte ordering of the output payload.
    pub endian: ByteOrder,
    /// Compression method for xml output.
    pub compressor: Compressor,
    /// Angular resolution for cylindrical meshes, at least one when given.
    pub resolution: Option<u8>,
    /// Base name for the output file, extension excluded.
    pub output: String,
    /// Output file format.
    pub format: VtkFormat,
}

} // verus!
