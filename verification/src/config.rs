//! The conversion parameter assembler: the single point where the
//! resolved index sets and the remaining user options converge into
//! the immutable configuration consumed by the external converter.
//! No resolution logic of its own.

use vstd::prelude::*;

use crate::model::{ByteOrder, Compressor, ConvertOptions};

verus! {

/// The fully-resolved parameter bundle for one conversion, consumed
/// exactly once by the external converter.
pub struct VtkConfig {
    /// Convert the error mesh alongside the results.
    pub include_errors: bool,
    /// Byte ordering of binary payloads.
    pub byte_order: ByteOrder,
    /// Compression method for xml payloads.
    pub compressor: Compressor,
    /// Angular resolution for cylindrical meshes, at least one.
    pub resolution: u8,
    /// Resolved energy bin indices to export.
    pub energy_groups: Vec<usize>,
    /// Resolved time bin indices to export.
    pub time_groups: Vec<usize>,
}

/// Composes the resolved index sets with the remaining user options:
/// errors are included unless excluded, the angular resolution
/// defaults to one, and the index sets are taken as resolved.
pub fn init_converter(opts: &ConvertOptions, energies: Vec<usize>, times: Vec<usize>) -> (c:
    VtkConfig)
    ensures
        c.include_errors == !opts.no_error,
        c.byte_order == opts.endian,
        c.compressor == opts.compressor,
        c.resolution == (match opts.resolution {
            Option::Some(r) => r,
            Option::None => 1u8,
        }),
        c.energy_groups@ == energies@,
        c.time_groups@ == times@,
{
    let resolution: u8 = match opts.resolution {
        Option::Some(r) => r,
        Option::None => 1,
    };
    VtkConfig {
        include_errors: !opts.no_error,
        byte_order: opts.endian,
        compressor: opts.compressor,
        resolution,
        energy_groups: energies,
        time_groups: times,
    }
}

} // verus!
