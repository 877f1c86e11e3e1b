//! Verified core of the PRATMO photochemical box model: the fixed-format
//! text handling of its input files, the species-slot layout of the
//! implicit radicals, the iodine reaction table, and the small integer
//! bookkeeping that the model drivers share.
use vstd::prelude::*;

pub mod blocks;
pub mod climatology;
pub mod columns;
pub mod control;
pub mod densities;
pub mod format;
pub mod hunt;
pub mod iodine;
pub mod lines;
pub mod listing;
pub mod model;
pub mod newatm;
pub mod pathreport;
pub mod placement;
pub mod profiles;
pub mod rates;
pub mod report;
pub mod roundtrip;
pub mod runconfig;
pub mod spectral;
pub mod species;
pub mod stoich;
pub mod text;

verus! {

/// 0-based storage index of a 1-based Fortran species number.
pub fn idx(ni: usize) -> (r: usize)
    requires
        ni >= 1,
    ensures
        r == ni - 1,
{
    ni - 1
}

} // verus!
