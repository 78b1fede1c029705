//! Cut-gated histogramming of event records.
//!
//! A record maps variable names to 32-bit fixed-point values: integers at
//! whatever resolution the producer of the records has chosen. Binning and
//! region membership are scale free, so they are computed exactly on those
//! integers.
//!
//! - `data_blob`: one record.
//! - `histogram`: axes, binning, and histograms with their fill.
//! - `cut`: interval cuts and polygon cuts, with the even-odd walk.
//! - `lookup`: what it is to find a histogram or a cut by its identifier.
//! - `gating`: what one record does to a histogram behind its gating cuts.
//! - `manager`: the registry and its update cycle.
//! - `index`, `ident`, `error`: the identifier index, identifiers, errors.

pub mod cut;
pub mod data_blob;
pub mod error;
pub mod gating;
pub mod histogram;
pub mod ident;
pub mod index;
pub mod lookup;
pub mod manager;
