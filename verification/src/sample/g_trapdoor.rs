//! Gadget trapdoors: a public matrix `A` that looks uniform, together with a
//! short secret matrix `R` through which `A` factors into the gadget matrix.

pub mod gadget_classical;
pub mod gadget_default;
pub mod gadget_parameters;
pub mod gadget_ring;
pub mod short_basis_classical;
pub mod trapdoor_distribution;
