//! Gadgets: operations that a circuit does not have as a single constraint.
//!
//! [`modular`] divides with remainder. [`range`] writes a value in bits and
//! bounds it so.

pub mod modular;
pub mod range;
