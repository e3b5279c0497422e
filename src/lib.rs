//! Generation and validation of legacy product keys (the normal CD key, the long
//! CD key and the OEM key), all built on the "mod7" digit-sum checksum.

pub mod checksum;
pub mod generate;
pub mod text;
pub mod validate;
