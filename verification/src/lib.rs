//! A schema-variable record store: a fixed set of generically typed "slots"
//! serves as the physical body of every record, and a metadata table maps
//! logical property names onto those slots, scoped per record-type code.
//!
//! - `common`: pagination and the error taxonomy.
//! - `value`: logical property/value maps and their mathematical view.
//! - `slot`: the fixed physical slots and their typed values.
//! - `meta`: mapping-definition rows and the store that owns them.
//! - `mapping`: resolving a code to its current property/slot mapping.
//! - `codec`: encoding logical maps into slots and decoding them back.
//! - `item`: record rows and the store that owns them.

pub mod codec;
pub mod common;
pub mod item;
pub mod mapping;
pub mod meta;
pub mod slot;
pub mod value;
