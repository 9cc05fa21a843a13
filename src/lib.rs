//! Normalisation of interface-description parameter records into typed
//! parameters, with the tuple components of a record substituted into its
//! resolved type.

pub mod laws;
pub mod param;
pub mod param_type;
pub mod reader;

pub use param::{resolve, Error, Field, FieldName, Param, Record};
pub use param_type::{ParamType, TypeModel};
pub use reader::read_param_type;
