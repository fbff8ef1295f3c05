//! Parameter types of a contract interface: the type model, the reader of
//! canonical type names, and the parsers of structured parameter objects.
use vstd::prelude::*;

pub mod error;
pub mod event_param;
pub mod fields;
pub mod laws;
pub mod node;
pub mod param_type;
pub mod reader;
pub mod tuple_param;
pub mod tuple_params;

pub use error::Error;
pub use event_param::EventParam;
pub use param_type::ParamType;
pub use node::Node;
pub use reader::Reader;
pub use tuple_param::TupleParam;
pub use tuple_params::TupleParams;
