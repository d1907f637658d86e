//! Columnar, fixed-capacity storage for records that share one set of typed
//! fields. Each field type has a column of its own; a row is one value per
//! column. Values are held type-erased, as their bytes.

pub mod archtype;
pub mod component;
pub mod error;
pub mod layout;
pub mod model;
pub mod row;
pub mod teardown;

pub use archtype::{Archtype, ArchtypeOps};
pub use component::{Component, ComponentMeta, FieldValue};
pub use error::ArchtypeError;
pub use layout::Layout;
pub use model::ArchtypeView;
pub use teardown::{DestructorCall, Destruction};
