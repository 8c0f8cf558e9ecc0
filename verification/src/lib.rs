//! Object attributes and the provider wire formats for listing, multipart
//! completion and tagging, with every conversion stated as a contract.

pub mod assoc;
pub mod attributes;
pub mod client;
pub mod error;
pub mod meta;
pub mod multipart;
pub mod path;

pub use attributes::Attribute;
pub use attributes::AttributeValue;
pub use attributes::Attributes;
pub use error::Error;
pub use path::Path;
pub use meta::ListResult;
pub use meta::ObjectMeta;
