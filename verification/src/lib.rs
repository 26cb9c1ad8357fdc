//! MIME-type resolution: a database of (extension, content-type, encoding)
//! records, built once from flat text datasets and queried by filename,
//! extension, or content type.

pub mod db;
pub mod record;
mod table;
pub mod text;

pub use db::Db;
pub use db::lookup_by_content_type;
pub use db::lookup_by_extension;
pub use db::lookup_by_filename;
pub use record::Info;
pub use record::InfoView;
