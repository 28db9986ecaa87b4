//! Verified core of the Mjolnir modular builder: the 3MF mesh-library reader,
//! the selection of printable parts for a combination, the preview mesh
//! compaction and the contents of the exported Bambu-style 3MF package.

pub mod error;
pub mod export;
pub mod loader;
pub mod model;
pub mod preview;
pub mod selection;
pub mod text;

pub use selection::handle_style;
pub use text::escape_xml;
