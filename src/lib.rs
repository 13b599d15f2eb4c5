//! Installs datasets described by a tree of remote indices, and reports on
//! them: which files to download and decode, how their bytes check against
//! the declared digests and sizes, and the citations of their publications.
pub mod bibtex;
pub mod cite;
pub mod configuration;
pub mod constants;
pub mod decode;
pub mod digest;
pub mod json_index;
pub mod remote;
pub mod text;
pub mod transfer;
pub mod types;
pub mod walker;

pub use configuration::Configuration;
pub use configuration::ConfigurationError;
pub use configuration::Mode;
pub use types::ActionError;
pub use types::CalculateSize;
pub use types::DecodePermits;
pub use types::DispatchDois;
pub use types::DownloadDoiPermits;
pub use types::DownloadIndexPermits;
pub use types::DownloadPermits;
pub use types::FilePermits;
pub use types::Force;
pub use types::Keep;
pub use types::Message;
pub use types::Pretty;
