//! Badge generation for Rust project metrics, built around a verified
//! marker-delimited text-region patcher.

pub mod args;
pub mod badge;
pub mod decimal;
pub mod laws;
pub mod metrics;
pub mod patcher;
pub mod readme;

pub use args::Args;
pub use badge::create_badge;
pub use badge::format_size;
pub use metrics::Metrics;
pub use metrics::binary_name_from_metadata;
pub use metrics::count_unique_deps;
pub use metrics::generate_badges;
pub use patcher::Boundary;
pub use patcher::BoundaryMode;
pub use patcher::LocateError;
pub use patcher::Patch;
pub use patcher::PatchError;
pub use patcher::Side;
pub use patcher::apply;
pub use patcher::locate;
pub use readme::update_badge_region;
