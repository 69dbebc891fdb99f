//! Access control for a project registry: parse the origin a request claims,
//! match it against a project's allow-lists, and decide whether an API key may
//! be used.

pub mod error;
pub mod laws;
pub mod origin;
pub mod project_data;
pub mod registry;
pub mod text;

pub use error::AccessError;
pub use origin::{Origin, OriginParseError};
pub use project_data::{
    OriginSource, PlanLimits, ProjectData, ProjectDataWithLimits, ProjectDataWithQuota,
    ProjectKey, Quota,
};
