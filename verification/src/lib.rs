//! A hierarchical breadcrumb trail for terminal user interfaces: item and
//! separator models, truncation strategies, the layout engine that fits a trail
//! into a terminal width, the render planner, and the interactive selection and
//! hit-testing state.

pub mod geometry;
pub mod item;
pub mod layout_spec;
pub mod path;
pub mod properties;
pub mod render;
pub mod separator;
pub mod state;
pub mod strategy;
pub mod text;
pub mod truncate;
pub mod widget;

pub use item::BreadcrumbItem;
pub use path::from_path;
pub use separator::BreadcrumbSeparator;
pub use state::BreadcrumbState;
pub use strategy::TruncateStrategy;
pub use widget::Breadcrumb;
