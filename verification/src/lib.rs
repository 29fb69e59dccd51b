pub mod style;
pub mod tree;
pub mod reconciler;
pub mod reconcile_laws;
pub mod window_laws;
pub mod program;
pub mod routing;
pub mod messages;
pub mod controls;
