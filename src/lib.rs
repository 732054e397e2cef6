//! Unit simulation core: a spatial index over grid cells, local-avoidance
//! steering, per-role goal state machines and rectangle selection.
//!
//! All geometry is integer fixed point: a host picks a length unit (for
//! example a thousandth of a world unit) and a time unit of milliseconds.
pub mod geom;
pub mod lumberjack;
pub mod selection;
pub mod soldier;
pub mod spatial;
pub mod steering;
pub mod targets;
