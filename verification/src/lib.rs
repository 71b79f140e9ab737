//! A verified tab layout engine for a terminal multiplexer: a tab owns a set
//! of rectangular panes that tile the viewport, and the engine performs
//! splits, directional resizes with neighbour cascades, focus movement,
//! fullscreen toggling, and pane closure with space reclamation.
pub mod close;
pub mod construct;
pub mod fmt;
pub mod focus;
pub mod fullscreen;
pub mod geom;
pub mod input;
pub mod laws;
pub mod layout;
pub mod pane;
pub mod queries;
pub mod render;
pub mod resize;
pub mod split;
pub mod tab;
