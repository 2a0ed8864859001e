//! A three-pane terminal file browser core: directory listings sorted by
//! name, a keystroke-driven navigation state machine, and a compositor that
//! turns listings into the exact escape-sequence text of a full repaint.
pub mod order;
pub mod path;
pub mod entry;
pub mod listing;
pub mod nav;
pub mod screen;
