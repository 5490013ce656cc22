//! An established connection: its state, and the tasks that keep it going.

pub mod background;
pub mod state;
