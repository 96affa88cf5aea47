pub mod data;
pub mod env;
pub mod text;
pub mod render;
pub mod equality;
pub mod lists;
pub mod sets;
pub mod stack;
pub mod messages;
pub mod parse_state;
pub mod debug;
pub mod readback;
