pub mod clock;
pub mod commands;
pub mod frame_context;
pub mod input_server;
pub mod screen_server;
