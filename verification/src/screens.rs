pub mod screen;
