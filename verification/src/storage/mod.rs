pub mod db;
pub mod folders;
pub mod ring_buffer;
pub mod rollup;
pub mod calendar;
