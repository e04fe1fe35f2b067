pub mod history;
pub mod text;
pub mod colors;
pub mod layout;
pub mod network;
pub mod disk;
pub mod memory;
pub mod cpu;
pub mod uptime;
pub mod controls;
pub mod graphs;
pub mod render;
pub mod sections;
