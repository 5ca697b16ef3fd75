pub mod conceptual;
pub mod gol;
pub mod text;
pub mod since;
pub mod shooter;
pub mod hub;
pub mod server;
