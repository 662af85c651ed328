pub mod any_proc;
pub mod ball_procs;
pub mod block_procs;
pub mod casualty_procs;
pub mod formation_wings;
pub mod game_procs;
pub mod kickoff_procs;
pub mod movement_procs;
pub mod nuffle_prayers_procs;
pub mod procedure_tools;
pub mod setup_formation;

pub use any_proc::AnyProc;
