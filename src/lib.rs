//! Mempool censorship watch: a tracker of pending transactions with a rolling
//! priority-fee distribution, and a detector that scores long-waiting,
//! well-paying transactions as plausibly censored.
pub mod clock;
pub mod types;
pub mod config;
pub mod score;
pub mod fees;
pub mod state;
pub mod detector;
