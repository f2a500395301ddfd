pub mod bloatware;
pub mod bsod;
pub mod cleanup;
pub mod cleanup_walk;
pub mod diskhealth;
pub mod drivers;
pub mod text;
