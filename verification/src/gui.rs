pub mod checkpoints;
