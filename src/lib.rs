pub mod backend;
pub mod registry;
pub mod algorithms;
pub mod health;
pub mod load_balancer;
pub mod config;
pub mod handlers;
