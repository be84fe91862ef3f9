pub mod battery_task;
pub mod cli;
pub mod cpu_paths;
pub mod linux_power;
pub mod parser;
pub mod power_task;
pub mod temp_map;
pub mod text;
pub mod types;
