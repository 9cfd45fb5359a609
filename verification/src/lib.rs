//! Context-dependent Git identities, compiled to native Git conditional
//! includes.

pub mod acceptance;
pub mod app;
pub mod cli;
pub mod conduct;
pub mod config;
pub mod course;
pub mod diagnosis;
pub mod doctor;
pub mod file_io;
pub mod file_path;
pub mod git;
pub mod identity;
pub mod judgement;
pub mod number;
pub mod order;
pub mod paths;
pub mod profiles;
pub mod publication;
pub mod reading;
pub mod render;
pub mod run_status;
pub mod runs;
pub mod sorted_map;
pub mod status;
pub mod symptoms;
pub mod text;
pub mod turn;
pub mod values;
