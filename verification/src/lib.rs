#![allow(unused_imports)]

pub mod config;
pub mod weights;
pub mod slots;
pub mod factored;
pub mod params;
pub mod noise;
pub mod draws;
pub mod text;
pub mod npy;
pub mod npy_write;
pub mod npz;
pub mod archive;
pub mod names;
pub mod store;
pub mod loader;
pub mod alloc_sizes;
pub mod pool;
pub mod pool_report;
pub mod tables;
pub mod streams;
pub mod options;
pub mod schedule;
pub mod es_plan;
pub mod net;
pub mod meaning;
pub mod values;
pub mod shapes;
pub mod init;
pub mod calibrate;
pub mod epochs;
pub mod es_run;
pub mod train_plan;
pub mod report;
pub mod paper;
pub mod noise32;
pub mod pool_text;
