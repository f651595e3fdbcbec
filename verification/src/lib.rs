//! Verified core of the ForgeHX peripheral-control stack.

pub mod aetherstream;
pub mod audio;
pub mod backends;
pub mod cli;
pub mod daemon;
pub mod device;
pub mod dsp;
pub mod firmware;
pub mod model;
pub mod openrgb;
pub mod order;
pub mod output_dsp;
pub mod pipewire;
pub mod ratbag;
pub mod services;
pub mod text;
