use vstd::prelude::*;

pub mod chars;
pub mod sanitize;
pub mod document;
pub mod template;
pub mod audit;
pub mod json;
pub mod layout;
pub mod scene;
pub mod ports;
pub mod diagram;
pub mod wires;
pub mod labels;
pub mod debug_split;
pub mod bundles;
pub mod connect;
pub mod node_data;
pub mod node_text;
