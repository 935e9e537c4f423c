pub mod text;
pub mod model;
pub mod control;
pub mod main_ini;
pub mod values;
pub mod value_expr;
pub mod replacements;
pub mod config;
pub mod paths;
pub mod definition;
pub mod versions;
pub mod requirements;
pub mod apply;
pub mod storage;
pub mod remote;
pub mod presets;
pub mod instances;
pub mod components;
pub mod archive;
