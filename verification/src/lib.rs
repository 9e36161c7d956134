//! Verified core of a desktop front end that manages kcptun client
//! processes: one instance per configuration file, the settings file that
//! lists them, and the decisions the user interface takes on each event.

pub mod text;
pub mod uid;
pub mod cmd;
pub mod instance;
pub mod settings;
pub mod control;
pub mod tab;
pub mod laws;
