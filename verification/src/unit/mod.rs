//! Unit files: names, the INI layer, and the typed form of every section.

pub mod calendar;
pub mod condition;
pub mod deps;
pub mod duration;
pub mod entries;
pub mod env;
pub mod error;
pub mod exec;
pub mod inet;
pub mod ini;
pub mod install;
pub mod layers;
pub mod linux_only;
pub mod load;
pub mod measures;
pub mod name;
pub mod name_map;
pub mod name_set;
pub mod parse_path;
pub mod parse_service;
pub mod parse_socket;
pub mod parse_timer;
pub mod path_directives;
pub mod path_unit;
pub mod places;
pub mod quoting;
pub mod round_trip;
pub mod search;
pub mod service;
pub mod service_directives;
pub mod socket;
pub mod socket_directives;
pub mod spelling;
pub mod spec;
pub mod target;
pub mod timer;
pub mod timer_directives;
pub mod tolerance;
pub mod unit_directives;
pub mod values;
pub mod words;
