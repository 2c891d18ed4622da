//! Routing, labelling and configuration logic of the Bridge audio mixer.

pub mod backend;
pub mod config;
pub mod dashboard;
pub mod diagnostics;
pub mod hw_device;
pub mod hw_sink;
pub mod idset;
pub mod level_meter;
pub mod order;
pub mod props;
pub mod pw_connection;
pub mod pw_config;
pub mod quick_switch;
pub mod role;
pub mod routing;
pub mod rule_builder;
pub mod shortcuts;
pub mod table;
pub mod routing_view;
pub mod test_tone;
pub mod text;
pub mod util;
pub mod volume;
