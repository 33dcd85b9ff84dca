//! The decisions of a OneDrive folder's synchronisation, verified.

pub mod activity;
pub mod baloo;
pub mod calendar;
pub mod clock;
pub mod dbus;
pub mod disk;
pub mod graph_source;
pub mod helper;
pub mod helper_status;
pub mod hub;
pub mod listing;
pub mod local;
pub mod os;
pub mod path;
pub mod sorted;
pub mod text;
pub mod tree;
