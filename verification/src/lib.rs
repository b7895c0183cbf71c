//! Verified core of a terminal dashboard for amateur radio operators:
//! parsing of the solar feed, news headlines, satellite element sets,
//! and the decisions behind the terminal and web displays.
#![allow(unused_imports)]

pub mod text;
pub mod solar;
pub mod news;
pub mod satellite;
pub mod weather;
pub mod display;
pub mod tui;
