//! Terminal weather forecast: the verified core of `meteo`.

pub mod calendar;
pub mod cli;
pub mod color;
pub mod display;
pub mod fake;
pub mod forecast;
pub mod graph;
pub mod text;
pub mod weather;
