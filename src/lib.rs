//! Plots of numeric lists kept in a data store.
//!
//! A request names the lists to plot and how (`params`); the store's values
//! become series of points (`extract`); a drawn image travels as bytes with
//! its size in front (`bitmap`). Requests that follow their lists are served
//! by a render loop (`dispatcher`), which a change of a list reaches through
//! the table of subscriptions (`registry`).

pub mod argparse;
pub mod bitmap;
pub mod dispatcher;
pub mod echo;
pub mod extract;
pub mod laws;
pub mod numeric;
pub mod params;
pub mod registry;
mod table;
