//! Screen ruler core: frozen screenshots, edge scanning around a cursor,
//! the overlay's interaction state, output detection and the tooltip font.

pub mod frame;
pub mod measure;
pub mod font;
pub mod probe;
pub mod session;
