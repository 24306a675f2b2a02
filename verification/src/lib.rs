//! Text preparation and crawl geometry for rendering a text file as a
//! scrolling "opening crawl".

pub mod content;
pub mod crawl;
pub mod layout;
pub mod session;
pub mod stars;
pub mod text;
pub mod text_laws;
