pub mod controls;
pub mod frame;
pub mod kanji;
pub mod render_laws;
pub mod renderer;
pub mod rounding;
pub mod text;
pub mod url;
pub mod video;
