pub mod dio;
pub mod logic;
pub mod nio;
