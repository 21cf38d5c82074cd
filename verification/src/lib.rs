pub mod candidate;
pub mod chooser;
pub mod codec;
pub mod lines;
pub mod rank;
pub mod resolve;
pub mod run;
pub mod session;
pub mod store;
pub mod text;
