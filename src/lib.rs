pub mod dispatcher;
pub mod handler;
pub mod pump;
pub mod session;
pub mod terminal;
pub mod winsize;
