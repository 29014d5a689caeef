//! The commands.

pub mod inspect;
pub mod launch;
pub mod list;
pub mod login;
pub mod logout;
pub mod pull;
pub mod push;
pub mod readline;
pub mod rm;
pub mod run;
pub mod serve;
pub mod tag;
pub mod wait;
