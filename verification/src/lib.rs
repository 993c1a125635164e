pub mod text;
pub mod subtitle;
pub mod codec;
pub mod options;
pub mod output;
pub mod settings;
pub mod command;
pub mod store;
pub mod queue;
pub mod media;
pub mod tools;
pub mod clock;
