pub mod decoder;
pub mod engine;
pub mod equalizer;
pub mod library;
pub mod metadata;
pub mod paths;
pub mod playlist;
pub mod queue;
pub mod settings;
pub mod text;
