pub mod reader;
pub mod version;
pub mod song;
pub mod slots;
pub mod placement;
pub mod mapping;
pub mod discovery;
pub mod remapper;
pub mod commit;
pub mod laws;
pub mod text;
pub mod settings;
pub mod chord;
