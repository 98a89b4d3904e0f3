pub mod directory_reader;
pub mod enrichment;
pub mod error;
pub mod facade;
pub mod models;
pub mod path_reader;
pub mod scope;
pub mod text;
pub mod thumbcache_thumbnail_provider;
pub mod thumbnail_provider;
pub mod timestamp;
pub mod uri;
pub mod walkdir_reader;
pub mod windows_thumbnail_provider;
pub mod xdg_directory_reader;
pub mod xdg_thumbnail_provider;
