pub mod text;
pub mod clock;
pub mod crypto;
pub mod embeddings;
pub mod paths;
pub mod places;
pub mod viewing;
pub mod window_rules;
pub mod storage;
pub mod git_share;
pub mod keyed;
pub mod layout;
pub mod note_lock;
