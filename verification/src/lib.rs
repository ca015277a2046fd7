//! Translation mod core for a mobile game's IL2CPP runtime: reading the
//! encrypted script bundles, the game's obscured strings, the translation
//! tables, and the decisions its runtime hooks make.
pub mod bundle;
pub mod crypto;
pub mod hooks;
pub mod newest;
pub mod obscured;
pub mod text;
pub mod translations;
pub mod utf16;
