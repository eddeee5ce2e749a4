//! Resolution of an editor's layered configuration: a global and a local document, each with a
//! theme, key overrides, an editor-settings tree and per-language blocks, resolved into one
//! configuration with per-language overrides.
pub mod config;
pub mod editor;
pub mod keymap;
pub mod raw;
pub mod value;

pub use config::{Config, ConfigLoadError};
pub use editor::{CursorKind, CursorShapeConfig, EditorConfig};
pub use keymap::{default_keymap, merge_keys, Binding, KeyTrie, Keymap, Mode};
pub use raw::{ConfigRaw, LanguageConfigRaw};
pub use value::{merge_toml_values, Setting};
