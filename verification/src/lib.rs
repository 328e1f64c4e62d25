pub mod app;
pub mod debug;
pub mod eval;
pub mod json;
pub mod option;
pub mod parser;
pub mod render;
pub mod schema;
pub mod state;
pub mod string_map;
pub mod text;
pub mod writer;

pub use app::{App, AppMode, ConfirmKind, Flow, Key, ListItem, Screen};
pub use eval::{demo_options, NixEvaluator};
pub use json::{JsonNumber, JsonValue};
pub use option::{FloatText, NixOption, OptionType, OptionValue};
pub use parser::{FlakeParser, HostnameError};
pub use schema::{top_level_category, SchemaStore};
pub use state::{ConfigState, Edit, StateError};
pub use string_map::StringMap;
pub use writer::{
    apply_changes_to_source, generate_managed_block, minimal_configuration,
    minimal_configuration_with_block, minimal_flake, value_to_nix, FlakeWriter,
};
