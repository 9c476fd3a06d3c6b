pub mod constants;
pub mod dependency;
pub mod text;
pub mod util;
pub mod event;
pub mod rect;
pub mod ast_fn_arg;
pub mod ast_mod;
pub mod ast_resolve;
pub mod ast_crate;
pub mod ast_paths;
pub mod ast_items;
pub mod ast_item_list;
pub mod ast_system;
pub mod system_data;
pub mod ast_file;
pub mod ast_attrs;
pub mod data_grammar;
pub mod str_set;
pub mod codegen_system;
pub mod decoder;
pub mod ast_pathing;
pub mod ast_validate;
pub mod intersect;
pub mod codegen_mods;
pub mod engine_paths;
pub mod codegen;
pub mod system_code;
pub mod items_parse;
pub mod crate_scan;
pub mod mod_visit;
pub mod assets;
pub mod code_format;
pub mod data_roundtrip;
pub mod source_read;
pub mod source_build;
pub mod ast_use;
pub mod resolve_check;
pub mod ident;
pub mod entry_code;
