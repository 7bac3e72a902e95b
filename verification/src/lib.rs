//! Core of an Odoo language server: XML data loading and validation, model
//! aggregation, function and variable symbols, and the cursor features built on them.
pub mod ast_call_laws;
pub mod ast_laws;
pub mod ast_nodes;
pub mod ast_utils;
pub mod bound_laws;
pub mod build_laws;
pub mod change_laws;
pub mod constants;
pub mod count_laws;
pub mod cursor_laws;
pub mod declaring_laws;
pub mod dependencies;
pub mod diagnostics;
pub mod evaluation;
pub mod fields;
pub mod file_info;
pub mod finding_laws;
pub mod function_laws;
pub mod function_symbol;
pub mod guards;
pub mod handles;
pub mod hover;
pub mod import_laws;
pub mod import_query;
pub mod listing_laws;
pub mod loading_laws;
pub mod lookup_laws;
pub mod menu_laws;
pub mod model;
pub mod model_changes;
pub mod model_laws;
pub mod model_reach;
pub mod model_walk;
pub mod names;
pub mod number_laws;
pub mod odoo;
pub mod order_laws;
pub mod relation_laws;
pub mod symbols;
pub mod table_laws;
pub mod text;
pub mod text_laws;
pub mod variable_symbol;
pub mod warning_laws;
pub mod workspace;
pub mod xml_arch_builder;
pub mod xml_arch_builder_rng_validation;
pub mod xml_data;
pub mod xml_declared;
pub mod xml_ids;
pub mod xml_laws;
pub mod xml_node;
pub mod xml_parse;
pub mod xml_validation;
pub mod xml_validation_laws;
