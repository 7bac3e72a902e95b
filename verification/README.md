# odoo_ls_core

The core of a language server for Odoo, written in Rust and verified with Verus.

- XML data files: `xml_parse` builds the tree of a document, `xml_arch_builder` and
  `xml_arch_builder_rng_validation` apply the structural rules and register XML IDs, `xml_ids`
  looks them up, `xml_validation` checks models and fields.
- Models: `model`, `model_walk`, `model_reach` and `model_changes` gather the classes of a model,
  follow inheritance and tell dependents of changes; `fields` gathers the fields of a class.
- Symbols: `symbols`, `function_symbol`, `variable_symbol` and `evaluation`, in the tables of
  `odoo`, which `workspace` fills. `handles` holds the weak sets and maps, `names` the maps keyed
  by name, and `guards` what callers test before a build step.
- Cursor: `ast_nodes` finds what a cursor stands on, `import_query` what an import asks for,
  `ast_utils` says what has to be resolved next, `hover` what a hover describes.

What holds of several functions together is proved in `xml_laws`, `xml_declared`,
`xml_validation_laws`, `model_laws`, `table_laws`, `ast_laws`, `ast_call_laws` and beside the
functions themselves.

`app/` connects the library with the parser's syntax trees and the protocol's types.
