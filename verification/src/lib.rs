//! Front-end analysis of the Cync language: lexing, routes and module
//! skeletons, global name and alias resolution, module merging and the
//! elementary shape lattice used by shape resolution.

pub mod cell;
pub mod strings;
pub mod route;
pub mod text_order;
pub mod route_tree;
pub mod keyed;
pub mod parsed;
pub mod elementary_shape;
pub mod name_errors;
pub mod merge_errors;
pub mod analyze_error;
pub mod ast;
pub mod def_signature;
pub mod route_root_table;
pub mod dependency_graph;
pub mod module_merge;
pub mod merge_laws;
pub mod module_skeleton;
pub mod lookup_canonical_route;
pub mod shape_errors;
pub mod shape_keys;
pub mod shape_data;
pub mod computable_shape;
pub mod shape_summary;
pub mod alias_resolution;
pub mod skeleton_build;
pub mod shape_build;
pub mod realize;
pub mod subshape;
pub mod display;
pub mod shape_check;
pub mod lookup_route;
pub mod lexer;
pub mod type_description;
pub mod bind_shape;
pub mod function_description;
pub mod content_build;
pub mod room;
pub mod contents;
