//! Merges single-component KiCad bundles into one master symbol library,
//! its documentation library, and the footprint and 3D-model asset folders.
//!
//! - `parser` reads the named blocks of a library text;
//! - `bundle` extracts one component from a bundle archive;
//! - `master` merges components into the master library and lists their assets;
//! - `assemble` writes a definition set back out as library text.
pub mod archive;
pub mod assemble;
pub mod bundle;
pub mod library;
pub mod master;
pub mod parser;
pub mod text;

pub use archive::Bundle;
pub use assemble::{assemble_library, DCM_FOOTER, DCM_HEADER, LIB_FOOTER, LIB_HEADER};
pub use bundle::{
    build_component, component_name_of, extract_component, footprint_name_of, open_bundle, pick_footprint,
    BundleError, Component,
};
pub use library::{Definition, DefinitionSet};
pub use master::{asset_files, AssetFile, AssetFolder, MasterLibrary};
pub use parser::{get_dcm_defs, get_lib_defs, parse_definitions, Grammar};
