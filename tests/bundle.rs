use kicad_loader::{
    asset_files, component_name_of, extract_component, footprint_name_of, open_bundle, pick_footprint,
    AssetFolder, BundleError, Component, MasterLibrary,
};
use std::io::{Cursor, Write};

const LIB: &str = "EESchema-LIBRARY Version 2.4\n#encoding utf-8\n#\n# R100\n#\nDEF R100 R 0 0 N Y 1 F N\nDRAW\nENDDRAW\nENDDEF\n#\n#End Library\n";
const R100_DEF: &str = "DEF R100 R 0 0 N Y 1 F N\nDRAW\nENDDRAW\nENDDEF";
const DCM: &str = "EESchema-DOCLIB  Version 2.0\n#\n$CMP R100\nD Resistor\n$ENDCMP\n#\n#End Doc Library\n";
const R100_CMP: &str = "$CMP R100\nD Resistor\n$ENDCMP";
const FOOTPRINT: &str = "(module R_0603 (layer F.Cu))\n";
const MODEL: &str = "ISO-10303-21;\nEND-ISO-10303-21;\n";

fn zip_of(entries: &[(&str, &str)]) -> Vec<u8> {
    let mut w = zip::ZipWriter::new(Cursor::new(Vec::new()));
    for (name, content) in entries {
        w.start_file(*name, zip::write::FileOptions::default()).unwrap();
        w.write_all(content.as_bytes()).unwrap();
    }
    w.finish().unwrap().into_inner()
}

fn extract(file_name: &str, entries: &[(&str, &str)]) -> Result<Component, BundleError> {
    let mut a = open_bundle(zip_of(entries)).unwrap();
    extract_component(file_name, &mut a)
}

#[test]
fn bundle_name_strips_prefix_and_suffix() {
    assert_eq!(component_name_of("LIB_R100.zip"), Some("R100".to_string()));
    assert_eq!(component_name_of("LIB_.zip"), Some(String::new()));
    assert_eq!(component_name_of("R100.zip"), None);
    assert_eq!(component_name_of("LIB_R100.tar"), None);
    assert_eq!(component_name_of("LIB.zip"), None);
}

#[test]
fn footprint_name_from_path() {
    assert_eq!(footprint_name_of("R100/pretty/RES_0603.kicad_mod"), "RES_0603");
    assert_eq!(footprint_name_of("top.kicad_mod"), "top");
    assert_eq!(footprint_name_of("a/b/.kicad_mod"), "");
}

#[test]
fn last_footprint_candidate_wins() {
    let names: Vec<String> = vec!["a.kicad_mod", "R/KiCad/R.lib", "b/c.kicad_mod", "d.txt"]
        .into_iter()
        .map(String::from)
        .collect();
    assert_eq!(pick_footprint(&names), Some(2));
    let none: Vec<String> = vec!["x.lib".to_string()];
    assert_eq!(pick_footprint(&none), None);
}

#[test]
fn full_bundle_extracts() {
    let c = extract(
        "LIB_R100.zip",
        &[
            ("R100/KiCad/R100.lib", LIB),
            ("R100/KiCad/R100.dcm", DCM),
            ("R100/3D/R100.stp", MODEL),
            ("R100/KiCad/RES_0603.kicad_mod", FOOTPRINT),
        ],
    )
    .unwrap();
    assert_eq!(c.name, "R100");
    assert_eq!(c.lib_def, R100_DEF);
    assert_eq!(c.dcm_def, R100_CMP);
    assert_eq!(c.model_file.as_deref(), Some(MODEL.as_bytes()));
    assert_eq!(c.footprint_file, FOOTPRINT.as_bytes());
    assert_eq!(c.footprint_name, "RES_0603");
}

#[test]
fn bundle_without_model_has_no_model_asset() {
    let c = extract(
        "LIB_R100.zip",
        &[("R100/KiCad/R100.lib", LIB), ("R100/KiCad/R100.dcm", DCM), ("R100/pretty/R100.kicad_mod", FOOTPRINT)],
    )
    .unwrap();
    assert!(c.model_file.is_none());
    let assets = asset_files(&c);
    assert_eq!(assets.len(), 1);
    assert!(assets.iter().all(|f| f.folder != AssetFolder::Models));
}

#[test]
fn footprint_asset_uses_its_own_name() {
    let c = extract(
        "LIB_R100.zip",
        &[("R100/KiCad/R100.lib", LIB), ("R100/KiCad/R100.dcm", DCM), ("R100/footprints/RESC1608X55N.kicad_mod", FOOTPRINT)],
    )
    .unwrap();
    let assets = asset_files(&c);
    assert_eq!(assets[0].folder, AssetFolder::Footprints);
    assert_eq!(assets[0].file_name, "RESC1608X55N.kicad_mod");
    assert_eq!(assets[0].content, FOOTPRINT.as_bytes());
}

#[test]
fn model_asset_uses_component_name() {
    let c = extract(
        "LIB_R100.zip",
        &[
            ("R100/KiCad/R100.lib", LIB),
            ("R100/KiCad/R100.dcm", DCM),
            ("R100/3D/R100.stp", MODEL),
            ("R100/x/F1.kicad_mod", FOOTPRINT),
        ],
    )
    .unwrap();
    let assets = asset_files(&c);
    assert_eq!(assets.len(), 2);
    assert_eq!(assets[1].folder, AssetFolder::Models);
    assert_eq!(assets[1].file_name, "R100.stp");
    assert_eq!(assets[1].content, MODEL.as_bytes());
}

#[test]
fn missing_symbol_library_fails() {
    let r = extract("LIB_R100.zip", &[("R100/KiCad/R100.dcm", DCM), ("R100/pretty/R100.kicad_mod", FOOTPRINT)]);
    assert_eq!(r.err(), Some(BundleError::MissingSymbolFile));
}

#[test]
fn missing_documentation_library_fails() {
    let r = extract("LIB_R100.zip", &[("R100/KiCad/R100.lib", LIB), ("R100/pretty/R100.kicad_mod", FOOTPRINT)]);
    assert_eq!(r.err(), Some(BundleError::MissingDocumentationFile));
}

#[test]
fn missing_footprint_fails() {
    let r = extract("LIB_R100.zip", &[("R100/KiCad/R100.lib", LIB), ("R100/KiCad/R100.dcm", DCM)]);
    assert_eq!(r.err(), Some(BundleError::MissingFootprint));
}

#[test]
fn symbol_of_other_name_fails() {
    let lib = "DEF R200 R 0 0\nENDDEF\n";
    let r = extract(
        "LIB_R100.zip",
        &[("R100/KiCad/R100.lib", lib), ("R100/KiCad/R100.dcm", DCM), ("R100/p/R100.kicad_mod", FOOTPRINT)],
    );
    assert_eq!(r.err(), Some(BundleError::SymbolNotFound));
}

#[test]
fn documentation_of_other_name_fails() {
    let dcm = "$CMP R200\n$ENDCMP\n";
    let r = extract(
        "LIB_R100.zip",
        &[("R100/KiCad/R100.lib", LIB), ("R100/KiCad/R100.dcm", dcm), ("R100/p/R100.kicad_mod", FOOTPRINT)],
    );
    assert_eq!(r.err(), Some(BundleError::DocumentationNotFound));
}

#[test]
fn bad_bundle_name_fails() {
    let r = extract("R100.zip", &[("R100/KiCad/R100.lib", LIB)]);
    assert_eq!(r.err(), Some(BundleError::BadBundleName));
}

#[test]
fn corrupt_archive_fails() {
    assert_eq!(open_bundle(b"not a zip archive".to_vec()).err(), Some(BundleError::CorruptArchive));
}

#[test]
fn entry_that_is_not_text_fails() {
    let mut w = zip::ZipWriter::new(Cursor::new(Vec::new()));
    for (name, content) in [("R100/KiCad/R100.lib", LIB.as_bytes()), ("R100/KiCad/R100.dcm", &[0xff, 0xfe, 0x00][..])] {
        w.start_file(name, zip::write::FileOptions::default()).unwrap();
        w.write_all(content).unwrap();
    }
    let mut a = open_bundle(w.finish().unwrap().into_inner()).unwrap();
    assert_eq!(extract_component("LIB_R100.zip", &mut a).err(), Some(BundleError::UnreadableEntry));
}

fn r100_entries<'a>() -> Vec<(&'a str, &'a str)> {
    vec![("R100/KiCad/R100.lib", LIB), ("R100/KiCad/R100.dcm", DCM), ("R100/pretty/R100.kicad_mod", FOOTPRINT)]
}

#[test]
fn end_to_end_single_bundle() {
    let mut master = MasterLibrary::load("EESchema-LIBRARY Version 2.4", "EESchema-DOCLIB  Version 2.0");
    let c = extract("LIB_R100.zip", &r100_entries()).unwrap();
    master.merge_component(&c);
    assert_eq!(
        master.lib_text(),
        format!("EESchema-LIBRARY Version 2.4\n#encoding utf-8\n#\n# R100\n#\n{}\n#\n#End Library", R100_DEF)
    );
    assert_eq!(
        master.dcm_text(),
        format!("EESchema-DOCLIB  Version 2.0\n#\n{}\n#\n#End Doc Library", R100_CMP)
    );
    let assets = asset_files(&c);
    assert_eq!(assets.len(), 1);
    assert_eq!(assets[0].folder, AssetFolder::Footprints);
    assert_eq!(assets[0].file_name, "R100.kicad_mod");
}

#[test]
fn merging_twice_equals_merging_once() {
    let c = extract("LIB_R100.zip", &r100_entries()).unwrap();
    let mut once = MasterLibrary::load("", "");
    once.merge_component(&c);
    let mut twice = MasterLibrary::load("", "");
    twice.merge_component(&c);
    twice.merge_component(&c);
    assert_eq!(once.lib_text(), twice.lib_text());
    assert_eq!(once.dcm_text(), twice.dcm_text());
    assert_eq!(twice.symbols.len(), 1);
}

#[test]
fn merge_overwrites_existing_entry() {
    let old_lib = "EESchema-LIBRARY Version 2.4\n#\n# R100\n#\nDEF R100 OLD 9 9 N Y 1 F N\nENDDEF\n#\n# C1\n#\nDEF C1 C 0 0\nENDDEF\n#\n#End Library";
    let old_dcm = "EESchema-DOCLIB  Version 2.0\n#\n$CMP R100\nD Old text\n$ENDCMP\n#\n#End Doc Library";
    let mut master = MasterLibrary::load(old_lib, old_dcm);
    assert_eq!(master.symbols.len(), 2);
    let c = extract("LIB_R100.zip", &r100_entries()).unwrap();
    master.merge_all(&vec![c]);
    let lib = master.lib_text();
    let dcm = master.dcm_text();
    assert!(!lib.contains("OLD"));
    assert!(!dcm.contains("Old text"));
    assert!(lib.contains(R100_DEF));
    assert!(lib.contains("DEF C1 C 0 0\nENDDEF"));
    assert!(dcm.contains(R100_CMP));
    assert_eq!(master.symbols.len(), 2);
    assert_eq!(master.docs.len(), 1);
}

#[test]
fn binary_model_is_kept_as_bytes() {
    let model: &[u8] = &[0x00, 0xff, 0x10, 0x80];
    let mut w = zip::ZipWriter::new(Cursor::new(Vec::new()));
    let entries: [(&str, &[u8]); 4] = [
        ("R100/KiCad/R100.lib", LIB.as_bytes()),
        ("R100/KiCad/R100.dcm", DCM.as_bytes()),
        ("R100/3D/R100.stp", model),
        ("R100/pretty/R100.kicad_mod", FOOTPRINT.as_bytes()),
    ];
    for (name, content) in entries {
        w.start_file(name, zip::write::FileOptions::default()).unwrap();
        w.write_all(content).unwrap();
    }
    let mut a = open_bundle(w.finish().unwrap().into_inner()).unwrap();
    let c = extract_component("LIB_R100.zip", &mut a).unwrap();
    assert_eq!(c.model_file.as_deref(), Some(model));
}

#[test]
fn same_bytes_give_same_component() {
    let data = zip_of(&r100_entries());
    let mut a = open_bundle(data.clone()).unwrap();
    let mut b = open_bundle(data).unwrap();
    let x = extract_component("LIB_R100.zip", &mut a).unwrap();
    let y = extract_component("LIB_R100.zip", &mut b).unwrap();
    assert_eq!((x.lib_def, x.dcm_def, x.footprint_file, x.footprint_name), (y.lib_def, y.dcm_def, y.footprint_file, y.footprint_name));
}
