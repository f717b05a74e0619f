use kicad_loader::{assemble_library, get_dcm_defs, get_lib_defs, DefinitionSet, Grammar};

#[test]
fn empty_symbol_library_text() {
    let set = DefinitionSet::new();
    assert_eq!(
        assemble_library(&set, Grammar::Symbol),
        "EESchema-LIBRARY Version 2.4\n#encoding utf-8\n#\n#End Library"
    );
}

#[test]
fn empty_documentation_library_text() {
    let set = DefinitionSet::new();
    assert_eq!(assemble_library(&set, Grammar::Documentation), "EESchema-DOCLIB  Version 2.0\n#\n#End Doc Library");
}

#[test]
fn symbol_entries_are_framed_in_order() {
    let mut set = DefinitionSet::new();
    set.insert("B".to_string(), "DEF B x\nENDDEF".to_string());
    set.insert("A".to_string(), "DEF A y\nENDDEF".to_string());
    assert_eq!(
        assemble_library(&set, Grammar::Symbol),
        "EESchema-LIBRARY Version 2.4\n#encoding utf-8\n#\n# B\n#\nDEF B x\nENDDEF\n#\n# A\n#\nDEF A y\nENDDEF\n#\n#End Library"
    );
}

#[test]
fn documentation_entries_are_framed_in_order() {
    let mut set = DefinitionSet::new();
    set.insert("B".to_string(), "$CMP B\n$ENDCMP".to_string());
    set.insert("A".to_string(), "$CMP A\n$ENDCMP".to_string());
    assert_eq!(
        assemble_library(&set, Grammar::Documentation),
        "EESchema-DOCLIB  Version 2.0\n#\n$CMP B\n$ENDCMP\n#\n$CMP A\n$ENDCMP\n#\n#End Doc Library"
    );
}

#[test]
fn assembled_libraries_read_back() {
    let mut lib = DefinitionSet::new();
    lib.insert("R1".to_string(), "DEF R1 R 0 0\nENDDEF".to_string());
    lib.insert("R2".to_string(), "DEF R2 R 0 0\nENDDEF".to_string());
    let text = assemble_library(&lib, Grammar::Symbol);
    let back = get_lib_defs(&text);
    assert_eq!(back.len(), 2);
    assert_eq!(back.get(&"R2".to_string()).unwrap(), "DEF R2 R 0 0\nENDDEF");
    let mut dcm = DefinitionSet::new();
    dcm.insert("R1".to_string(), "$CMP R1\nD r\n$ENDCMP".to_string());
    let back = get_dcm_defs(&assemble_library(&dcm, Grammar::Documentation));
    assert_eq!(back.len(), 1);
    assert_eq!(back.get(&"R1".to_string()).unwrap(), "$CMP R1\nD r\n$ENDCMP");
}

#[test]
fn insert_replaces_same_name() {
    let mut set = DefinitionSet::new();
    set.insert("A".to_string(), "one".to_string());
    set.insert("A".to_string(), "two".to_string());
    assert_eq!(set.len(), 1);
    assert_eq!(set.get(&"A".to_string()).unwrap(), "two");
    assert_eq!(set.to_pairs(), vec![("A".to_string(), "two".to_string())]);
}
