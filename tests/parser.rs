use kicad_loader::{get_dcm_defs, get_lib_defs, parse_definitions, Grammar};

const R100_DEF: &str = "DEF R100 R 0 0 N Y 1 F N\nF0 \"R\" 0 0 50 H V C CNN\nDRAW\nS -40 -100 40 100 0 1 10 N\nENDDRAW\nENDDEF";
const C10_DEF: &str = "DEF C10 C 0 10 N Y 1 F N\nENDDEF";

#[test]
fn lib_defs_two_blocks() {
    let text = format!("EESchema-LIBRARY Version 2.4\n#encoding utf-8\n#\n# R100\n#\n{}\n#\n# C10\n#\n{}\n#\n#End Library", R100_DEF, C10_DEF);
    let defs = get_lib_defs(&text);
    assert_eq!(defs.len(), 2);
    assert_eq!(defs.get(&"R100".to_string()).unwrap(), R100_DEF);
    assert_eq!(defs.get(&"C10".to_string()).unwrap(), C10_DEF);
    assert!(defs.get(&"R".to_string()).is_none());
}

#[test]
fn dcm_defs_two_blocks() {
    let a = "$CMP R100\nD Resistor 100 ohm\nK res\n$ENDCMP";
    let b = "$CMP C10\nD Capacitor\n$ENDCMP";
    let text = format!("EESchema-DOCLIB  Version 2.0\n#\n{}\n#\n{}\n#\n#End Doc Library", a, b);
    let defs = get_dcm_defs(&text);
    assert_eq!(defs.len(), 2);
    assert_eq!(defs.get(&"R100".to_string()).unwrap(), a);
    assert_eq!(defs.get(&"C10".to_string()).unwrap(), b);
}

#[test]
fn empty_document_gives_empty_set() {
    assert_eq!(get_lib_defs("").len(), 0);
    assert_eq!(get_lib_defs("EESchema-LIBRARY Version 2.4").len(), 0);
    assert_eq!(get_dcm_defs("EESchema-DOCLIB  Version 2.0").len(), 0);
}

#[test]
fn unclosed_block_is_dropped() {
    let text = format!("{}\nDEF X1 U 0 0 N Y 1 F N\nDRAW\n", C10_DEF);
    let defs = get_lib_defs(&text);
    assert_eq!(defs.len(), 1);
    assert!(defs.get(&"X1".to_string()).is_none());
    assert_eq!(defs.get(&"C10".to_string()).unwrap(), C10_DEF);
}

#[test]
fn block_ends_at_first_closing_marker() {
    let text = "DEF A x\nENDDEF\nstray\nENDDEF\n";
    let defs = get_lib_defs(text);
    assert_eq!(defs.len(), 1);
    assert_eq!(defs.get(&"A".to_string()).unwrap(), "DEF A x\nENDDEF");
}

#[test]
fn later_block_of_same_name_wins() {
    let text = "DEF A old\nENDDEF\nDEF A new\nENDDEF\n";
    let defs = get_lib_defs(text);
    assert_eq!(defs.len(), 1);
    assert_eq!(defs.get(&"A".to_string()).unwrap(), "DEF A new\nENDDEF");
}

#[test]
fn whitespace_and_line_breaks_kept() {
    let block = "DEF  Q1\tQ 0 0\r\n  X 1 2\r\n\r\nENDDEF";
    let defs = parse_definitions(&format!("junk {} tail", block), Grammar::Symbol);
    assert_eq!(defs.len(), 1);
    assert_eq!(defs.get(&"Q1".to_string()).unwrap(), block);
}

#[test]
fn round_trip_of_synthetic_documents() {
    for n in 0..6usize {
        let mut lib = String::new();
        let mut dcm = String::new();
        for i in 0..n {
            lib.push_str(&format!("DEF P{} U 0 0 N Y 1 F N\nX a {}\nENDDEF\n", i, i));
            dcm.push_str(&format!("$CMP P{}\nD part {}\n$ENDCMP\n", i, i));
        }
        let l = get_lib_defs(&lib);
        let d = get_dcm_defs(&dcm);
        assert_eq!(l.len(), n);
        assert_eq!(d.len(), n);
        for i in 0..n {
            let name = format!("P{}", i);
            assert_eq!(l.get(&name).unwrap(), &format!("DEF P{} U 0 0 N Y 1 F N\nX a {}\nENDDEF", i, i));
            assert_eq!(d.get(&name).unwrap(), &format!("$CMP P{}\nD part {}\n$ENDCMP", i, i));
        }
    }
}

#[test]
fn marker_needs_whitespace_after_it() {
    let defs = get_lib_defs("DEFAULT R1 x ENDDEF");
    assert_eq!(defs.len(), 0);
}

#[test]
fn unicode_whitespace_separates() {
    let block = "DEF\u{3000}U1\u{a0}X 0 0\nENDDEF";
    let defs = get_lib_defs(&format!("{}\n", block));
    assert_eq!(defs.len(), 1);
    assert_eq!(defs.get(&"U1".to_string()).unwrap(), block);
    let cmp = "$CMP\u{2003}C1\u{2028}D cap\n$ENDCMP";
    let defs = get_dcm_defs(cmp);
    assert_eq!(defs.get(&"C1".to_string()).unwrap(), cmp);
}
