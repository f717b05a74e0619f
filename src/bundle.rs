//! Extraction of one component from a bundle: its symbol block, its
//! documentation block, its optional 3D model and its footprint, whose file
//! name is found by scanning the bundle.
use crate::archive::{
    archive_entries, entry_names, open_archive, read_entry, utf8_string, zip_archive_of, Bundle, EntryRead,
};
use crate::parser::{definitions_in, get_dcm_defs, get_lib_defs, occurs_at, occurs_at_exec, Grammar};
use crate::text::{chars_of, string_from_range};
use vstd::prelude::*;
use vstd::string::StringExecFns;
use vstd::utf8::{decode_utf8, valid_utf8};

verus! {

/// Start of a bundle's file name.
pub const BUNDLE_PREFIX: &'static str = "LIB_";

/// End of a bundle's file name.
pub const BUNDLE_SUFFIX: &'static str = ".zip";

/// Folder of a bundle's library files, between two copies of the component name.
pub const KICAD_FOLDER: &'static str = "/KiCad/";

/// Folder of a bundle's 3D model, between two copies of the component name.
pub const MODEL_FOLDER: &'static str = "/3D/";

/// Extension of a symbol library.
pub const LIB_EXTENSION: &'static str = ".lib";

/// Extension of a documentation library.
pub const DCM_EXTENSION: &'static str = ".dcm";

/// Extension of a 3D model.
pub const MODEL_EXTENSION: &'static str = ".stp";

/// Extension of a footprint.
pub const FOOTPRINT_EXTENSION: &'static str = ".kicad_mod";

/// Why a bundle yields no component.
#[derive(Clone, Copy, Debug, PartialEq, Eq, Structural)]
pub enum BundleError {
    /// The file name is not `LIB_<name>.zip`.
    BadBundleName,
    /// The bytes are not a readable zip archive.
    CorruptArchive,
    /// No `<name>/KiCad/<name>.lib` entry.
    MissingSymbolFile,
    /// No `<name>/KiCad/<name>.dcm` entry.
    MissingDocumentationFile,
    /// No entry ends in `.kicad_mod`.
    MissingFootprint,
    /// An entry that is needed exists but cannot be read as text.
    UnreadableEntry,
    /// The symbol library holds no block of the component's name.
    SymbolNotFound,
    /// The documentation library holds no block of the component's name.
    DocumentationNotFound,
}

/// Everything a bundle contributes to the master library.
pub struct Component {
    /// The canonical component name, from the bundle's file name.
    pub name: String,
    /// The component's block in the symbol library.
    pub lib_def: String,
    /// The component's block in the documentation library.
    pub dcm_def: String,
    /// The 3D model's bytes, when the bundle has one.
    pub model_file: Option<Vec<u8>>,
    /// The footprint file's bytes.
    pub footprint_file: Vec<u8>,
    /// The footprint's own name, from its path in the bundle.
    pub footprint_name: String,
}

/// `s` ends with `m`.
pub open spec fn ends_with(s: Seq<char>, m: Seq<char>) -> bool {
    m.len() <= s.len() && s.subrange(s.len() - m.len(), s.len() as int) == m
}

/// The component name of a bundle file name `LIB_<name>.zip`.
pub open spec fn component_name(f: Seq<char>) -> Option<Seq<char>> {
    let p = BUNDLE_PREFIX@;
    let q = BUNDLE_SUFFIX@;
    if p.len() + q.len() <= f.len() && f.take(p.len() as int) == p && ends_with(f, q) {
        Some(f.subrange(p.len() as int, f.len() - q.len()))
    } else {
        None
    }
}

/// `<name>/KiCad/<name>.lib`
pub open spec fn lib_path(n: Seq<char>) -> Seq<char> {
    n + KICAD_FOLDER@ + n + LIB_EXTENSION@
}

/// `<name>/KiCad/<name>.dcm`
pub open spec fn dcm_path(n: Seq<char>) -> Seq<char> {
    n + KICAD_FOLDER@ + n + DCM_EXTENSION@
}

/// `<name>/3D/<name>.stp`
pub open spec fn model_path(n: Seq<char>) -> Seq<char> {
    n + MODEL_FOLDER@ + n + MODEL_EXTENSION@
}

/// A path names a footprint file.
pub open spec fn is_footprint_path(p: Seq<char>) -> bool {
    ends_with(p, FOOTPRINT_EXTENSION@)
}

/// The part of `s` after its last `/` (all of `s` when it has none).
pub open spec fn last_segment(s: Seq<char>) -> Seq<char>
    decreases s.len(),
{
    if s.len() == 0 || s.last() == '/' {
        Seq::empty()
    } else {
        last_segment(s.drop_last()).push(s.last())
    }
}

/// The footprint's own name: the last segment of its path, without the extension.
pub open spec fn footprint_name(p: Seq<char>) -> Seq<char> {
    last_segment(p.take(p.len() - FOOTPRINT_EXTENSION@.len()))
}

/// Entry `p` exists and can be read.
pub open spec fn readable(e: Map<Seq<char>, Option<Seq<u8>>>, p: Seq<char>) -> bool {
    e.contains_key(p) && e[p] is Some
}

/// The text of entry `p`, when it exists, can be read and is valid UTF-8.
pub open spec fn entry_text(e: Map<Seq<char>, Option<Seq<u8>>>, p: Seq<char>) -> Option<Seq<char>> {
    if readable(e, p) && valid_utf8(e[p]->0) {
        Some(decode_utf8(e[p]->0))
    } else {
        None
    }
}

fn ends_with_exec(v: &Vec<char>, m: &Vec<char>) -> (r: bool)
    ensures
        r == ends_with(v@, m@),
{
    if m.len() > v.len() {
        return false;
    }
    let r = occurs_at_exec(v, m, v.len() - m.len());
    assert(r == occurs_at(v@, m@, v@.len() - m@.len()));
    r
}

/// The component name of a bundle file name `LIB_<name>.zip`, or `None` for
/// any other file name.
pub fn component_name_of(file_name: &str) -> (r: Option<String>)
    ensures
        match r {
            Some(n) => component_name(file_name@) == Some(n@),
            None => component_name(file_name@) is None,
        },
{
    let f = chars_of(file_name);
    let p = chars_of(BUNDLE_PREFIX);
    let q = chars_of(BUNDLE_SUFFIX);
    let n = f.len();
    if p.len() > n || q.len() > n - p.len() {
        return None;
    }
    let starts = occurs_at_exec(&f, &p, 0);
    assert(starts == (f@.take(p@.len() as int) == p@)) by {
        assert(f@.take(p@.len() as int) =~= f@.subrange(0, p@.len() as int));
    }
    if !starts || !ends_with_exec(&f, &q) {
        return None;
    }
    Some(string_from_range(&f, p.len(), n - q.len()))
}

/// `<name><folder><name><extension>`
fn entry_path(name: &String, folder: &str, extension: &str) -> (r: String)
    ensures
        r@ == name@ + folder@ + name@ + extension@,
{
    let mut r = String::new();
    r.append(name.as_str());
    r.append(folder);
    r.append(name.as_str());
    r.append(extension);
    assert(r@ =~= name@ + folder@ + name@ + extension@);
    r
}

/// The footprint's own name, from a path that ends in `.kicad_mod`.
pub fn footprint_name_of(path: &str) -> (r: String)
    requires
        is_footprint_path(path@),
    ensures
        r@ == footprint_name(path@),
{
    let v = chars_of(path);
    let ext = chars_of(FOOTPRINT_EXTENSION);
    let stem_len = v.len() - ext.len();
    let ghost stem = v@.take(stem_len as int);
    let mut j: usize = stem_len;
    while j > 0 && v[j - 1] != '/'
        invariant
            j <= stem_len <= v@.len(),
            stem == v@.take(stem_len as int),
            last_segment(stem) == last_segment(v@.take(j as int)) + v@.subrange(j as int, stem_len as int),
        decreases j,
    {
        proof {
            let t = v@.take(j as int);
            assert(t.drop_last() =~= v@.take(j - 1));
            assert(t.last() == v@[j - 1]);
            assert(v@.subrange(j - 1, stem_len as int) =~= seq![v@[j - 1]] + v@.subrange(j as int, stem_len as int));
            assert(last_segment(t) == last_segment(v@.take(j - 1)).push(v@[j - 1]));
            assert(last_segment(v@.take(j - 1)).push(v@[j - 1]) + v@.subrange(j as int, stem_len as int)
                =~= last_segment(v@.take(j - 1)) + v@.subrange(j - 1, stem_len as int));
        }
        j = j - 1;
    }
    proof {
        let t = v@.take(j as int);
        if j > 0 {
            assert(t.last() == v@[j - 1]);
        }
        assert(last_segment(t) =~= Seq::<char>::empty());
        assert(last_segment(stem) =~= v@.subrange(j as int, stem_len as int));
    }
    string_from_range(&v, j, stem_len)
}

/// The position of the last footprint path among `names`, if any.
pub fn pick_footprint(names: &Vec<String>) -> (r: Option<usize>)
    ensures
        match r {
            Some(i) => i < names@.len() && is_footprint_path(names@[i as int]@) && forall|j: int|
                i < j < names@.len() ==> !is_footprint_path(#[trigger] names@[j]@),
            None => forall|j: int| 0 <= j < names@.len() ==> !is_footprint_path(#[trigger] names@[j]@),
        },
{
    let ext = chars_of(FOOTPRINT_EXTENSION);
    let mut i: usize = names.len();
    while i > 0
        invariant
            i <= names@.len(),
            ext@ == FOOTPRINT_EXTENSION@,
            forall|j: int| i <= j < names@.len() ==> !is_footprint_path(#[trigger] names@[j]@),
        decreases i,
    {
        let candidate = chars_of(names[i - 1].as_str());
        if ends_with_exec(&candidate, &ext) {
            return Some(i - 1);
        }
        i = i - 1;
    }
    None
}

/// `c` is what a bundle named `f` with entries `e` holds: its name comes from
/// `f`; its two blocks are the blocks of that name in the bundle's symbol and
/// documentation libraries; its model is the model entry's bytes, or absent
/// when the bundle has none; its footprint is the bytes of an entry that ends
/// in `.kicad_mod`, named after that entry's path.
pub open spec fn extracted_from(e: Map<Seq<char>, Option<Seq<u8>>>, f: Seq<char>, c: Component) -> bool {
    let n = c.name@;
    &&& component_name(f) == Some(n)
    &&& entry_text(e, lib_path(n)) matches Some(t) && definitions_in(t, Grammar::Symbol).contains_key(n)
        && c.lib_def@ == definitions_in(t, Grammar::Symbol)[n]
    &&& entry_text(e, dcm_path(n)) matches Some(t) && definitions_in(t, Grammar::Documentation).contains_key(n)
        && c.dcm_def@ == definitions_in(t, Grammar::Documentation)[n]
    &&& match c.model_file {
        Some(m) => e.contains_key(model_path(n)) && e[model_path(n)] == Some(m@),
        None => !e.contains_key(model_path(n)),
    }
    &&& exists|p: Seq<char>| #[trigger] e.contains_key(p) && is_footprint_path(p)
        && c.footprint_name@ == footprint_name(p) && e[p] == Some(c.footprint_file@)
}

/// A bundle named `f` with entries `e` yields a component: its name has the
/// bundle form; its two libraries can be read as text and hold a block of the
/// component's name; its model, if any, can be read; and it has a footprint
/// entry, all of which can be read.
pub open spec fn extractable(e: Map<Seq<char>, Option<Seq<u8>>>, f: Seq<char>) -> bool {
    &&& component_name(f) is Some
    &&& entry_text(e, lib_path(component_name(f)->0)) matches Some(t)
        && definitions_in(t, Grammar::Symbol).contains_key(component_name(f)->0)
    &&& entry_text(e, dcm_path(component_name(f)->0)) matches Some(t)
        && definitions_in(t, Grammar::Documentation).contains_key(component_name(f)->0)
    &&& e.contains_key(model_path(component_name(f)->0)) ==> readable(e, model_path(component_name(f)->0))
    &&& exists|p: Seq<char>| #[trigger] e.contains_key(p) && is_footprint_path(p)
    &&& forall|p: Seq<char>| #[trigger] e.contains_key(p) && is_footprint_path(p) ==> readable(e, p)
}

/// Some entry that a bundle named `f` needs exists but cannot be read (or,
/// for a library, is not UTF-8 text).
pub open spec fn needed_entry_unreadable(e: Map<Seq<char>, Option<Seq<u8>>>, f: Seq<char>) -> bool {
    let n = component_name(f)->0;
    ||| e.contains_key(lib_path(n)) && entry_text(e, lib_path(n)) is None
    ||| e.contains_key(dcm_path(n)) && entry_text(e, dcm_path(n)) is None
    ||| e.contains_key(model_path(n)) && !readable(e, model_path(n))
    ||| exists|p: Seq<char>| #[trigger] e.contains_key(p) && is_footprint_path(p) && !readable(e, p)
}

/// Builds the component named `name` from the texts read out of its bundle:
/// the symbol library, the documentation library, the model if any, and the
/// footprint found at `footprint_path`. Fails when either library lacks a block
/// of that name.
pub fn build_component(
    name: String,
    lib_text: &str,
    dcm_text: &str,
    model_file: Option<Vec<u8>>,
    footprint_path: &str,
    footprint_file: Vec<u8>,
) -> (r: Result<Component, BundleError>)
    requires
        is_footprint_path(footprint_path@),
    ensures
        !definitions_in(lib_text@, Grammar::Symbol).contains_key(name@) ==> r == Err::<Component, BundleError>(
            BundleError::SymbolNotFound),
        definitions_in(lib_text@, Grammar::Symbol).contains_key(name@) && !definitions_in(
            dcm_text@,
            Grammar::Documentation,
        ).contains_key(name@) ==> r == Err::<Component, BundleError>(BundleError::DocumentationNotFound),
        definitions_in(lib_text@, Grammar::Symbol).contains_key(name@) && definitions_in(
            dcm_text@,
            Grammar::Documentation,
        ).contains_key(name@) ==> (r matches Ok(c) && c.name@ == name@
            && c.lib_def@ == definitions_in(lib_text@, Grammar::Symbol)[name@]
            && c.dcm_def@ == definitions_in(dcm_text@, Grammar::Documentation)[name@]
            && c.model_file == model_file && c.footprint_file == footprint_file
            && c.footprint_name@ == footprint_name(footprint_path@)),
{
    let lib_defs = get_lib_defs(lib_text);
    let lib_def = match lib_defs.get(&name) {
        Some(d) => d.clone(),
        None => return Err(BundleError::SymbolNotFound),
    };
    let dcm_defs = get_dcm_defs(dcm_text);
    let dcm_def = match dcm_defs.get(&name) {
        Some(d) => d.clone(),
        None => return Err(BundleError::DocumentationNotFound),
    };
    let footprint_name = footprint_name_of(footprint_path);
    Ok(Component { name, lib_def, dcm_def, model_file, footprint_file, footprint_name })
}

/// Opens the bundle whose bytes are `data`; fails exactly when they hold no
/// readable zip archive.
pub fn open_bundle(data: Vec<u8>) -> (r: Result<Bundle, BundleError>)
    ensures
        r is Ok <==> zip_archive_of(data@) is Some,
        r matches Ok(b) ==> zip_archive_of(data@) == Some(archive_entries(b)),
        r is Err ==> r == Err::<Bundle, BundleError>(BundleError::CorruptArchive),
{
    match open_archive(data) {
        Ok(a) => Ok(a),
        Err(_) => Err(BundleError::CorruptArchive),
    }
}

/// Reads the entry `path`, with a missing entry mapped to `missing`.
fn read_required(a: &mut Bundle, path: &String, missing: BundleError) -> (r: Result<Vec<u8>, BundleError>)
    requires
        missing != BundleError::UnreadableEntry,
    ensures
        archive_entries(*final(a)) == archive_entries(*old(a)),
        r == Err::<Vec<u8>, BundleError>(missing) || r == Err::<Vec<u8>, BundleError>(BundleError::UnreadableEntry)
            || r is Ok,
        !archive_entries(*old(a)).contains_key(path@) <==> r == Err::<Vec<u8>, BundleError>(missing),
        archive_entries(*old(a)).contains_key(path@) && !readable(archive_entries(*old(a)), path@) <==> r
            == Err::<Vec<u8>, BundleError>(BundleError::UnreadableEntry),
        r matches Ok(b) ==> archive_entries(*old(a))[path@] == Some(b@),
{
    match read_entry(a, path.as_str()) {
        EntryRead::Bytes(b) => Ok(b),
        EntryRead::Missing => Err(missing),
        EntryRead::Unreadable => Err(BundleError::UnreadableEntry),
    }
}

/// Reads the entry `path` as UTF-8 text, with a missing entry mapped to `missing`.
fn read_text(a: &mut Bundle, path: &String, missing: BundleError) -> (r: Result<String, BundleError>)
    requires
        missing != BundleError::UnreadableEntry,
    ensures
        archive_entries(*final(a)) == archive_entries(*old(a)),
        r == Err::<String, BundleError>(missing) || r == Err::<String, BundleError>(BundleError::UnreadableEntry)
            || r is Ok,
        !archive_entries(*old(a)).contains_key(path@) <==> r == Err::<String, BundleError>(missing),
        archive_entries(*old(a)).contains_key(path@) && entry_text(archive_entries(*old(a)), path@) is None
            <==> r == Err::<String, BundleError>(BundleError::UnreadableEntry),
        r matches Ok(s) ==> entry_text(archive_entries(*old(a)), path@) == Some(s@),
{
    let b = read_required(a, path, missing)?;
    match utf8_string(b) {
        Some(s) => Ok(s),
        None => Err(BundleError::UnreadableEntry),
    }
}

/// Extracts the component of the bundle `a`, whose file name is `file_name`.
/// A bundle named other than `LIB_<name>.zip`, or without its symbol library,
/// documentation library or a footprint, yields an error, never a partial
/// component; a bundle without a 3D model yields a component without one.
pub fn extract_component(file_name: &str, a: &mut Bundle) -> (r: Result<Component, BundleError>)
    ensures
        archive_entries(*final(a)) == archive_entries(*old(a)),
        extractable(archive_entries(*old(a)), file_name@) ==> r is Ok,
        r matches Ok(c) ==> extracted_from(archive_entries(*old(a)), file_name@, c),
        component_name(file_name@) is None <==> r == Err::<Component, BundleError>(BundleError::BadBundleName),
        (component_name(file_name@) matches Some(n) && !archive_entries(*old(a)).contains_key(lib_path(n)))
            <==> r == Err::<Component, BundleError>(BundleError::MissingSymbolFile),
        component_name(file_name@) matches Some(n) && !archive_entries(*old(a)).contains_key(dcm_path(n))
            ==> r is Err,
        r == Err::<Component, BundleError>(BundleError::MissingDocumentationFile) ==> (component_name(file_name@) matches Some(n)
            && !archive_entries(*old(a)).contains_key(dcm_path(n))),
        (forall|p: Seq<char>| #[trigger] archive_entries(*old(a)).contains_key(p) ==> !is_footprint_path(p))
            ==> r is Err,
        r == Err::<Component, BundleError>(BundleError::MissingFootprint) ==> forall|p: Seq<char>|
            #[trigger] archive_entries(*old(a)).contains_key(p) ==> !is_footprint_path(p),
        r == Err::<Component, BundleError>(BundleError::SymbolNotFound) ==> (component_name(file_name@) matches Some(n)
            && entry_text(archive_entries(*old(a)), lib_path(n)) matches Some(t)
            && !definitions_in(t, Grammar::Symbol).contains_key(n)),
        r == Err::<Component, BundleError>(BundleError::DocumentationNotFound) ==> (component_name(file_name@) matches Some(n)
            && entry_text(archive_entries(*old(a)), dcm_path(n)) matches Some(t)
            && !definitions_in(t, Grammar::Documentation).contains_key(n)),
        r == Err::<Component, BundleError>(BundleError::UnreadableEntry) ==> component_name(file_name@) is Some
            && needed_entry_unreadable(archive_entries(*old(a)), file_name@),
        r != Err::<Component, BundleError>(BundleError::CorruptArchive),
{
    let ghost e = archive_entries(*a);
    let name = match component_name_of(file_name) {
        Some(n) => n,
        None => return Err(BundleError::BadBundleName),
    };
    let lib_text = read_text(a, &entry_path(&name, KICAD_FOLDER, LIB_EXTENSION), BundleError::MissingSymbolFile)?;
    let dcm_text = read_text(a, &entry_path(&name, KICAD_FOLDER, DCM_EXTENSION), BundleError::MissingDocumentationFile)?;
    let model_path = entry_path(&name, MODEL_FOLDER, MODEL_EXTENSION);
    let model_file = match read_entry(a, model_path.as_str()) {
        EntryRead::Bytes(b) => Some(b),
        EntryRead::Missing => None,
        EntryRead::Unreadable => return Err(BundleError::UnreadableEntry),
    };
    let names = entry_names(a);
    let i = match pick_footprint(&names) {
        Some(i) => i,
        None => {
            assert forall|p: Seq<char>| #[trigger] e.contains_key(p) implies !is_footprint_path(p) by {
                let j = choose|j: int| 0 <= j < names@.len() && names@[j]@ == p;
                assert(!is_footprint_path(names@[j]@));
            }
            return Err(BundleError::MissingFootprint);
        },
    };
    let footprint_path = &names[i];
    assert(e.contains_key(names@[i as int]@));
    let footprint_file = read_required(a, footprint_path, BundleError::MissingFootprint)?;
    build_component(name, lib_text.as_str(), dcm_text.as_str(), model_file, footprint_path.as_str(), footprint_file)
}

} // verus!
