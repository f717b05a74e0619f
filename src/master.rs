//! The master library: its symbol and documentation definition sets, the
//! merge of extracted components into them, and the asset files that each
//! component contributes.
use crate::assemble::{assemble_library, library_text};
use crate::bundle::{
    extracted_from, footprint_name, is_footprint_path, model_path, Component, FOOTPRINT_EXTENSION,
    MODEL_EXTENSION,
};
use crate::library::{lemma_map_of_entries, map_of, DefinitionSet};
use crate::parser::{definitions_in, get_dcm_defs, get_lib_defs, Grammar};
use vstd::prelude::*;
use vstd::string::StringExecFns;

verus! {

/// The two definition sets of a master library.
pub struct MasterLibrary {
    pub symbols: DefinitionSet,
    pub docs: DefinitionSet,
}

/// The (symbol, documentation) mappings after merging component `c` into `v`:
/// both blocks are stored under the component's name, replacing any there.
pub open spec fn merged(
    v: (Map<Seq<char>, Seq<char>>, Map<Seq<char>, Seq<char>>),
    c: Component,
) -> (Map<Seq<char>, Seq<char>>, Map<Seq<char>, Seq<char>>) {
    (v.0.insert(c.name@, c.lib_def@), v.1.insert(c.name@, c.dcm_def@))
}

/// The mappings after merging the components of `cs` into `v`, in order.
pub open spec fn merged_all(
    v: (Map<Seq<char>, Seq<char>>, Map<Seq<char>, Seq<char>>),
    cs: Seq<Component>,
) -> (Map<Seq<char>, Seq<char>>, Map<Seq<char>, Seq<char>>)
    decreases cs.len(),
{
    if cs.len() == 0 {
        v
    } else {
        merged(merged_all(v, cs.drop_last()), cs.last())
    }
}

impl View for MasterLibrary {
    type V = (Map<Seq<char>, Seq<char>>, Map<Seq<char>, Seq<char>>);

    open spec fn view(&self) -> Self::V {
        (self.symbols@, self.docs@)
    }
}

impl MasterLibrary {
    /// Both sets are well formed.
    pub open spec fn wf(&self) -> bool {
        self.symbols.wf() && self.docs.wf()
    }

    /// Every symbol has its documentation entry.
    pub open spec fn documented(&self) -> bool {
        self.symbols@.dom().subset_of(self.docs@.dom())
    }

    /// The master library held by a symbol-library text and a
    /// documentation-library text.
    pub fn load(lib_text: &str, dcm_text: &str) -> (r: MasterLibrary)
        ensures
            r.wf(),
            r.symbols@ == definitions_in(lib_text@, Grammar::Symbol),
            r.docs@ == definitions_in(dcm_text@, Grammar::Documentation),
    {
        MasterLibrary { symbols: get_lib_defs(lib_text), docs: get_dcm_defs(dcm_text) }
    }

    /// Stores the component's two blocks under its name, replacing any blocks
    /// already stored under that name.
    pub fn merge_component(&mut self, c: &Component)
        requires
            old(self).wf(),
        ensures
            final(self).wf(),
            final(self)@ == merged(old(self)@, *c),
            old(self).documented() ==> final(self).documented(),
    {
        self.symbols.insert(c.name.clone(), c.lib_def.clone());
        self.docs.insert(c.name.clone(), c.dcm_def.clone());
    }

    /// Merges the components in order; a later one of the same name wins.
    pub fn merge_all(&mut self, cs: &Vec<Component>)
        requires
            old(self).wf(),
        ensures
            final(self).wf(),
            final(self)@ == merged_all(old(self)@, cs@),
            old(self).documented() ==> final(self).documented(),
    {
        let ghost start = self@;
        let mut i: usize = 0;
        while i < cs.len()
            invariant
                i <= cs@.len(),
                self.wf(),
                self@ == merged_all(start, cs@.take(i as int)),
                old(self).documented() ==> self.documented(),
            decreases cs@.len() - i,
        {
            self.merge_component(&cs[i]);
            assert(cs@.take(i + 1).drop_last() =~= cs@.take(i as int));
            i = i + 1;
        }
        assert(cs@.take(i as int) =~= cs@);
    }

    /// The symbol-library text of the master library.
    pub fn lib_text(&self) -> (r: String)
        ensures
            r@ == library_text(Grammar::Symbol, self.symbols.pairs()),
    {
        assemble_library(&self.symbols, Grammar::Symbol)
    }

    /// The documentation-library text of the master library.
    pub fn dcm_text(&self) -> (r: String)
        ensures
            r@ == library_text(Grammar::Documentation, self.docs.pairs()),
    {
        assemble_library(&self.docs, Grammar::Documentation)
    }
}

/// The asset folders of a master library.
#[derive(Clone, Copy, Debug, PartialEq, Eq, Structural)]
pub enum AssetFolder {
    /// `<library>.pretty`, for footprints.
    Footprints,
    /// `<library>.3dshapes`, for 3D models.
    Models,
}

/// One file to write into an asset folder.
pub struct AssetFile {
    pub folder: AssetFolder,
    pub file_name: String,
    pub content: Vec<u8>,
}

/// The asset files of component `c`: its footprint, under the footprint's own
/// name, and its model, under the component name, when it has one.
pub open spec fn assets_of(c: Component) -> Seq<(AssetFolder, Seq<char>, Seq<u8>)> {
    let footprint = (AssetFolder::Footprints, c.footprint_name@ + FOOTPRINT_EXTENSION@, c.footprint_file@);
    match c.model_file {
        Some(m) => seq![footprint, (AssetFolder::Models, c.name@ + MODEL_EXTENSION@, m@)],
        None => seq![footprint],
    }
}

fn file_name(stem: &String, extension: &str) -> (r: String)
    ensures
        r@ == stem@ + extension@,
{
    let mut r = String::new();
    r.append(stem.as_str());
    r.append(extension);
    r
}

/// The asset files to write for component `c`.
pub fn asset_files(c: &Component) -> (r: Vec<AssetFile>)
    ensures
        r@.len() == assets_of(*c).len(),
        forall|i: int| 0 <= i < r@.len() ==> (#[trigger] r@[i]).folder == assets_of(*c)[i].0
            && r@[i].file_name@ == assets_of(*c)[i].1 && r@[i].content@ == assets_of(*c)[i].2,
{
    let mut r: Vec<AssetFile> = Vec::new();
    r.push(AssetFile {
        folder: AssetFolder::Footprints,
        file_name: file_name(&c.footprint_name, FOOTPRINT_EXTENSION),
        content: c.footprint_file.clone(),
    });
    match &c.model_file {
        Some(m) => {
            r.push(AssetFile {
                folder: AssetFolder::Models,
                file_name: file_name(&c.name, MODEL_EXTENSION),
                content: m.clone(),
            });
        },
        None => {},
    }
    r
}

/// Merging the same component twice leaves the library as merging it once.
pub proof fn lemma_merge_twice(v: (Map<Seq<char>, Seq<char>>, Map<Seq<char>, Seq<char>>), c: Component)
    ensures
        merged(merged(v, c), c) == merged(v, c),
{
    assert(merged(merged(v, c), c).0 =~= merged(v, c).0);
    assert(merged(merged(v, c), c).1 =~= merged(v, c).1);
}

/// After a component named `X` is merged, both sets hold an entry named `X`,
/// and every entry named `X` holds the component's block: nothing of an
/// earlier `X` is left to be written out.
pub proof fn lemma_merge_replaces(before: MasterLibrary, after: MasterLibrary, c: Component)
    requires
        after.wf(),
        after@ == merged(before@, c),
    ensures
        exists|i: int| 0 <= i < after.symbols.pairs().len() && after.symbols.pairs()[i].0 == c.name@,
        exists|i: int| 0 <= i < after.docs.pairs().len() && after.docs.pairs()[i].0 == c.name@,
        forall|i: int| 0 <= i < after.symbols.pairs().len() && (#[trigger] after.symbols.pairs()[i]).0 == c.name@
            ==> after.symbols.pairs()[i].1 == c.lib_def@,
        forall|i: int| 0 <= i < after.docs.pairs().len() && (#[trigger] after.docs.pairs()[i]).0 == c.name@
            ==> after.docs.pairs()[i].1 == c.dcm_def@,
{
    lemma_map_of_entries(after.symbols.pairs());
    lemma_map_of_entries(after.docs.pairs());
    assert(after.symbols@.contains_key(c.name@));
    assert(after.docs@.contains_key(c.name@));
    let sp = after.symbols.pairs();
    let dp = after.docs.pairs();
    assert forall|i: int| 0 <= i < sp.len() && (#[trigger] sp[i]).0 == c.name@ implies sp[i].1 == c.lib_def@ by {
        assert(map_of(sp)[sp[i].0] == sp[i].1);
    }
    assert forall|i: int| 0 <= i < dp.len() && (#[trigger] dp[i]).0 == c.name@ implies dp[i].1 == c.dcm_def@ by {
        assert(map_of(dp)[dp[i].0] == dp[i].1);
    }
}

/// A component extracted from a bundle without a 3D model has no model, and
/// none of its asset files goes to the model folder.
pub proof fn lemma_no_model_no_model_asset(e: Map<Seq<char>, Option<Seq<u8>>>, f: Seq<char>, c: Component)
    requires
        extracted_from(e, f, c),
        !e.contains_key(model_path(c.name@)),
    ensures
        c.model_file is None,
        forall|i: int| 0 <= i < assets_of(c).len() ==> (#[trigger] assets_of(c)[i]).0 != AssetFolder::Models,
{
}

/// The footprint asset of an extracted component is named after the footprint
/// entry's own path in the bundle, whatever the component is called.
pub proof fn lemma_footprint_asset_name(e: Map<Seq<char>, Option<Seq<u8>>>, f: Seq<char>, c: Component)
    requires
        extracted_from(e, f, c),
    ensures
        exists|p: Seq<char>| #[trigger] e.contains_key(p) && is_footprint_path(p)
            && assets_of(c)[0] == (AssetFolder::Footprints, footprint_name(p) + FOOTPRINT_EXTENSION@, c.footprint_file@),
        forall|i: int| 0 <= i < assets_of(c).len() && (#[trigger] assets_of(c)[i]).0 == AssetFolder::Footprints
            ==> i == 0,
{
    let p = choose|p: Seq<char>| #[trigger] e.contains_key(p) && is_footprint_path(p)
        && c.footprint_name@ == footprint_name(p) && e[p] == Some(c.footprint_file@);
    assert(e.contains_key(p) && is_footprint_path(p));
}

} // verus!
