//! Writes a definition set back out as a library text. Both grammars share
//! one framed layout: a header, one framed entry per block, and a footer.
use crate::library::DefinitionSet;
use crate::parser::Grammar;
use vstd::prelude::*;
use vstd::string::StringExecFns;

verus! {

/// First line of a symbol library.
pub const LIB_HEADER: &'static str = "EESchema-LIBRARY Version 2.4";

/// Lines that follow the symbol-library header.
pub const LIB_PREAMBLE: &'static str = "\n#encoding utf-8\n#\n";

/// Last line of a symbol library.
pub const LIB_FOOTER: &'static str = "#End Library";

/// First line of a documentation library.
pub const DCM_HEADER: &'static str = "EESchema-DOCLIB  Version 2.0";

/// Last line of a documentation library.
pub const DCM_FOOTER: &'static str = "#End Doc Library";

/// Opens the comment line that names a symbol.
pub const COMMENT_OPEN: &'static str = "# ";

/// Ends a line and adds a separator line: it follows every block, the
/// documentation-library header and the comment line that names a symbol.
pub const SEPARATOR: &'static str = "\n#\n";

/// What precedes the entries in a library of grammar `g`.
pub open spec fn header_text(g: Grammar) -> Seq<char> {
    match g {
        Grammar::Symbol => LIB_HEADER@ + LIB_PREAMBLE@,
        Grammar::Documentation => DCM_HEADER@ + SEPARATOR@,
    }
}

/// What closes a library of grammar `g`.
pub open spec fn footer_text(g: Grammar) -> Seq<char> {
    match g {
        Grammar::Symbol => LIB_FOOTER@,
        Grammar::Documentation => DCM_FOOTER@,
    }
}

/// One entry: in a symbol library a comment line with the name, a separator
/// line, the block and a separator; in a documentation library the block and
/// a separator.
pub open spec fn entry_text(g: Grammar, name: Seq<char>, block: Seq<char>) -> Seq<char> {
    match g {
        Grammar::Symbol => COMMENT_OPEN@ + name + SEPARATOR@ + block + SEPARATOR@,
        Grammar::Documentation => block + SEPARATOR@,
    }
}

/// The entries of a (name, block) list, in order.
pub open spec fn entries_text(g: Grammar, s: Seq<(Seq<char>, Seq<char>)>) -> Seq<char>
    decreases s.len(),
{
    if s.len() == 0 {
        Seq::empty()
    } else {
        entries_text(g, s.drop_last()) + entry_text(g, s.last().0, s.last().1)
    }
}

/// The whole library text of a (name, block) list.
pub open spec fn library_text(g: Grammar, s: Seq<(Seq<char>, Seq<char>)>) -> Seq<char> {
    header_text(g) + entries_text(g, s) + footer_text(g)
}

/// Serialises a definition set as a library of grammar `g`, entries in the
/// set's order.
pub fn assemble_library(set: &DefinitionSet, g: Grammar) -> (r: String)
    ensures
        r@ == library_text(g, set.pairs()),
{
    let pairs = set.to_pairs();
    let mut out = String::new();
    match g {
        Grammar::Symbol => {
            out.append(LIB_HEADER);
            out.append(LIB_PREAMBLE);
        },
        Grammar::Documentation => {
            out.append(DCM_HEADER);
            out.append(SEPARATOR);
        },
    }
    let ghost head = out@;
    let mut i: usize = 0;
    while i < pairs.len()
        invariant
            i <= pairs@.len(),
            pairs@.len() == set.pairs().len(),
            forall|j: int| 0 <= j < pairs@.len() ==> (#[trigger] pairs@[j]).0@ == set.pairs()[j].0
                && pairs@[j].1@ == set.pairs()[j].1,
            head == header_text(g),
            out@ == head + entries_text(g, set.pairs().take(i as int)),
        decreases pairs@.len() - i,
    {
        let ghost before = out@;
        let name = &pairs[i].0;
        let block = &pairs[i].1;
        match g {
            Grammar::Symbol => {
                out.append(COMMENT_OPEN);
                out.append(name.as_str());
                out.append(SEPARATOR);
            },
            Grammar::Documentation => {},
        }
        out.append(block.as_str());
        out.append(SEPARATOR);
        proof {
            let s = set.pairs().take(i + 1);
            assert(s.drop_last() =~= set.pairs().take(i as int));
            assert(s.last() == set.pairs()[i as int]);
            assert(out@ =~= before + entry_text(g, name@, block@));
        }
        i = i + 1;
    }
    assert(set.pairs().take(i as int) =~= set.pairs());
    match g {
        Grammar::Symbol => out.append(LIB_FOOTER),
        Grammar::Documentation => out.append(DCM_FOOTER),
    }
    out
}

} // verus!
