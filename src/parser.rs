//! Scanner for the two bracketed library grammars: a symbol library holds
//! `DEF <name> ... ENDDEF` blocks, a documentation library holds
//! `$CMP <name> ... $ENDCMP` blocks.
use crate::library::{lemma_map_of_entries, lemma_map_of_len, lemma_map_of_values, map_of, names_unique, DefinitionSet};
use crate::text::{chars_of, string_from_range};
use vstd::prelude::*;

verus! {

/// Which of the two library grammars a text is read under.
#[derive(Clone, Copy, Debug, PartialEq, Eq, Structural)]
pub enum Grammar {
    Symbol,
    Documentation,
}

/// The marker that opens a block.
pub open spec fn opening_marker(g: Grammar) -> Seq<char> {
    match g {
        Grammar::Symbol => seq!['D', 'E', 'F'],
        Grammar::Documentation => seq!['$', 'C', 'M', 'P'],
    }
}

/// The marker that closes a block.
pub open spec fn closing_marker(g: Grammar) -> Seq<char> {
    match g {
        Grammar::Symbol => seq!['E', 'N', 'D', 'D', 'E', 'F'],
        Grammar::Documentation => seq!['$', 'E', 'N', 'D', 'C', 'M', 'P'],
    }
}

/// The whitespace characters that separate a marker, a name and the rest of a
/// block: the characters of Unicode's `White_Space` property.
pub open spec fn is_space(c: char) -> bool {
    let u = c as u32;
    ||| 0x09 <= u <= 0x0D
    ||| u == 0x20
    ||| u == 0x85
    ||| u == 0xA0
    ||| u == 0x1680
    ||| 0x2000 <= u <= 0x200A
    ||| u == 0x2028
    ||| u == 0x2029
    ||| u == 0x202F
    ||| u == 0x205F
    ||| u == 0x3000
}

/// `m` occurs in `t` starting at position `k`.
pub open spec fn occurs_at(t: Seq<char>, m: Seq<char>, k: int) -> bool {
    0 <= k && k + m.len() <= t.len() && t.subrange(k, k + m.len()) == m
}

/// The first position at or after `k` where `m` occurs in `t`.
pub open spec fn find_from(t: Seq<char>, m: Seq<char>, k: int) -> Option<int>
    decreases t.len() - k,
{
    if k < 0 || k >= t.len() || k + m.len() > t.len() {
        None
    } else if occurs_at(t, m, k) {
        Some(k)
    } else {
        find_from(t, m, k + 1)
    }
}

/// The first position at or after `k` that holds no whitespace (or the end).
pub open spec fn skip_spaces(t: Seq<char>, k: int) -> int
    decreases t.len() - k,
{
    if k < 0 || k >= t.len() || !is_space(t[k]) {
        k
    } else {
        skip_spaces(t, k + 1)
    }
}

/// The first position at or after `k` that holds whitespace (or the end).
pub open spec fn token_end(t: Seq<char>, k: int) -> int
    decreases t.len() - k,
{
    if k < 0 || k >= t.len() || is_space(t[k]) {
        k
    } else {
        token_end(t, k + 1)
    }
}

/// The block that starts at `p`, as (start of name, end of name, end of block):
/// the opening marker, whitespace, a non-empty name, whitespace, and then
/// everything up to and including the first closing marker.
pub open spec fn block_at(t: Seq<char>, g: Grammar, p: int) -> Option<(int, int, int)> {
    let after = p + opening_marker(g).len();
    if occurs_at(t, opening_marker(g), p) && after < t.len() && is_space(t[after]) {
        let lo = skip_spaces(t, after);
        let hi = token_end(t, lo);
        if lo < hi && hi < t.len() {
            match find_from(t, closing_marker(g), hi + 1) {
                Some(e) => Some((lo, hi, e + closing_marker(g).len())),
                None => None,
            }
        } else {
            None
        }
    } else {
        None
    }
}

/// The (name, block) pairs found by scanning `t` from `p`: a block is taken at
/// the leftmost position where one starts, and scanning resumes after it.
pub open spec fn blocks_from(t: Seq<char>, g: Grammar, p: int) -> Seq<(Seq<char>, Seq<char>)>
    decreases t.len() - p,
    via blocks_from_decreases
{
    if p < 0 || p >= t.len() {
        Seq::empty()
    } else {
        match block_at(t, g, p) {
            Some((lo, hi, e)) => seq![(t.subrange(lo, hi), t.subrange(p, e))] + blocks_from(t, g, e),
            None => blocks_from(t, g, p + 1),
        }
    }
}

#[via_fn]
proof fn blocks_from_decreases(t: Seq<char>, g: Grammar, p: int) {
    if !(p < 0 || p >= t.len()) {
        match block_at(t, g, p) {
            Some((lo, hi, e)) => {
                lemma_block_at_bounds(t, g, p);
            },
            None => {},
        }
    }
}

proof fn lemma_find_from_bounds(t: Seq<char>, m: Seq<char>, k: int)
    ensures
        match find_from(t, m, k) {
            Some(e) => k <= e && e + m.len() <= t.len() && occurs_at(t, m, e),
            None => true,
        },
    decreases t.len() - k,
{
    if !(k < 0 || k >= t.len() || k + m.len() > t.len()) && !occurs_at(t, m, k) {
        lemma_find_from_bounds(t, m, k + 1);
    }
}

proof fn lemma_skip_spaces_bounds(t: Seq<char>, k: int)
    requires
        0 <= k <= t.len(),
    ensures
        k <= skip_spaces(t, k) <= t.len(),
    decreases t.len() - k,
{
    if k < t.len() && is_space(t[k]) {
        lemma_skip_spaces_bounds(t, k + 1);
    }
}

proof fn lemma_token_end_bounds(t: Seq<char>, k: int)
    requires
        0 <= k <= t.len(),
    ensures
        k <= token_end(t, k) <= t.len(),
    decreases t.len() - k,
{
    if k < t.len() && !is_space(t[k]) {
        lemma_token_end_bounds(t, k + 1);
    }
}

/// A block lies inside the text, after its start, with its name inside it.
pub proof fn lemma_block_at_bounds(t: Seq<char>, g: Grammar, p: int)
    requires
        0 <= p,
    ensures
        match block_at(t, g, p) {
            Some((lo, hi, e)) => p < lo < hi < e <= t.len(),
            None => true,
        },
{
    let after = p + opening_marker(g).len();
    if occurs_at(t, opening_marker(g), p) && after < t.len() && is_space(t[after]) {
        lemma_skip_spaces_bounds(t, after);
        let lo = skip_spaces(t, after);
        lemma_token_end_bounds(t, lo);
        let hi = token_end(t, lo);
        if lo < hi && hi < t.len() {
            lemma_find_from_bounds(t, closing_marker(g), hi + 1);
        }
    }
}

/// The definitions that a text holds under a grammar: each block found by the
/// scan, under its name, a later block replacing an earlier one of the same name.
pub open spec fn definitions_in(t: Seq<char>, g: Grammar) -> Map<Seq<char>, Seq<char>> {
    map_of(blocks_from(t, g, 0))
}

proof fn lemma_find_first(t: Seq<char>, m: Seq<char>, a: int, b: int)
    requires
        0 <= a <= b,
        m.len() > 0,
        occurs_at(t, m, b),
        forall|k: int| a <= k < b ==> !occurs_at(t, m, k),
    ensures
        find_from(t, m, a) == Some(b),
    decreases b - a,
{
    if a < b {
        lemma_find_first(t, m, a + 1, b);
    }
}

proof fn lemma_token_run(t: Seq<char>, a: int, b: int)
    requires
        0 <= a <= b < t.len(),
        is_space(t[b]),
        forall|k: int| a <= k < b ==> !is_space(#[trigger] t[k]),
    ensures
        token_end(t, a) == b,
    decreases b - a,
{
    if a < b {
        lemma_token_run(t, a + 1, b);
    }
}

/// How one block of a document is laid out, around its name.
pub struct BlockLayout {
    /// Whitespace between the opening marker and the name.
    pub lead: Seq<char>,
    pub name: Seq<char>,
    /// Whitespace after the name.
    pub gap: Seq<char>,
    /// The rest of the block, before the closing marker.
    pub body: Seq<char>,
    /// Text between this block and the next one (or the end).
    pub trail: Seq<char>,
}

/// The text of a laid-out block, from its opening marker through its closing marker.
pub open spec fn layout_text(g: Grammar, b: BlockLayout) -> Seq<char> {
    opening_marker(g) + b.lead + b.name + b.gap + b.body + closing_marker(g)
}

/// Every character of `s` is whitespace.
pub open spec fn all_space(s: Seq<char>) -> bool {
    forall|i: int| 0 <= i < s.len() ==> is_space(#[trigger] s[i])
}

/// `s` holds no opening marker followed by whitespace.
pub open spec fn quiet(g: Grammar, s: Seq<char>) -> bool {
    forall|k: int| 0 <= k && k + opening_marker(g).len() < s.len() && #[trigger] occurs_at(s, opening_marker(g), k)
        ==> !is_space(s[k + opening_marker(g).len()])
}

/// A block that a reader takes as written: non-empty whitespace around a
/// non-empty name free of whitespace, no closing marker from just after the
/// name's first following character until the block's own, and a quiet trail.
pub open spec fn well_laid_out(g: Grammar, b: BlockLayout) -> bool {
    &&& b.lead.len() > 0 && all_space(b.lead)
    &&& b.name.len() > 0 && forall|i: int| 0 <= i < b.name.len() ==> !is_space(#[trigger] b.name[i])
    &&& b.gap.len() > 0 && all_space(b.gap)
    &&& forall|k: int| 1 <= k < b.gap.len() + b.body.len() ==> !occurs_at(
        b.gap + b.body + closing_marker(g),
        closing_marker(g),
        k,
    )
    &&& quiet(g, b.trail)
}

/// The blocks of `bs`, each followed by its trail.
pub open spec fn laid_out_blocks(g: Grammar, bs: Seq<BlockLayout>) -> Seq<char>
    decreases bs.len(),
{
    if bs.len() == 0 {
        Seq::empty()
    } else {
        layout_text(g, bs[0]) + bs[0].trail + laid_out_blocks(g, bs.skip(1))
    }
}

/// The (name, block text) pairs of laid-out blocks.
pub open spec fn laid_out_pairs(g: Grammar, bs: Seq<BlockLayout>) -> Seq<(Seq<char>, Seq<char>)> {
    bs.map_values(|b: BlockLayout| (b.name, layout_text(g, b)))
}

proof fn lemma_space_run(t: Seq<char>, a: int, b: int)
    requires
        0 <= a <= b < t.len(),
        !is_space(t[b]),
        forall|k: int| a <= k < b ==> is_space(#[trigger] t[k]),
    ensures
        skip_spaces(t, a) == b,
    decreases b - a,
{
    if a < b {
        lemma_space_run(t, a + 1, b);
    }
}

proof fn lemma_marker_facts(g: Grammar)
    ensures
        !is_space(opening_marker(g)[0]),
        forall|x: int| 1 <= x < opening_marker(g).len() ==> #[trigger] opening_marker(g)[x] != opening_marker(g)[0],
        opening_marker(g).len() > 0,
        closing_marker(g).len() > 0,
{
}

/// No block starts inside a quiet stretch `t[p..p + s.len()]` that is followed
/// by the end of the text or by an opening marker.
proof fn lemma_quiet_scan(t: Seq<char>, g: Grammar, s: Seq<char>, p: int)
    requires
        0 <= p,
        p + s.len() <= t.len(),
        t.subrange(p, p + s.len()) == s,
        quiet(g, s),
        p + s.len() == t.len() || t[p + s.len()] == opening_marker(g)[0],
    ensures
        blocks_from(t, g, p) == blocks_from(t, g, p + s.len()),
    decreases s.len(),
{
    if s.len() > 0 {
        let open = opening_marker(g);
        lemma_marker_facts(g);
        let end = p + s.len();
        if occurs_at(t, open, p) && p + open.len() < t.len() && is_space(t[p + open.len()]) {
            if p + open.len() < end {
                assert(s.subrange(0, open.len() as int) =~= t.subrange(p, p + open.len()));
                assert(occurs_at(s, open, 0));
                assert(s[open.len() as int] == t[p + open.len()]);
            } else if p + open.len() == end {
            } else {
                assert(t.subrange(p, p + open.len())[end - p] == t[end]);
            }
        }
        assert(block_at(t, g, p) is None);
        let s1 = s.skip(1);
        assert(t.subrange(p + 1, p + 1 + s1.len()) =~= s1);
        assert(quiet(g, s1)) by {
            assert forall|k: int| 0 <= k && k + open.len() < s1.len() && #[trigger] occurs_at(s1, open, k)
                implies !is_space(s1[k + open.len()]) by {
                assert(s.subrange(k + 1, k + 1 + open.len()) =~= s1.subrange(k, k + open.len()));
                assert(occurs_at(s, open, k + 1));
            }
        }
        lemma_quiet_scan(t, g, s1, p + 1);
    }
}

/// A well laid-out block at `p` is the block that the scan takes there.
proof fn lemma_layout_in_text(t: Seq<char>, g: Grammar, b: BlockLayout, p: int)
    requires
        0 <= p,
        p + layout_text(g, b).len() <= t.len(),
        t.subrange(p, p + layout_text(g, b).len()) == layout_text(g, b),
        well_laid_out(g, b),
    ensures
        ({
            let lo = p + opening_marker(g).len() + b.lead.len();
            let hi = lo + b.name.len();
            let e = p + layout_text(g, b).len();
            &&& block_at(t, g, p) == Some((lo, hi, e))
            &&& t.subrange(lo, hi) == b.name
            &&& t.subrange(p, e) == layout_text(g, b)
        }),
{
    let open = opening_marker(g);
    let close = closing_marker(g);
    let blk = layout_text(g, b);
    lemma_marker_facts(g);
    assert forall|x: int| 0 <= x < blk.len() implies t[p + x] == #[trigger] blk[x] by {
        assert(t.subrange(p, p + blk.len())[x] == t[p + x]);
    }
    let after = p + open.len();
    let lo = after + b.lead.len();
    let hi = lo + b.name.len();
    let gb = b.gap + b.body + close;
    let e = p + blk.len();
    assert(blk =~= open + b.lead + b.name + gb);
    assert(t.subrange(p, after) =~= open) by {
        assert forall|x: int| 0 <= x < open.len() implies t.subrange(p, after)[x] == open[x] by {
            assert(blk[x] == open[x]);
        }
    }
    assert(t[after] == b.lead[0]) by {
        assert(blk[open.len() as int] == b.lead[0]);
    }
    assert forall|k: int| after <= k < lo implies is_space(#[trigger] t[k]) by {
        assert(blk[k - p] == b.lead[k - after]);
    }
    assert(t[lo] == b.name[0]) by {
        assert(blk[lo - p] == b.name[0]);
    }
    lemma_space_run(t, after, lo);
    assert forall|k: int| lo <= k < hi implies !is_space(#[trigger] t[k]) by {
        assert(blk[k - p] == b.name[k - lo]);
    }
    assert forall|x: int| 0 <= x < gb.len() implies t[hi + x] == #[trigger] gb[x] by {
        assert(blk[hi - p + x] == gb[x]);
    }
    assert(t[hi] == b.gap[0]) by {
        assert(gb[0] == b.gap[0]);
    }
    lemma_token_run(t, lo, hi);
    let bend = hi + b.gap.len() + b.body.len();
    assert forall|k: int| hi + 1 <= k < bend implies !occurs_at(t, close, k) by {
        assert(t.subrange(k, k + close.len()) =~= gb.subrange(k - hi, k - hi + close.len()));
        assert(!occurs_at(gb, close, k - hi));
    }
    assert(occurs_at(t, close, bend)) by {
        assert forall|x: int| 0 <= x < close.len() implies t.subrange(bend, e)[x] == close[x] by {
            assert(gb[b.gap.len() + b.body.len() + x] == close[x]);
        }
        assert(t.subrange(bend, e) =~= close);
    }
    lemma_find_first(t, close, hi + 1, bend);
    assert(t.subrange(lo, hi) =~= b.name) by {
        assert forall|x: int| 0 <= x < b.name.len() implies t.subrange(lo, hi)[x] == b.name[x] by {
            assert(blk[lo - p + x] == b.name[x]);
        }
    }
}

proof fn lemma_scan_layout(t: Seq<char>, g: Grammar, bs: Seq<BlockLayout>, p: int)
    requires
        0 <= p <= t.len(),
        t.subrange(p, t.len() as int) == laid_out_blocks(g, bs),
        forall|i: int| 0 <= i < bs.len() ==> well_laid_out(g, #[trigger] bs[i]),
    ensures
        blocks_from(t, g, p) == laid_out_pairs(g, bs),
    decreases bs.len(),
{
    if bs.len() == 0 {
        assert(laid_out_pairs(g, bs) =~= Seq::<(Seq<char>, Seq<char>)>::empty());
        assert(t.subrange(p, t.len() as int).len() == 0);
    } else {
        let b = bs[0];
        assert(well_laid_out(g, b));
        let blk = layout_text(g, b);
        let rest = laid_out_blocks(g, bs.skip(1));
        let u = t.subrange(p, t.len() as int);
        assert(u == blk + b.trail + rest);
        let e = p + blk.len();
        let f = e + b.trail.len();
        assert(t.subrange(p, e) =~= blk) by {
            assert forall|x: int| 0 <= x < blk.len() implies t.subrange(p, e)[x] == blk[x] by {
                assert(u[x] == (blk + b.trail + rest)[x]);
            }
        }
        lemma_layout_in_text(t, g, b, p);
        assert(t.subrange(e, f) =~= b.trail) by {
            assert forall|x: int| 0 <= x < b.trail.len() implies t.subrange(e, f)[x] == b.trail[x] by {
                assert(u[blk.len() + x] == (blk + b.trail + rest)[blk.len() + x]);
            }
        }
        assert(t.subrange(f, t.len() as int) =~= rest) by {
            assert forall|x: int| 0 <= x < rest.len() implies t.subrange(f, t.len() as int)[x] == rest[x] by {
                assert(u[blk.len() + b.trail.len() + x] == (blk + b.trail + rest)[blk.len() + b.trail.len() + x]);
            }
        }
        if f < t.len() {
            let b1 = bs.skip(1)[0];
            assert(rest == layout_text(g, b1) + b1.trail + laid_out_blocks(g, bs.skip(1).skip(1)));
            assert(rest[0] == opening_marker(g)[0]);
            assert(t[f] == rest[0]) by {
                assert(t.subrange(f, t.len() as int)[0] == t[f]);
            }
        }
        lemma_quiet_scan(t, g, b.trail, e);
        assert forall|i: int| 0 <= i < bs.skip(1).len() implies well_laid_out(g, #[trigger] bs.skip(1)[i]) by {
            assert(bs.skip(1)[i] == bs[i + 1]);
        }
        lemma_scan_layout(t, g, bs.skip(1), f);
        assert(laid_out_pairs(g, bs) =~= seq![(b.name, blk)] + laid_out_pairs(g, bs.skip(1)));
    }
}

/// Reading a document made of a quiet preamble followed by well laid-out
/// blocks with distinct names, each followed by a quiet trail, gives one
/// definition per block, under the block's name, holding the block's whole
/// text from its opening marker through its closing marker.
pub proof fn lemma_parse_laid_out(g: Grammar, preamble: Seq<char>, bs: Seq<BlockLayout>)
    requires
        quiet(g, preamble),
        forall|i: int| 0 <= i < bs.len() ==> well_laid_out(g, #[trigger] bs[i]),
        forall|i: int, j: int| 0 <= i < j < bs.len() ==> bs[i].name != bs[j].name,
    ensures
        definitions_in(preamble + laid_out_blocks(g, bs), g).len() == bs.len(),
        forall|i: int| 0 <= i < bs.len() ==> definitions_in(preamble + laid_out_blocks(g, bs), g).contains_key(
            (#[trigger] bs[i]).name,
        ) && definitions_in(preamble + laid_out_blocks(g, bs), g)[bs[i].name] == layout_text(g, bs[i]),
{
    let rest = laid_out_blocks(g, bs);
    let t = preamble + rest;
    assert(t.subrange(0, preamble.len() as int) =~= preamble);
    assert(t.subrange(preamble.len() as int, t.len() as int) =~= rest);
    if preamble.len() < t.len() {
        assert(rest == layout_text(g, bs[0]) + bs[0].trail + laid_out_blocks(g, bs.skip(1)));
        assert(t[preamble.len() as int] == rest[0]);
    }
    lemma_quiet_scan(t, g, preamble, 0);
    lemma_scan_layout(t, g, bs, preamble.len() as int);
    let w = laid_out_pairs(g, bs);
    assert(names_unique(w)) by {
        assert forall|i: int, j: int| 0 <= i < j < w.len() implies w[i].0 != w[j].0 by {
            assert(w[i].0 == bs[i].name && w[j].0 == bs[j].name);
        }
    }
    lemma_map_of_len(w);
    lemma_map_of_entries(w);
    assert forall|i: int| 0 <= i < bs.len() implies definitions_in(t, g).contains_key((#[trigger] bs[i]).name)
        && definitions_in(t, g)[bs[i].name] == layout_text(g, bs[i]) by {
        assert(w[i].0 == bs[i].name);
    }
}

/// `v` is a block named `k`: the opening marker, non-empty whitespace, the
/// non-empty name `k` free of whitespace, whitespace, any text, and the
/// closing marker at the very end.
pub open spec fn has_block_shape(g: Grammar, k: Seq<char>, v: Seq<char>) -> bool {
    &&& k.len() > 0
    &&& forall|i: int| 0 <= i < k.len() ==> !is_space(#[trigger] k[i])
    &&& v.len() >= closing_marker(g).len()
    &&& v.subrange(v.len() - closing_marker(g).len(), v.len() as int) == closing_marker(g)
    &&& exists|w: Seq<char>, rest: Seq<char>|
        w.len() > 0 && all_space(w) && rest.len() > 0 && is_space(rest[0]) && #[trigger] (opening_marker(g) + w + k
            + rest) == v
}

proof fn lemma_skip_spaces_all(t: Seq<char>, k: int)
    requires
        0 <= k <= t.len(),
    ensures
        forall|x: int| k <= x < skip_spaces(t, k) ==> is_space(#[trigger] t[x]),
    decreases t.len() - k,
{
    if k < t.len() && is_space(t[k]) {
        lemma_skip_spaces_all(t, k + 1);
    }
}

proof fn lemma_token_end_all(t: Seq<char>, k: int)
    requires
        0 <= k <= t.len(),
    ensures
        forall|x: int| k <= x < token_end(t, k) ==> !is_space(#[trigger] t[x]),
        token_end(t, k) < t.len() ==> is_space(t[token_end(t, k)]),
    decreases t.len() - k,
{
    if k < t.len() && !is_space(t[k]) {
        lemma_token_end_all(t, k + 1);
    }
}

/// A block that the scan takes has the block shape.
proof fn lemma_block_at_shape(t: Seq<char>, g: Grammar, p: int)
    requires
        0 <= p,
        block_at(t, g, p) is Some,
    ensures
        ({
            let (lo, hi, e) = block_at(t, g, p)->0;
            has_block_shape(g, t.subrange(lo, hi), t.subrange(p, e))
        }),
{
    let (lo, hi, e) = block_at(t, g, p)->0;
    let open = opening_marker(g);
    let close = closing_marker(g);
    let after = p + open.len();
    lemma_block_at_bounds(t, g, p);
    assert(occurs_at(t, open, p) && after < t.len() && is_space(t[after]));
    assert(lo == skip_spaces(t, after) && hi == token_end(t, lo));
    assert(skip_spaces(t, after) == skip_spaces(t, after + 1));
    lemma_skip_spaces_bounds(t, after + 1);
    lemma_skip_spaces_all(t, after);
    lemma_token_end_all(t, lo);
    lemma_find_from_bounds(t, close, hi + 1);
    let k = t.subrange(lo, hi);
    let v = t.subrange(p, e);
    let w = t.subrange(after, lo);
    let rest = t.subrange(hi, e - 0);
    assert(all_space(w));
    assert forall|i: int| 0 <= i < k.len() implies !is_space(#[trigger] k[i]) by {
        assert(k[i] == t[lo + i]);
    }
    assert(is_space(rest[0]));
    assert(t.subrange(p, after) == open);
    assert(open + w + k + rest =~= v);
    assert(v.subrange(v.len() - close.len(), v.len() as int) =~= t.subrange(e - close.len(), e));
}

/// Every pair that the scan from `p` yields is a block, with its name, that
/// occurs in the text.
proof fn lemma_blocks_shape(t: Seq<char>, g: Grammar, p: int)
    requires
        0 <= p,
    ensures
        forall|i: int| 0 <= i < blocks_from(t, g, p).len() ==> has_block_shape(
            g,
            (#[trigger] blocks_from(t, g, p)[i]).0,
            blocks_from(t, g, p)[i].1,
        ) && exists|q: int| 0 <= q <= t.len() - blocks_from(t, g, p)[i].1.len()
            && #[trigger] t.subrange(q, q + blocks_from(t, g, p)[i].1.len()) == blocks_from(t, g, p)[i].1,
    decreases t.len() - p,
{
    if p < t.len() {
        match block_at(t, g, p) {
            Some((lo, hi, e)) => {
                lemma_block_at_bounds(t, g, p);
                lemma_block_at_shape(t, g, p);
                lemma_blocks_shape(t, g, e);
                let s = blocks_from(t, g, p);
                let r = blocks_from(t, g, e);
                assert(s == seq![(t.subrange(lo, hi), t.subrange(p, e))] + r);
                assert forall|i: int| 0 <= i < s.len() implies has_block_shape(g, (#[trigger] s[i]).0, s[i].1)
                    && exists|q: int| 0 <= q <= t.len() - s[i].1.len() && #[trigger] t.subrange(q, q + s[i].1.len())
                    == s[i].1 by {
                    if i == 0 {
                        assert(s[0] == (t.subrange(lo, hi), t.subrange(p, e)));
                        assert(t.subrange(p, p + s[0].1.len()) == s[0].1);
                    } else {
                        assert(s[i] == r[i - 1]);
                    }
                }
            },
            None => {
                lemma_blocks_shape(t, g, p + 1);
                assert(blocks_from(t, g, p) == blocks_from(t, g, p + 1));
            },
        }
    }
}

/// Every definition that a text holds is a block under its own name, with
/// whitespace around the name, and occurs verbatim in the text.
pub proof fn lemma_definitions_shape(t: Seq<char>, g: Grammar)
    ensures
        forall|k: Seq<char>| #[trigger] definitions_in(t, g).contains_key(k) ==> has_block_shape(
            g,
            k,
            definitions_in(t, g)[k],
        ) && exists|q: int| 0 <= q <= t.len() - definitions_in(t, g)[k].len()
            && #[trigger] t.subrange(q, q + definitions_in(t, g)[k].len()) == definitions_in(t, g)[k],
{
    let s = blocks_from(t, g, 0);
    lemma_blocks_shape(t, g, 0);
    lemma_map_of_values(s);
    assert forall|k: Seq<char>| #[trigger] definitions_in(t, g).contains_key(k) implies has_block_shape(
        g,
        k,
        definitions_in(t, g)[k],
    ) && exists|q: int| 0 <= q <= t.len() - definitions_in(t, g)[k].len()
        && #[trigger] t.subrange(q, q + definitions_in(t, g)[k].len()) == definitions_in(t, g)[k] by {
        let i = choose|i: int| 0 <= i < s.len() && s[i].0 == k && s[i].1 == map_of(s)[k];
        assert(has_block_shape(g, s[i].0, s[i].1));
    }
}

fn opening_marker_chars(g: Grammar) -> (r: Vec<char>)
    ensures
        r@ == opening_marker(g),
{
    match g {
        Grammar::Symbol => vec!['D', 'E', 'F'],
        Grammar::Documentation => vec!['$', 'C', 'M', 'P'],
    }
}

fn closing_marker_chars(g: Grammar) -> (r: Vec<char>)
    ensures
        r@ == closing_marker(g),
{
    match g {
        Grammar::Symbol => vec!['E', 'N', 'D', 'D', 'E', 'F'],
        Grammar::Documentation => vec!['$', 'E', 'N', 'D', 'C', 'M', 'P'],
    }
}

fn space_at(t: &Vec<char>, k: usize) -> (r: bool)
    requires
        k < t@.len(),
    ensures
        r == is_space(t@[k as int]),
{
    let u = t[k] as u32;
    (0x09 <= u && u <= 0x0D) || u == 0x20 || u == 0x85 || u == 0xA0 || u == 0x1680 || (0x2000 <= u && u
        <= 0x200A) || u == 0x2028 || u == 0x2029 || u == 0x202F || u == 0x205F || u == 0x3000
}

pub(crate) fn occurs_at_exec(t: &Vec<char>, m: &Vec<char>, k: usize) -> (r: bool)
    ensures
        r == occurs_at(t@, m@, k as int),
{
    if m.len() > t.len() || k > t.len() - m.len() {
        return false;
    }
    let mut j: usize = 0;
    while j < m.len()
        invariant
            k + m@.len() <= t@.len() <= usize::MAX,
            j <= m@.len(),
            forall|x: int| 0 <= x < j ==> t@[k + x] == m@[x],
        decreases m@.len() - j,
    {
        if t[k + j] != m[j] {
            assert(t@.subrange(k as int, k + m@.len())[j as int] != m@[j as int]);
            return false;
        }
        j = j + 1;
    }
    assert(t@.subrange(k as int, k + m@.len()) =~= m@);
    true
}

fn find_from_exec(t: &Vec<char>, m: &Vec<char>, k: usize) -> (r: Option<usize>)
    ensures
        match r {
            Some(e) => find_from(t@, m@, k as int) == Some(e as int),
            None => find_from(t@, m@, k as int) is None,
        },
{
    let mut i: usize = k;
    while i < t.len()
        invariant
            k <= i,
            find_from(t@, m@, k as int) == find_from(t@, m@, i as int),
        decreases t@.len() - i,
    {
        if m.len() > t.len() - i {
            return None;
        }
        if occurs_at_exec(t, m, i) {
            return Some(i);
        }
        i = i + 1;
    }
    None
}

fn skip_spaces_exec(t: &Vec<char>, k: usize) -> (r: usize)
    requires
        k <= t@.len(),
    ensures
        r == skip_spaces(t@, k as int),
{
    let mut i: usize = k;
    while i < t.len() && space_at(t, i)
        invariant
            k <= i <= t@.len(),
            skip_spaces(t@, k as int) == skip_spaces(t@, i as int),
        decreases t@.len() - i,
    {
        i = i + 1;
    }
    i
}

fn token_end_exec(t: &Vec<char>, k: usize) -> (r: usize)
    requires
        k <= t@.len(),
    ensures
        r == token_end(t@, k as int),
{
    let mut i: usize = k;
    while i < t.len() && !space_at(t, i)
        invariant
            k <= i <= t@.len(),
            token_end(t@, k as int) == token_end(t@, i as int),
        decreases t@.len() - i,
    {
        i = i + 1;
    }
    i
}

fn block_at_exec(t: &Vec<char>, g: Grammar, p: usize) -> (r: Option<(usize, usize, usize)>)
    ensures
        match r {
            Some((lo, hi, e)) => block_at(t@, g, p as int) == Some((lo as int, hi as int, e as int)),
            None => block_at(t@, g, p as int) is None,
        },
{
    let open = opening_marker_chars(g);
    let close = closing_marker_chars(g);
    if !occurs_at_exec(t, &open, p) {
        return None;
    }
    let n = t.len();
    let after = p + open.len();
    if after >= n || !space_at(t, after) {
        return None;
    }
    let lo = skip_spaces_exec(t, after);
    proof {
        lemma_skip_spaces_bounds(t@, after as int);
    }
    let hi = token_end_exec(t, lo);
    proof {
        lemma_token_end_bounds(t@, lo as int);
    }
    if !(lo < hi && hi < t.len()) {
        return None;
    }
    match find_from_exec(t, &close, hi + 1) {
        Some(e) => {
            proof {
                lemma_find_from_bounds(t@, close@, hi + 1);
            }
            Some((lo, hi, e + close.len()))
        },
        None => None,
    }
}

/// Reads every block of `text` under grammar `g` into a definition set keyed by
/// the blocks' names. A text without blocks gives an empty set; an opening
/// marker without a closing marker after it gives no block.
pub fn parse_definitions(text: &str, g: Grammar) -> (r: DefinitionSet)
    ensures
        r.wf(),
        r@ == definitions_in(text@, g),
{
    let t = chars_of(text);
    let mut set = DefinitionSet::new();
    let ghost mut found: Seq<(Seq<char>, Seq<char>)> = Seq::empty();
    let mut p: usize = 0;
    while p < t.len()
        invariant
            p <= t@.len(),
            t@ == text@,
            set.wf(),
            set@ == map_of(found),
            found + blocks_from(t@, g, p as int) == blocks_from(t@, g, 0),
        decreases t@.len() - p,
    {
        match block_at_exec(&t, g, p) {
            Some((lo, hi, e)) => {
                proof {
                    lemma_block_at_bounds(t@, g, p as int);
                }
                let name = string_from_range(&t, lo, hi);
                let block = string_from_range(&t, p, e);
                let ghost pair = (name@, block@);
                set.insert(name, block);
                proof {
                    assert(blocks_from(t@, g, p as int) == seq![pair] + blocks_from(t@, g, e as int));
                    assert(found.push(pair) + blocks_from(t@, g, e as int) =~= found + (seq![pair]
                        + blocks_from(t@, g, e as int)));
                    assert(found.push(pair).drop_last() =~= found);
                    found = found.push(pair);
                }
                p = e;
            },
            None => {
                p = p + 1;
            },
        }
    }
    assert(found =~= found + blocks_from(t@, g, p as int));
    set
}

/// The symbol definitions (`DEF <name> ... ENDDEF`) of a symbol-library text.
pub fn get_lib_defs(contents: &str) -> (r: DefinitionSet)
    ensures
        r.wf(),
        r@ == definitions_in(contents@, Grammar::Symbol),
{
    parse_definitions(contents, Grammar::Symbol)
}

/// The documentation entries (`$CMP <name> ... $ENDCMP`) of a documentation-library text.
pub fn get_dcm_defs(contents: &str) -> (r: DefinitionSet)
    ensures
        r.wf(),
        r@ == definitions_in(contents@, Grammar::Documentation),
{
    parse_definitions(contents, Grammar::Documentation)
}

} // verus!
