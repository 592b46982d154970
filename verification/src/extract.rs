//! Extraction pipeline for retail search pages. The structured strategy
//! reads product tiles out of each document and keeps the tiles whose
//! lower-cased title mentions the target keyword in either spelling; only a
//! matched tile contributes its availability label. When no document has
//! yielded a match, a fallback scan of the raw text looks for the keyword and
//! for the fixed availability prefixes, taking a bounded window of word-like
//! characters after each occurrence.

use vstd::prelude::*;
use crate::text::chars_of;
use crate::text::contains_seq;
use crate::text::contains_sub;
use crate::text::chars_eq;
use crate::text::first_match_from;
use crate::text::find_from;
use crate::text::lemma_first_match_from;
use crate::text::sub_vec;
use crate::text::trim_end_punct;
use crate::text::trim_end_punct_spec;
use crate::text::trim_spaces;
use crate::text::trim_spaces_spec;
use crate::text::views_of;

verus! {

/// What the structured and fallback strategies feed: the product names and
/// availability phrases seen so far, each kept once in discovery order, and
/// whether any product has matched yet.
pub struct GatherModel {
    pub products: Seq<Seq<char>>,
    pub avail: Seq<Seq<char>>,
    pub has_products: bool,
}

/// The empty gathering state.
pub open spec fn gather_init() -> GatherModel {
    GatherModel { products: Seq::empty(), avail: Seq::empty(), has_products: false }
}

/// `x` appended unless already present: set semantics in first-seen order.
pub open spec fn insert_unique(s: Seq<Seq<char>>, x: Seq<char>) -> Seq<Seq<char>> {
    if s.contains(x) {
        s
    } else {
        s.push(x)
    }
}

/// What the title and availability-label texts of the product tiles of a
/// document are, for the given selectors: the title is the space-joined,
/// trimmed text of the tile's first title element, the label likewise of its
/// first availability element.
pub uninterp spec fn tiles_of(
    html: Seq<char>,
    tile_sel: Seq<char>,
    title_sel: Seq<char>,
    avail_sel: Seq<char>,
) -> Seq<(Option<Seq<char>>, Option<Seq<char>>)>;

/// What lower-casing a string yields.
pub uninterp spec fn lower_of(s: Seq<char>) -> Seq<char>;

/// Whether a character is alphanumeric in Unicode's sense.
pub uninterp spec fn is_alnum(c: char) -> bool;

/// The view of an optional string.
pub open spec fn opt_view(o: Option<String>) -> Option<Seq<char>> {
    match o {
        Some(s) => Some(s@),
        None => None,
    }
}

/// The views of one tile's texts.
pub open spec fn tile_pair_view(t: (Option<String>, Option<String>)) -> (
    Option<Seq<char>>,
    Option<Seq<char>>,
) {
    (opt_view(t.0), opt_view(t.1))
}

/// Relies on scraper: parse `html`, select the elements matching `tile_sel`,
/// and give, for each in document order, the space-joined, trimmed text of
/// its first descendant matching `title_sel` and of its first descendant
/// matching `avail_sel`.
#[verifier::external_body]
fn scrape_tiles(html: &str, tile_sel: &str, title_sel: &str, avail_sel: &str) -> (r: Vec<
    (Option<String>, Option<String>),
>)
    ensures
        r@.map_values(|t: (Option<String>, Option<String>)| tile_pair_view(t)) == tiles_of(
            html@,
            tile_sel@,
            title_sel@,
            avail_sel@,
        ),
{
    let mut out = Vec::new();
    let doc = scraper::Html::parse_document(html);
    let (Ok(ts), Ok(ns), Ok(vs)) = (
        scraper::Selector::parse(tile_sel),
        scraper::Selector::parse(title_sel),
        scraper::Selector::parse(avail_sel),
    ) else {
        return out;
    };
    for tile in doc.select(&ts) {
        let title = tile.select(&ns).next().map(|e| e.text().collect::<Vec<_>>().join(" ").trim().to_string());
        let avail = tile.select(&vs).next().map(|e| e.text().collect::<Vec<_>>().join(" ").trim().to_string());
        out.push((title, avail));
    }
    out
}

/// Relies on `str::to_lowercase`: the result depends on the characters alone.
#[verifier::external_body]
fn lowercase(s: &str) -> (r: String)
    ensures
        r@ == lower_of(s@),
{
    s.to_lowercase()
}

/// Relies on `char::is_alphanumeric`: the result depends on the character
/// alone.
#[verifier::external_body]
fn char_is_alnum(c: char) -> (r: bool)
    ensures
        r == is_alnum(c),
{
    c.is_alphanumeric()
}

/// A tile's title mentions the keyword in either spelling, ignoring case.
pub open spec fn tile_matches(title: Seq<char>) -> bool {
    contains_seq(lower_of(title), "handtuch"@) || contains_seq(lower_of(title), "handtücher"@)
}

/// One tile's contribution: a matched title is kept, and only then is the
/// tile's non-empty availability label kept.
pub open spec fn step_tile(g: GatherModel, tile: (Option<Seq<char>>, Option<Seq<char>>)) -> GatherModel {
    match tile.0 {
        Some(title) => if tile_matches(title) {
            let g1 = GatherModel {
                products: insert_unique(g.products, title),
                avail: g.avail,
                has_products: true,
            };
            match tile.1 {
                Some(a) => if a.len() > 0 {
                    GatherModel {
                        products: g1.products,
                        avail: insert_unique(g1.avail, a),
                        has_products: g1.has_products,
                    }
                } else {
                    g1
                },
                None => g1,
            }
        } else {
            g
        },
        None => g,
    }
}

/// All tiles of one document, in order.
pub open spec fn fold_tiles(
    g: GatherModel,
    tiles: Seq<(Option<Seq<char>>, Option<Seq<char>>)>,
) -> GatherModel
    decreases tiles.len(),
{
    if tiles.len() == 0 {
        g
    } else {
        fold_tiles(step_tile(g, tiles[0]), tiles.drop_first())
    }
}

/// A character the fallback keeps inside a candidate product name.
pub open spec fn name_char(c: char) -> bool {
    is_alnum(c) || c == ' ' || c == ',' || c == '-' || c == '.'
}

/// A character the fallback keeps inside a candidate availability phrase.
pub open spec fn avail_char(c: char) -> bool {
    is_alnum(c) || c == '.' || c == ' ' || c == ','
}

/// The first position at or after `i` whose character a name window excludes.
pub open spec fn first_non_name(s: Seq<char>, i: int) -> int
    decreases s.len() - i,
{
    if 0 <= i < s.len() && name_char(s[i]) {
        first_non_name(s, i + 1)
    } else {
        i
    }
}

/// The first position at or after `i` whose character an availability window
/// excludes.
pub open spec fn first_non_avail(s: Seq<char>, i: int) -> int
    decreases s.len() - i,
{
    if 0 <= i < s.len() && avail_char(s[i]) {
        first_non_avail(s, i + 1)
    } else {
        i
    }
}

/// Where the name window starting at `st` ends: at the first excluded
/// character, or after 40 characters (or at the end) when none follows.
pub open spec fn name_window_end(s: Seq<char>, st: int) -> int {
    let k = first_non_name(s, st);
    if k < s.len() {
        k
    } else if s.len() - st < 40 {
        s.len() as int
    } else {
        st + 40
    }
}

/// Where the availability window starting at `st` ends: at the first excluded
/// character, or after 30 characters (or at the end) when none follows.
pub open spec fn avail_window_end(s: Seq<char>, st: int) -> int {
    let k = first_non_avail(s, st);
    if k < s.len() {
        k
    } else if s.len() - st < 30 {
        s.len() as int
    } else {
        st + 30
    }
}

/// A candidate name cleaned: trimmed, trailing commas and periods dropped,
/// trimmed again.
pub open spec fn clean_name(s: Seq<char>) -> Seq<char> {
    trim_spaces_spec(trim_end_punct_spec(trim_spaces_spec(s)))
}

/// The fallback name scan for one term: at each occurrence of `term`, the
/// window's cleaned text becomes a product when its length lies strictly
/// between 8 and 100 characters.
pub open spec fn scan_names(body: Seq<char>, term: Seq<char>, pos: int, g: GatherModel) -> GatherModel
    decreases body.len() + 1 - pos,
    via scan_names_decreases
{
    match first_match_from(body, term, pos) {
        None => g,
        Some(st) => {
            let wend = name_window_end(body, st);
            let name = clean_name(body.subrange(st, wend));
            let g2 = if 8 < name.len() < 100 {
                GatherModel {
                    products: insert_unique(g.products, name),
                    avail: g.avail,
                    has_products: true,
                }
            } else {
                g
            };
            let adv = if wend - st > 1 {
                wend - st
            } else {
                1
            };
            scan_names(body, term, st + adv, g2)
        },
    }
}

#[via_fn]
proof fn scan_names_decreases(body: Seq<char>, term: Seq<char>, pos: int, g: GatherModel) {
    if first_match_from(body, term, pos) is Some {
        lemma_first_match_from(body, term, pos);
    }
}

/// The fallback availability scan for one prefix: at each occurrence, the
/// window's trimmed text becomes an availability phrase when it has at least
/// 5 characters and holds a period.
pub open spec fn scan_avails(body: Seq<char>, prefix: Seq<char>, pos: int, g: GatherModel) -> GatherModel
    decreases body.len() + 1 - pos,
    via scan_avails_decreases
{
    match first_match_from(body, prefix, pos) {
        None => g,
        Some(st) => {
            let wend = avail_window_end(body, st);
            let info = trim_spaces_spec(body.subrange(st, wend));
            let g2 = if info.len() >= 5 && contains_seq(info, "."@) {
                GatherModel {
                    products: g.products,
                    avail: insert_unique(g.avail, info),
                    has_products: g.has_products,
                }
            } else {
                g
            };
            let adv = if wend - st > 1 {
                wend - st
            } else {
                1
            };
            scan_avails(body, prefix, st + adv, g2)
        },
    }
}

#[via_fn]
proof fn scan_avails_decreases(body: Seq<char>, prefix: Seq<char>, pos: int, g: GatherModel) {
    if first_match_from(body, prefix, pos) is Some {
        lemma_first_match_from(body, prefix, pos);
    }
}

/// The whole fallback pass over one document: both keyword spellings, then
/// both availability prefixes.
pub open spec fn fallback(g: GatherModel, body: Seq<char>) -> GatherModel {
    let g1 = scan_names(body, "Handtuch"@, 0, g);
    let g2 = scan_names(body, "Handtücher"@, 0, g1);
    let g3 = scan_avails(body, "Verfügbar ab "@, 0, g2);
    scan_avails(body, "ab "@, 0, g3)
}

/// One document: the structured pass, then, when no document so far has
/// matched a product, the fallback pass.
pub open spec fn step_doc(g: GatherModel, body: Seq<char>) -> GatherModel {
    let g1 = fold_tiles(
        g,
        tiles_of(
            body,
            ".product-tile"@,
            ".product-tile__title, .product-tile__name"@,
            ".product-tile__availability, .availability-label, .badge--availability"@,
        ),
    );
    if !g1.has_products {
        fallback(g1, body)
    } else {
        g1
    }
}

/// All documents, in order.
pub open spec fn fold_docs(g: GatherModel, docs: Seq<Seq<char>>) -> GatherModel
    decreases docs.len(),
{
    if docs.len() == 0 {
        g
    } else {
        fold_docs(step_doc(g, docs[0]), docs.drop_first())
    }
}

/// What the pipeline gathers from the documents.
pub open spec fn spec_gather(docs: Seq<Seq<char>>) -> GatherModel {
    fold_docs(gather_init(), docs)
}

/// The gathering state as executable data.
pub(crate) struct Gather {
    pub products: Vec<Vec<char>>,
    pub avail: Vec<Vec<char>>,
    pub has_products: bool,
}

impl Gather {
    pub(crate) open spec fn model(self) -> GatherModel {
        GatherModel {
            products: views_of(self.products@),
            avail: views_of(self.avail@),
            has_products: self.has_products,
        }
    }
}

/// Append `x` to `s` unless an equal entry is already there.
fn insert_unique_exec(s: &mut Vec<Vec<char>>, x: Vec<char>)
    ensures
        views_of(final (s)@) == insert_unique(views_of(old(s)@), x@),
{
    let mut i: usize = 0;
    while i < s.len()
        invariant
            i <= s@.len(),
            s@ == old(s)@,
            forall|j: int| 0 <= j < i ==> views_of(s@)[j] != x@,
        decreases s@.len() - i,
    {
        if chars_eq(&s[i], &x) {
            proof {
                assert(views_of(s@)[i as int] == x@);
                assert(views_of(s@).contains(x@));
            }
            return ;
        }
        i = i + 1;
    }
    proof {
        assert(forall|j: int| 0 <= j < views_of(s@).len() ==> views_of(s@)[j] != x@);
        assert(!views_of(s@).contains(x@));
    }
    let ghost prev = views_of(s@);
    s.push(x);
    proof {
        assert(views_of(s@) =~= prev.push(x@));
    }
}

/// The structured pass over one document's tiles.
fn process_tiles(g: &mut Gather, tiles: &Vec<(Option<String>, Option<String>)>)
    ensures
        final (g).model() == fold_tiles(
            old(g).model(),
            tiles@.map_values(|t: (Option<String>, Option<String>)| tile_pair_view(t)),
        ),
{
    let ghost tvs = tiles@.map_values(|t: (Option<String>, Option<String>)| tile_pair_view(t));
    let kw1 = chars_of("handtuch");
    let kw2 = chars_of("handtücher");
    proof {
        assert(tvs.skip(0) =~= tvs);
    }
    let mut i: usize = 0;
    while i < tiles.len()
        invariant
            i <= tiles@.len(),
            tvs == tiles@.map_values(|t: (Option<String>, Option<String>)| tile_pair_view(t)),
            kw1@ == "handtuch"@,
            kw2@ == "handtücher"@,
            fold_tiles(g.model(), tvs.skip(i as int)) == fold_tiles(old(g).model(), tvs),
        decreases tiles@.len() - i,
    {
        let ghost gpre = g.model();
        let tile = &tiles[i];
        match &tile.0 {
            Some(title) => {
                let lower = lowercase(title.as_str());
                let lv = chars_of(lower.as_str());
                if contains_sub(&lv, &kw1) || contains_sub(&lv, &kw2) {
                    let tv = chars_of(title.as_str());
                    insert_unique_exec(&mut g.products, tv);
                    g.has_products = true;
                    match &tile.1 {
                        Some(a) => {
                            let av = chars_of(a.as_str());
                            if av.len() > 0 {
                                insert_unique_exec(&mut g.avail, av);
                            }
                        },
                        None => {},
                    }
                }
            },
            None => {},
        }
        proof {
            assert(g.model() == step_tile(gpre, tvs[i as int]));
            assert(tvs.skip(i as int).drop_first() =~= tvs.skip(i as int + 1));
            assert(tvs.skip(i as int)[0] == tvs[i as int]);
        }
        i = i + 1;
    }
    proof {
        assert(tvs.skip(tiles@.len() as int) =~= Seq::<(Option<Seq<char>>, Option<Seq<char>>)>::empty());
    }
}

/// Whether the name window keeps `c`.
fn name_char_exec(c: char) -> (r: bool)
    ensures
        r == name_char(c),
{
    char_is_alnum(c) || c == ' ' || c == ',' || c == '-' || c == '.'
}

/// Whether the availability window keeps `c`.
fn avail_char_exec(c: char) -> (r: bool)
    ensures
        r == avail_char(c),
{
    char_is_alnum(c) || c == '.' || c == ' ' || c == ','
}

/// The first position at or after `from` excluded from a name window.
fn first_non_name_exec(v: &Vec<char>, from: usize) -> (r: usize)
    requires
        from <= v@.len(),
    ensures
        r == first_non_name(v@, from as int),
        from <= r <= v@.len(),
{
    let mut i = from;
    while i < v.len() && name_char_exec(v[i])
        invariant
            from <= i <= v@.len(),
            first_non_name(v@, from as int) == first_non_name(v@, i as int),
        decreases v@.len() - i,
    {
        i = i + 1;
    }
    i
}

/// The first position at or after `from` excluded from an availability
/// window.
fn first_non_avail_exec(v: &Vec<char>, from: usize) -> (r: usize)
    requires
        from <= v@.len(),
    ensures
        r == first_non_avail(v@, from as int),
        from <= r <= v@.len(),
{
    let mut i = from;
    while i < v.len() && avail_char_exec(v[i])
        invariant
            from <= i <= v@.len(),
            first_non_avail(v@, from as int) == first_non_avail(v@, i as int),
        decreases v@.len() - i,
    {
        i = i + 1;
    }
    i
}

/// The fallback name scan over `body` for one term.
fn scan_names_exec(g: &mut Gather, body: &Vec<char>, term: &Vec<char>)
    requires
        term@.len() > 0,
    ensures
        final (g).model() == scan_names(body@, term@, 0, old(g).model()),
{
    let mut pos: usize = 0;
    loop
        invariant
            pos <= body@.len() + 1,
            term@.len() > 0,
            scan_names(body@, term@, pos as int, g.model()) == scan_names(
                body@,
                term@,
                0,
                old(g).model(),
            ),
        decreases body@.len() + 1 - pos,
    {
        let ghost gpre = g.model();
        match find_from(body, term, pos) {
            None => {
                return ;
            },
            Some(st) => {
                proof {
                    lemma_first_match_from(body@, term@, pos as int);
                }
                let k = first_non_name_exec(body, st);
                let wend: usize = if k < body.len() {
                    k
                } else if body.len() - st < 40 {
                    body.len()
                } else {
                    st + 40
                };
                let raw = sub_vec(body, st, wend);
                let t1 = trim_spaces(&raw);
                let t2 = trim_end_punct(&t1);
                let name = trim_spaces(&t2);
                if name.len() > 8 && name.len() < 100 {
                    insert_unique_exec(&mut g.products, name);
                    g.has_products = true;
                }
                let adv: usize = if wend - st > 1 {
                    wend - st
                } else {
                    1
                };
                pos = st + adv;
            },
        }
    }
}

/// The fallback availability scan over `body` for one prefix.
fn scan_avails_exec(g: &mut Gather, body: &Vec<char>, prefix: &Vec<char>)
    requires
        prefix@.len() > 0,
    ensures
        final (g).model() == scan_avails(body@, prefix@, 0, old(g).model()),
{
    let dot = chars_of(".");
    let mut pos: usize = 0;
    loop
        invariant
            pos <= body@.len() + 1,
            prefix@.len() > 0,
            dot@ == "."@,
            scan_avails(body@, prefix@, pos as int, g.model()) == scan_avails(
                body@,
                prefix@,
                0,
                old(g).model(),
            ),
        decreases body@.len() + 1 - pos,
    {
        let ghost gpre = g.model();
        match find_from(body, prefix, pos) {
            None => {
                return ;
            },
            Some(st) => {
                proof {
                    lemma_first_match_from(body@, prefix@, pos as int);
                }
                let k = first_non_avail_exec(body, st);
                let wend: usize = if k < body.len() {
                    k
                } else if body.len() - st < 30 {
                    body.len()
                } else {
                    st + 30
                };
                let raw = sub_vec(body, st, wend);
                let info = trim_spaces(&raw);
                if info.len() >= 5 && contains_sub(&info, &dot) {
                    insert_unique_exec(&mut g.avail, info);
                }
                let adv: usize = if wend - st > 1 {
                    wend - st
                } else {
                    1
                };
                pos = st + adv;
            },
        }
    }
}

/// One document's whole pass over the gathering state.
pub(crate) fn process_document(g: &mut Gather, body: &String)
    ensures
        final (g).model() == step_doc(old(g).model(), body@),
{
    let tiles = scrape_tiles(
        body.as_str(),
        ".product-tile",
        ".product-tile__title, .product-tile__name",
        ".product-tile__availability, .availability-label, .badge--availability",
    );
    process_tiles(g, &tiles);
    if !g.has_products {
        proof {
            reveal_strlit("Handtuch");
            reveal_strlit("Handtücher");
            reveal_strlit("Verfügbar ab ");
            reveal_strlit("ab ");
        }
        let bv = chars_of(body.as_str());
        let term1 = chars_of("Handtuch");
        scan_names_exec(g, &bv, &term1);
        let term2 = chars_of("Handtücher");
        scan_names_exec(g, &bv, &term2);
        let prefix1 = chars_of("Verfügbar ab ");
        scan_avails_exec(g, &bv, &prefix1);
        let prefix2 = chars_of("ab ");
        scan_avails_exec(g, &bv, &prefix2);
    }
}

} // verus!
