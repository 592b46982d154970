//! Report assembly for the towel-availability pipeline: classify the retained
//! phrases against today's date, set the two flags, and compose the message
//! from fixed templates with the sorted availability and product lists
//! interpolated.

use vstd::prelude::*;
use crate::dates::Date;
use crate::dates::is_future_date;
use crate::dates::spec_is_future;
use crate::dedup::blocked_by;
use crate::dedup::dedup_merge_chars;
use crate::dedup::lemma_dedup_merge_no_overlap;
use crate::dedup::lemma_dedup_merge_represents;
use crate::dedup::no_mutual_containment;
use crate::dedup::spec_dedup_merge;
use crate::extract::Gather;
use crate::extract::GatherModel;
use crate::extract::fold_docs;
use crate::extract::process_document;
use crate::extract::spec_gather;
use crate::text::join_strings;
use crate::text::lemma_sort_lex_sorted;
use crate::text::sorted_lex;
use crate::text::join_with;
use crate::text::sort_lex;
use crate::text::sort_lex_spec;
use crate::text::strings_of;
use crate::text::views_of;
use crate::text::views_of_strings;

verus! {

/// The externally visible towel-availability report, immutable once built:
/// the two flags, the composed message, and the lexicographically sorted
/// availability and product lists.
#[derive(Clone, Debug)]
pub struct AldiTowelData {
    pub sells_towels: bool,
    pub will_sell_towels: bool,
    pub message: String,
    pub availability: Vec<String>,
    pub products: Vec<String>,
}

/// A cached report with its fetch time, in the caller's clock ticks.
#[derive(Clone, Debug)]
pub struct AldiTowelCache {
    pub data: AldiTowelData,
    pub time: u64,
}

/// Some retained phrase names a future date.
pub open spec fn any_future(avails: Seq<Seq<char>>, today: Date) -> bool {
    exists|i: int| 0 <= i < avails.len() && spec_is_future(avails[i], today)
}

/// Some retained phrase does not name a future date.
pub open spec fn any_now(avails: Seq<Seq<char>>, today: Date) -> bool {
    exists|i: int| 0 <= i < avails.len() && !spec_is_future(avails[i], today)
}

/// Towels sell now: something matched, and either no availability phrase was
/// retained (no date information means available now) or some phrase names a
/// date that is not in the future.
pub open spec fn spec_sells_now(g: GatherModel, avail: Seq<Seq<char>>, today: Date) -> bool {
    g.has_products && (avail.len() == 0 || any_now(avail, today))
}

/// Towels will sell later: something matched and some retained phrase names a
/// future date.
pub open spec fn spec_will_sell(g: GatherModel, avail: Seq<Seq<char>>, today: Date) -> bool {
    g.has_products && any_future(avail, today)
}

/// The report message: a fixed no-match line when nothing sells, else the
/// now/later template by the flags, with the availability list in parentheses
/// and the product list after a colon, each only when non-empty.
pub open spec fn spec_towel_message(
    sells: bool,
    will: bool,
    avail: Seq<Seq<char>>,
    products: Seq<Seq<char>>,
) -> Seq<char> {
    if sells || will {
        let astr = if avail.len() > 0 {
            " ("@ + join_with(avail, ", "@) + ")"@
        } else {
            Seq::<char>::empty()
        };
        let pstr = if products.len() > 0 {
            ": "@ + join_with(products, ", "@)
        } else {
            Seq::<char>::empty()
        };
        let base = if sells {
            "Ja, Aldi Süd hat aktuell Handtücher im Angebot!"@
        } else {
            "Ja, Aldi Süd hat bald Handtücher im Angebot!"@
        };
        base + astr + pstr
    } else {
        "Nein, Aldi Süd hat aktuell keine Handtücher im Angebot."@
    }
}

/// The availability list the report carries: the gathered phrases merged and
/// sorted.
pub open spec fn spec_final_avail(docs: Seq<Seq<char>>) -> Seq<Seq<char>> {
    spec_dedup_merge(spec_gather(docs).avail)
}

/// The product list the report carries: the gathered names sorted.
pub open spec fn spec_final_products(docs: Seq<Seq<char>>) -> Seq<Seq<char>> {
    sort_lex_spec(spec_gather(docs).products)
}

/// Everything the report promises about the documents it was built from.
pub open spec fn towel_report_ok(r: AldiTowelData, docs: Seq<Seq<char>>, today: Date) -> bool {
    let g = spec_gather(docs);
    let avail = spec_final_avail(docs);
    let prods = spec_final_products(docs);
    &&& r.sells_towels == spec_sells_now(g, avail, today)
    &&& r.will_sell_towels == spec_will_sell(g, avail, today)
    &&& views_of_strings(r.availability@) == avail
    &&& views_of_strings(r.products@) == prods
    &&& r.message@ == spec_towel_message(r.sells_towels, r.will_sell_towels, avail, prods)
}

/// The report's availability and product lists are always lexicographically
/// sorted, whatever order discovery produced the phrases and names in.
pub proof fn lemma_report_lists_sorted(docs: Seq<Seq<char>>)
    ensures
        sorted_lex(spec_final_avail(docs)),
        sorted_lex(spec_final_products(docs)),
{
    lemma_sort_lex_sorted(
        crate::dedup::dedup_from(
            crate::text::sort_desc_len_spec(spec_gather(docs).avail),
            Seq::empty(),
        ),
    );
    lemma_sort_lex_sorted(spec_gather(docs).products);
}

/// The retained availability phrases never contain one another, and every
/// gathered phrase is represented by a retained one: the merge collapses
/// overlapping fragments into maximal representatives and loses nothing.
pub proof fn lemma_report_avail_merged(docs: Seq<Seq<char>>)
    ensures
        no_mutual_containment(spec_final_avail(docs)),
        forall|p: Seq<char>| #[trigger] spec_gather(docs).avail.contains(p) ==> blocked_by(
            spec_final_avail(docs),
            p,
        ),
{
    lemma_dedup_merge_no_overlap(spec_gather(docs).avail);
    lemma_dedup_merge_represents(spec_gather(docs).avail);
}

/// Compose the message for the given flags and lists.
fn build_message(sells: bool, will: bool, avail: &Vec<String>, products: &Vec<String>) -> (r:
    String)
    ensures
        r@ == spec_towel_message(sells, will, views_of_strings(avail@), views_of_strings(products@)),
{
    if sells || will {
        let mut r = String::new();
        if sells {
            r.append("Ja, Aldi Süd hat aktuell Handtücher im Angebot!");
        } else {
            r.append("Ja, Aldi Süd hat bald Handtücher im Angebot!");
        }
        if avail.len() > 0 {
            r.append(" (");
            let j = join_strings(avail, ", ");
            r.append(j.as_str());
            r.append(")");
        }
        if products.len() > 0 {
            r.append(": ");
            let j = join_strings(products, ", ");
            r.append(j.as_str());
        }
        proof {
            assert(r@ =~= spec_towel_message(
                sells,
                will,
                views_of_strings(avail@),
                views_of_strings(products@),
            ));
        }
        r
    } else {
        let mut r = String::new();
        r.append("Nein, Aldi Süd hat aktuell keine Handtücher im Angebot.");
        proof {
            assert(r@ =~= spec_towel_message(
                sells,
                will,
                views_of_strings(avail@),
                views_of_strings(products@),
            ));
        }
        r
    }
}

/// The whole pipeline: gather from every document, merge and sort the
/// availability phrases, sort the product names, classify each phrase against
/// `today`, and compose the report.
pub fn extract_towel_data(bodies: &Vec<String>, today: &Date) -> (r: AldiTowelData)
    ensures
        towel_report_ok(r, views_of_strings(bodies@), *today),
{
    let ghost docs = views_of_strings(bodies@);
    let mut g = Gather { products: Vec::new(), avail: Vec::new(), has_products: false };
    proof {
        assert(views_of(g.products@) =~= Seq::<Seq<char>>::empty());
        assert(views_of(g.avail@) =~= Seq::<Seq<char>>::empty());
        assert(docs.skip(0) =~= docs);
    }
    let mut di: usize = 0;
    while di < bodies.len()
        invariant
            di <= bodies@.len(),
            docs == views_of_strings(bodies@),
            fold_docs(g.model(), docs.skip(di as int)) == spec_gather(docs),
        decreases bodies@.len() - di,
    {
        process_document(&mut g, &bodies[di]);
        proof {
            assert(docs.skip(di as int)[0] == docs[di as int]);
            assert(docs.skip(di as int).drop_first() =~= docs.skip(di as int + 1));
        }
        di = di + 1;
    }
    proof {
        assert(docs.skip(bodies@.len() as int) =~= Seq::<Seq<char>>::empty());
        assert(g.model() == spec_gather(docs));
    }
    let Gather { products, avail, has_products } = g;
    let avail_final = dedup_merge_chars(avail);
    let prods_sorted = sort_lex(products);
    let availability = strings_of(&avail_final);
    let products_out = strings_of(&prods_sorted);
    let ghost avails = views_of_strings(availability@);

    let mut sells = false;
    let mut will = false;
    if has_products {
        if availability.len() == 0 {
            sells = true;
        } else {
            let mut i: usize = 0;
            while i < availability.len()
                invariant
                    i <= availability@.len(),
                    avails == views_of_strings(availability@),
                    will == exists|k: int| 0 <= k < i && spec_is_future(avails[k], *today),
                    sells == exists|k: int| 0 <= k < i && !spec_is_future(avails[k], *today),
                decreases availability@.len() - i,
            {
                if is_future_date(availability[i].as_str(), today) {
                    will = true;
                    proof {
                        assert(spec_is_future(avails[i as int], *today));
                    }
                } else {
                    sells = true;
                    proof {
                        assert(!spec_is_future(avails[i as int], *today));
                    }
                }
                i = i + 1;
            }
        }
    }
    let message = build_message(sells, will, &availability, &products_out);
    AldiTowelData {
        sells_towels: sells,
        will_sell_towels: will,
        message,
        availability,
        products: products_out,
    }
}

} // verus!
