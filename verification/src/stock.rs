//! Stock report: given the decoded availability records of the stock
//! service, find the record for the fixed store and each of the two fixed
//! item numbers, default a missing quantity to zero, and compose the
//! human-readable message with singular/plural suffixes, a "keine" token for
//! a zero count, and a celebratory marker only when both items are in stock.

use vstd::prelude::*;
use crate::text::str_eq;
use crate::text::string_from_chars;

verus! {

/// Availability of one item at one store, as decoded from the stock service.
#[derive(Clone, Debug)]
pub struct StockRecord {
    pub class_unit_code: String,
    pub item_no: String,
    pub quantity: Option<i32>,
}

/// The stock report: both quantities and the composed message.
#[derive(Clone, Debug)]
pub struct SharkData {
    pub beeghaj: i32,
    pub smolhaj: i32,
    pub message: String,
}

/// A cached stock report with its fetch time, in the caller's clock ticks.
#[derive(Clone, Debug)]
pub struct SharkCache {
    pub data: SharkData,
    pub time: u64,
}

/// The record speaks of the given store and item.
pub open spec fn rec_matches(r: StockRecord, store: Seq<char>, item: Seq<char>) -> bool {
    r.class_unit_code@ == store && r.item_no@ == item
}

/// The first record for the store and item, if any.
pub open spec fn first_record(
    records: Seq<StockRecord>,
    store: Seq<char>,
    item: Seq<char>,
) -> Option<StockRecord>
    decreases records.len(),
{
    if records.len() == 0 {
        None
    } else if rec_matches(records[0], store, item) {
        Some(records[0])
    } else {
        first_record(records.drop_first(), store, item)
    }
}

/// The quantity the records report for the store and item: zero when no
/// record matches or the matching record carries no quantity.
pub open spec fn spec_quantity_for(
    records: Seq<StockRecord>,
    store: Seq<char>,
    item: Seq<char>,
) -> int {
    match first_record(records, store, item) {
        None => 0,
        Some(r) => match r.quantity {
            None => 0,
            Some(q) => q as int,
        },
    }
}

/// The quantity of `item` at `store` according to `records`.
pub fn quantity_for(records: &Vec<StockRecord>, store: &str, item: &str) -> (q: i32)
    ensures
        q as int == spec_quantity_for(records@, store@, item@),
{
    proof {
        assert(records@.skip(0) =~= records@);
    }
    let mut i: usize = 0;
    while i < records.len()
        invariant
            i <= records@.len(),
            first_record(records@, store@, item@) == first_record(
                records@.skip(i as int),
                store@,
                item@,
            ),
        decreases records@.len() - i,
    {
        let r = &records[i];
        if str_eq(r.class_unit_code.as_str(), store) && str_eq(r.item_no.as_str(), item) {
            proof {
                assert(records@.skip(i as int)[0] == records@[i as int]);
            }
            return match r.quantity {
                Some(q) => q,
                None => 0,
            };
        }
        proof {
            assert(records@.skip(i as int).drop_first() =~= records@.skip(i as int + 1));
        }
        i = i + 1;
    }
    0
}

/// The decimal digit `d` as a character.
pub open spec fn dec_digit(d: int) -> char {
    if d == 0 {
        '0'
    } else if d == 1 {
        '1'
    } else if d == 2 {
        '2'
    } else if d == 3 {
        '3'
    } else if d == 4 {
        '4'
    } else if d == 5 {
        '5'
    } else if d == 6 {
        '6'
    } else if d == 7 {
        '7'
    } else if d == 8 {
        '8'
    } else {
        '9'
    }
}

/// The decimal digits of a non-negative number, most significant first.
pub open spec fn dec_nat(n: int) -> Seq<char>
    decreases n,
{
    if n < 10 {
        seq![dec_digit(n)]
    } else {
        dec_nat(n / 10).push(dec_digit(n % 10))
    }
}

/// A number written in decimal, with a leading minus when negative.
pub open spec fn dec_i32(q: int) -> Seq<char> {
    if q < 0 {
        seq!['-'] + dec_nat(-q)
    } else {
        dec_nat(q)
    }
}

fn dec_digit_exec(d: u32) -> (c: char)
    requires
        d < 10,
    ensures
        c == dec_digit(d as int),
{
    if d == 0 {
        '0'
    } else if d == 1 {
        '1'
    } else if d == 2 {
        '2'
    } else if d == 3 {
        '3'
    } else if d == 4 {
        '4'
    } else if d == 5 {
        '5'
    } else if d == 6 {
        '6'
    } else if d == 7 {
        '7'
    } else if d == 8 {
        '8'
    } else {
        '9'
    }
}

fn push_dec_u32(out: &mut Vec<char>, n: u32)
    ensures
        final (out)@ == old(out)@ + dec_nat(n as int),
    decreases n,
{
    if n < 10 {
        out.push(dec_digit_exec(n));
        proof {
            assert(out@ =~= old(out)@ + dec_nat(n as int));
        }
    } else {
        push_dec_u32(out, n / 10);
        out.push(dec_digit_exec(n % 10));
        proof {
            assert(out@ =~= old(out)@ + dec_nat(n as int));
        }
    }
}

/// `q` written in decimal.
pub fn i32_string(q: i32) -> (r: String)
    ensures
        r@ == dec_i32(q as int),
{
    let mut out: Vec<char> = Vec::new();
    if q < 0 {
        out.push('-');
        let m = (-(q as i64)) as u32;
        push_dec_u32(&mut out, m);
        proof {
            assert(out@ =~= dec_i32(q as int));
        }
    } else {
        push_dec_u32(&mut out, q as u32);
        proof {
            assert(out@ =~= dec_i32(q as int));
        }
    }
    string_from_chars(&out)
}

/// One item's part of the message: the count ("keine" for zero), a space, the
/// item's name, and a plural "s" unless the count is one.
pub open spec fn spec_part(q: int, name: Seq<char>) -> Seq<char> {
    let count = if q == 0 {
        "keine"@
    } else {
        dec_i32(q)
    };
    let suffix = if q == 1 {
        Seq::<char>::empty()
    } else {
        "s"@
    };
    count + " "@ + name + suffix
}

/// The whole message: a fixed none-in-stock line when both counts are zero;
/// otherwise both item parts, with the celebratory marker exactly when both
/// counts are positive.
pub open spec fn spec_stock_message(beeg: int, smol: int) -> Seq<char> {
    if beeg == 0 && smol == 0 {
        "Der IKEA Godorf hat aktuell überhaupt keine sharks auf lager :("@
    } else {
        let base = "Der IKEA Godorf hat aktuell "@ + spec_part(beeg, "beeghaj"@) + " und "@
            + spec_part(smol, "smolhaj"@) + " auf Lager"@;
        if beeg > 0 && smol > 0 {
            base + " :D"@
        } else {
            base
        }
    }
}

/// Append one item's part of the message.
fn push_part(r: &mut String, q: i32, name: &str)
    ensures
        final (r)@ == old(r)@ + spec_part(q as int, name@),
{
    if q == 0 {
        r.append("keine");
    } else {
        let s = i32_string(q);
        r.append(s.as_str());
    }
    r.append(" ");
    r.append(name);
    if q != 1 {
        r.append("s");
    }
    proof {
        assert(r@ =~= old(r)@ + spec_part(q as int, name@));
    }
}

/// The stock message for the two counts.
pub fn stock_message(beeghaj: i32, smolhaj: i32) -> (r: String)
    ensures
        r@ == spec_stock_message(beeghaj as int, smolhaj as int),
{
    if beeghaj == 0 && smolhaj == 0 {
        let mut r = String::new();
        r.append("Der IKEA Godorf hat aktuell überhaupt keine sharks auf lager :(");
        proof {
            assert(r@ =~= spec_stock_message(beeghaj as int, smolhaj as int));
        }
        r
    } else {
        let mut r = String::new();
        r.append("Der IKEA Godorf hat aktuell ");
        push_part(&mut r, beeghaj, "beeghaj");
        r.append(" und ");
        push_part(&mut r, smolhaj, "smolhaj");
        r.append(" auf Lager");
        if beeghaj > 0 && smolhaj > 0 {
            r.append(" :D");
        }
        proof {
            assert(r@ =~= spec_stock_message(beeghaj as int, smolhaj as int));
        }
        r
    }
}

/// The stock report for the fixed store and the two fixed item numbers.
pub fn stock_report(records: &Vec<StockRecord>) -> (r: SharkData)
    ensures
        r.beeghaj as int == spec_quantity_for(records@, "147"@, "30373588"@),
        r.smolhaj as int == spec_quantity_for(records@, "147"@, "20540663"@),
        r.message@ == spec_stock_message(r.beeghaj as int, r.smolhaj as int),
{
    let beeghaj = quantity_for(records, "147", "30373588");
    let smolhaj = quantity_for(records, "147", "20540663");
    let message = stock_message(beeghaj, smolhaj);
    SharkData { beeghaj, smolhaj, message }
}

} // verus!
