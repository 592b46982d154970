use useful_api::dates::Date;
use useful_api::report::extract_towel_data;

fn today() -> Date {
    Date { year: 2024, month: 6, day: 15 }
}

#[test]
fn fallback_scan_yields_future_only_report() {
    // Zero structured tile matches in both documents; the second document's
    // raw text holds a keyword snippet and a future availability phrase.
    let doc1 = "<html><body><p>Keine Treffer gefunden</p></body></html>".to_string();
    let doc2 = "<html><body><p>Handtuch Premium Soft neu im Sortiment</p>\
                <p>Verfügbar ab 20.07.2099 im Markt</p></body></html>"
        .to_string();
    let data = extract_towel_data(&vec![doc1, doc2], &today());
    assert!(!data.sells_towels);
    assert!(data.will_sell_towels);
    assert!(data.message.contains("bald"));
    assert_eq!(
        data.availability,
        vec!["Verfügbar ab 20.07.2099 im Markt".to_string()]
    );
    assert_eq!(data.products, vec!["Handtuch Premium Soft neu im Sortiment".to_string()]);
}

#[test]
fn structured_tiles_feed_products_and_availability() {
    let doc = "<html><body>\
        <div class=\"product-tile\">\
        <span class=\"product-tile__title\"> HANDTUCH Deluxe 50x100 </span>\
        <span class=\"availability-label\"> Verfügbar ab 01.07.2024 </span>\
        </div>\
        <div class=\"product-tile\">\
        <span class=\"product-tile__name\">Handtuch Basic</span>\
        <span class=\"availability-label\">ab 01.01.2024</span>\
        </div>\
        <div class=\"product-tile\">\
        <span class=\"product-tile__name\">Badetuch Set</span>\
        <span class=\"availability-label\">ab 09.09.2099</span>\
        </div>\
        </body></html>"
        .to_string();
    let data = extract_towel_data(&vec![doc], &today());
    // one future phrase and one past phrase: both flags set
    assert!(data.sells_towels);
    assert!(data.will_sell_towels);
    // the unmatched tile contributed neither its name nor its phrase
    assert_eq!(
        data.products,
        vec!["HANDTUCH Deluxe 50x100".to_string(), "Handtuch Basic".to_string()]
    );
    assert_eq!(
        data.availability,
        vec!["Verfügbar ab 01.07.2024".to_string(), "ab 01.01.2024".to_string()]
    );
    assert_eq!(
        data.message,
        "Ja, Aldi Süd hat aktuell Handtücher im Angebot! \
         (Verfügbar ab 01.07.2024, ab 01.01.2024): \
         HANDTUCH Deluxe 50x100, Handtuch Basic"
    );
}

#[test]
fn matched_tile_without_label_sells_now() {
    let doc = "<html><body><div class=\"product-tile\">\
        <span class=\"product-tile__title\">Handtuch Flauschig</span>\
        </div></body></html>"
        .to_string();
    let data = extract_towel_data(&vec![doc], &today());
    assert!(data.sells_towels);
    assert!(!data.will_sell_towels);
    assert!(data.availability.is_empty());
    assert_eq!(
        data.message,
        "Ja, Aldi Süd hat aktuell Handtücher im Angebot!: Handtuch Flauschig"
    );
}

#[test]
fn no_matches_gives_fixed_no_report() {
    let doc = "<html><body><p>nichts zu sehen</p></body></html>".to_string();
    let data = extract_towel_data(&vec![doc], &today());
    assert!(!data.sells_towels);
    assert!(!data.will_sell_towels);
    assert_eq!(data.message, "Nein, Aldi Süd hat aktuell keine Handtücher im Angebot.");
    assert!(data.availability.is_empty());
    assert!(data.products.is_empty());
}

#[test]
fn short_fallback_snippets_are_rejected() {
    // the cleaned window must be strictly longer than 8 characters
    let doc = "<html><body><p>Handtuch</p><p>ab 1.</p></body></html>".to_string();
    let data = extract_towel_data(&vec![doc], &today());
    assert!(data.products.is_empty());
    assert!(!data.sells_towels);
    assert!(!data.will_sell_towels);
}

#[test]
fn structured_match_suppresses_fallback() {
    // the tile matches, so the raw-text snippet below must not be scanned
    let doc = "<html><body><div class=\"product-tile\">\
        <span class=\"product-tile__title\">Handtuch Galore</span></div>\
        <p>Handtuch Schnipsel nur im Fallback</p></body></html>"
        .to_string();
    let data = extract_towel_data(&vec![doc], &today());
    assert_eq!(data.products, vec!["Handtuch Galore".to_string()]);
}
