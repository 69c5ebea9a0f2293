//! `/market`: the market of Minebox (prices, bazaar, auction house). The
//! API often answers these routes with an empty body, which gets a reply of
//! its own.

use vstd::prelude::*;
use crate::commands::player::plain_colour;
use crate::embed::{bare_embed, field_text, with_field, Embed, EmbedText};
use crate::json::{entry_with_key, fmt_value, value_get, value_text, JsonValue};
use crate::text::{entry_keys, keys_ascending, str_eq};
use crate::util::{prettified, prettify_id};

verus! {

/// The period of the price statistics when none is given.
pub open spec fn period_or_default(period: Option<String>) -> Seq<char> {
    match period {
        Some(p) => p@,
        None => "7d"@,
    }
}

/// The period asked for, `7d` by default.
pub fn period_of(period: Option<String>) -> (p: String)
    ensures
        p@ == period_or_default(period),
{
    match period {
        Some(p) => p,
        None => String::from_str("7d"),
    }
}

/// The value shown for one price statistic: its text, `—` when absent.
pub open spec fn price_text(v: JsonValue, key: Seq<char>) -> Seq<char> {
    match value_get(v, key) {
        Some(x) => value_text(x),
        None => "—"@,
    }
}

fn price_of(v: &JsonValue, key: &str) -> (s: String)
    ensures
        s@ == price_text(*v, key@),
{
    match v.get(key) {
        Some(x) => fmt_value(x),
        None => String::from_str("—"),
    }
}

/// The price embed of an item: buy, sell and direct statistics.
pub open spec fn prices_embed_text(item_id: Seq<char>, period: Seq<char>, v: JsonValue) -> EmbedText {
    let e0 = EmbedText {
        footer: Some("période : "@ + period),
        ..bare_embed("💰 Prix — "@ + prettified(item_id), plain_colour())
    };
    let e1 = with_field(e0, field_text("Achat"@, price_text(v, "BUY"@), true));
    let e2 = with_field(e1, field_text("Vente"@, price_text(v, "SELL"@), true));
    with_field(e2, field_text("Direct"@, price_text(v, "DIRECT"@), true))
}

/// Builds the price embed of an item for a period.
pub fn prices_embed(item_id: &str, period: &str, v: &JsonValue) -> (e: Embed)
    ensures
        e@ == prices_embed_text(item_id@, period@, *v),
{
    let mut title = String::from_str("💰 Prix — ");
    let name = prettify_id(item_id);
    title.append(name.as_str());
    let mut e = Embed::new(title, 0x5865F2);
    let mut footer = String::from_str("période : ");
    footer.append(period);
    e.set_footer(footer);
    e.add_field(String::from_str("Achat"), price_of(v, "BUY"), true);
    e.add_field(String::from_str("Vente"), price_of(v, "SELL"), true);
    e.add_field(String::from_str("Direct"), price_of(v, "DIRECT"), true);
    e
}

/// The price embed is titled with the prettified item, its footer gives the
/// period, and it shows three inline fields, in this order: « Achat »
/// with the statistic under `BUY`, « Vente » with the one under `SELL`,
/// « Direct » with the one under `DIRECT`. For an object whose keys come in
/// order, a field shows the text of the entry holding its key, or `—` when
/// no entry holds it; for a reply that is not an object, every field shows
/// `—`.
pub proof fn lemma_price_fields(item_id: Seq<char>, period: Seq<char>, v: JsonValue)
    ensures
        ({
            let f = prices_embed_text(item_id, period, v).fields;
            let keys = seq!["BUY"@, "SELL"@, "DIRECT"@];
            let o = v->Object_0@;
            &&& prices_embed_text(item_id, period, v).title == "💰 Prix — "@ + prettified(item_id)
            &&& prices_embed_text(item_id, period, v).footer == Some("période : "@ + period)
            &&& f.len() == 3
            &&& f[0].name == "Achat"@ && f[1].name == "Vente"@ && f[2].name == "Direct"@
            &&& f[0].inline && f[1].inline && f[2].inline
            &&& forall|k: int, i: int|
                0 <= k < 3 && v is Object && keys_ascending(entry_keys(o)) && 0 <= i < o.len()
                    && (#[trigger] o[i]).0@ == #[trigger] keys[k] ==> f[k].value == value_text(o[i].1)
            &&& forall|k: int|
                0 <= k < 3 && v is Object && (forall|i: int| 0 <= i < o.len() ==> (#[trigger] o[i]).0@
                    != keys[k]) ==> #[trigger] f[k].value == "—"@
            &&& forall|k: int| 0 <= k < 3 && !(v is Object) ==> #[trigger] f[k].value == "—"@
        }),
{
    let f = prices_embed_text(item_id, period, v).fields;
    let keys = seq!["BUY"@, "SELL"@, "DIRECT"@];
    assert(f[0].value == price_text(v, "BUY"@));
    assert(f[1].value == price_text(v, "SELL"@));
    assert(f[2].value == price_text(v, "DIRECT"@));
    match v {
        JsonValue::Object(o) => {
            if keys_ascending(entry_keys(o@)) {
                crate::json::lemma_get_in_key_order(o@, "BUY"@);
                crate::json::lemma_get_in_key_order(o@, "SELL"@);
                crate::json::lemma_get_in_key_order(o@, "DIRECT"@);
            }
            assert forall|k: int|
                0 <= k < 3 && (forall|i: int| 0 <= i < o@.len() ==> (#[trigger] o@[i]).0@ != keys[k]) implies #[trigger] f[k].value
                    == "—"@ by {
                lemma_no_entry(o@, keys[k]);
            }
        },
        _ => {},
    }
}

proof fn lemma_no_entry(o: Seq<(String, JsonValue)>, key: Seq<char>)
    requires
        forall|i: int| 0 <= i < o.len() ==> (#[trigger] o[i]).0@ != key,
    ensures
        entry_with_key(o, key) is None,
    decreases o.len(),
{
    if o.len() > 0 {
        assert(o[0].0@ != key);
        assert forall|i: int| 0 <= i < o.drop_first().len() implies (#[trigger] o.drop_first()[i]).0@ != key by {
            assert(o.drop_first()[i] == o[i + 1]);
        }
        lemma_no_entry(o.drop_first(), key);
    }
}

/// The reply when there are no prices.
pub open spec fn no_prices_text(item_id: Seq<char>, reason: Seq<char>) -> Seq<char> {
    "Aucune donnée de prix pour « "@ + item_id + " » ("@ + reason + ")."@
}

/// Builds the reply when there are no prices.
pub fn no_prices(item_id: &str, reason: &str) -> (s: String)
    ensures
        s@ == no_prices_text(item_id@, reason@),
{
    let mut s = String::from_str("Aucune donnée de prix pour « ");
    s.append(item_id);
    s.append(" » (");
    s.append(reason);
    s.append(").");
    s
}

/// The reply when the bazaar has no offer.
pub open spec fn no_bazaar_text(item_id: Seq<char>) -> Seq<char> {
    "Aucune offre de bazar pour « "@ + item_id + " » actuellement."@
}

/// Builds the reply when the bazaar has no offer.
pub fn no_bazaar(item_id: &str) -> (s: String)
    ensures
        s@ == no_bazaar_text(item_id@),
{
    let mut s = String::from_str("Aucune offre de bazar pour « ");
    s.append(item_id);
    s.append(" » actuellement.");
    s
}

/// The reply when the auction house has no listing.
pub fn no_auction() -> (s: String)
    ensures
        s@ == "Aucune annonce à l'hôtel des ventes actuellement."@,
{
    String::from_str("Aucune annonce à l'hôtel des ventes actuellement.")
}

/// The keys under which an object may hold the listings, in the order they
/// are tried.
pub open spec fn listing_keys() -> Seq<Seq<char>> {
    seq!["listings"@, "items"@, "results"@, "data"@, "orders"@]
}

/// The array under the first of `keys` (from `k` on) whose value in the
/// object is an array.
pub open spec fn first_array(o: Seq<(String, JsonValue)>, keys: Seq<Seq<char>>, k: int) -> Option<Seq<JsonValue>>
    decreases keys.len() - k,
{
    if k >= keys.len() || k < 0 {
        None
    } else {
        match entry_with_key(o, keys[k]) {
            Some(JsonValue::Array(a)) => Some(a@),
            _ => first_array(o, keys, k + 1),
        }
    }
}

/// The listings of a reply: the reply itself when an array, else the array
/// under the first listing key that holds one.
pub open spec fn listing_items(v: JsonValue) -> Option<Seq<JsonValue>> {
    match v {
        JsonValue::Array(a) => Some(a@),
        JsonValue::Object(o) => first_array(o@, listing_keys(), 0),
        _ => None,
    }
}

/// The text of the first `k` listings: one bullet line each.
pub open spec fn listing_lines(items: Seq<JsonValue>) -> Seq<char>
    decreases items.len(),
{
    if items.len() == 0 {
        Seq::empty()
    } else {
        listing_lines(items.drop_last()) + "• "@ + value_text(items.last()) + "\n"@
    }
}

/// The text of listings: the first 10 as bullet lines, or a notice when
/// there are none.
pub open spec fn listings_text(v: JsonValue) -> Seq<char> {
    match listing_items(v) {
        Some(items) => if items.len() > 0 {
            listing_lines(if items.len() <= 10 { items } else { items.take(10) })
        } else {
            "Aucune donnée disponible."@
        },
        None => "Aucune donnée disponible."@,
    }
}

fn array_under<'a>(o: &'a Vec<(String, JsonValue)>, key: &str) -> (r: Option<&'a Vec<JsonValue>>)
    ensures
        match entry_with_key(o@, key@) {
            Some(JsonValue::Array(a)) => r is Some && *r->0 == a,
            _ => r is None,
        },
{
    let mut i: usize = 0;
    assert(o@.skip(0) =~= o@);
    while i < o.len()
        invariant
            i <= o@.len(),
            entry_with_key(o@, key@) == entry_with_key(o@.skip(i as int), key@),
        decreases o.len() - i,
    {
        assert(o@.skip(i as int).drop_first() =~= o@.skip(i + 1));
        assert(o@.skip(i as int)[0] == o@[i as int]);
        if str_eq(o[i].0.as_str(), key) {
            return match &o[i].1 {
                JsonValue::Array(a) => Some(a),
                _ => None,
            };
        }
        i = i + 1;
    }
    None
}

fn listing_array(v: &JsonValue) -> (r: Option<&Vec<JsonValue>>)
    ensures
        match listing_items(*v) {
            Some(x) => r is Some && r->0@ == x,
            None => r is None,
        },
{
    match v {
        JsonValue::Array(a) => Some(a),
        JsonValue::Object(o) => {
            let keys: [&str; 5] = ["listings", "items", "results", "data", "orders"];
            let ghost ks = listing_keys();
            let mut k: usize = 0;
            while k < 5
                invariant
                    k <= 5,
                    ks == listing_keys(),
                    *v == JsonValue::Object(*o),
                    forall|j: int| 0 <= j < 5 ==> (#[trigger] keys@[j])@ == ks[j],
                    first_array(o@, ks, 0) == first_array(o@, ks, k as int),
                decreases 5 - k,
            {
                match array_under(o, keys[k]) {
                    Some(a) => {
                        return Some(a);
                    },
                    None => {},
                }
                k = k + 1;
            }
            None
        },
        _ => None,
    }
}

/// Renders a list of listings (of varying shape) compactly.
pub fn render_listings(v: &JsonValue) -> (s: String)
    ensures
        s@ == listings_text(*v),
{
    let items = listing_array(v);
    match items {
        Some(a) => {
            if a.len() == 0 {
                return String::from_str("Aucune donnée disponible.");
            }
            let n: usize = if a.len() <= 10 { a.len() } else { 10 };
            let ghost shown = if a@.len() <= 10 { a@ } else { a@.take(10) };
            assert(shown =~= a@.take(n as int));
            let mut s = String::new();
            let mut i: usize = 0;
            while i < n
                invariant
                    i <= n <= a@.len(),
                    s@ == listing_lines(a@.take(i as int)),
                decreases n - i,
            {
                s.append("• ");
                let t = fmt_value(&a[i]);
                s.append(t.as_str());
                s.append("\n");
                i = i + 1;
                assert(a@.take(i as int).drop_last() =~= a@.take(i - 1));
            }
            assert(a@.take(n as int) =~= shown);
            s
        },
        None => String::from_str("Aucune donnée disponible."),
    }
}

/// The bazaar embed of an item.
pub open spec fn bazaar_embed_text(item_id: Seq<char>, v: JsonValue) -> EmbedText {
    EmbedText {
        description: Some(listings_text(v)),
        ..bare_embed("🏪 Bazar — "@ + prettified(item_id), plain_colour())
    }
}

/// Builds the bazaar embed of an item.
pub fn bazaar_embed(item_id: &str, v: &JsonValue) -> (e: Embed)
    ensures
        e@ == bazaar_embed_text(item_id@, *v),
{
    let mut title = String::from_str("🏪 Bazar — ");
    let name = prettify_id(item_id);
    title.append(name.as_str());
    let mut e = Embed::new(title, 0x5865F2);
    e.set_description(render_listings(v));
    e
}

/// The auction house embed.
pub open spec fn auction_embed_text(v: JsonValue) -> EmbedText {
    EmbedText { description: Some(listings_text(v)), ..bare_embed("⚖️ Hôtel des ventes"@, plain_colour()) }
}

/// Builds the auction house embed.
pub fn auction_embed(v: &JsonValue) -> (e: Embed)
    ensures
        e@ == auction_embed_text(*v),
{
    let mut e = Embed::new(String::from_str("⚖️ Hôtel des ventes"), 0x5865F2);
    e.set_description(render_listings(v));
    e
}

} // verus!
