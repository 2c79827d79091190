//! Extraction of structured game/card metadata from catalog page markup:
//! given raw markup (supplied directly, or fetched by identifier by a
//! caller), produce the canonical JSON record of the page's title, aggregate
//! credit value, and ordered card list.
use vstd::prelude::*;
use vstd::string::StringExecFns;

pub mod dom;
pub mod extract;
pub mod json;
pub mod reader;
pub mod select;
pub mod strutil;

verus! {

/// Synchronous entry point: extracts the page record from the supplied
/// markup and returns its canonical JSON text.
pub fn parse_sce_html(html: &str) -> (r: String)
    ensures
        r@ == json::game_json(extract::game_of(dom::elems_of(html@))),
{
    let es = dom::scan_elements(html);
    let g = extract::extract(&es);
    json::serialize_game(&g)
}

/// The inventory page address for a catalog identifier.
pub fn inventory_url(appid: &str) -> (r: String)
    ensures
        r@ == "https://www.steamcardexchange.net/index.php?inventorygame-appid-"@ + appid@,
{
    let mut url = String::from_str(
        "https://www.steamcardexchange.net/index.php?inventorygame-appid-",
    );
    url.append(appid);
    url
}

/// The payload resolved when fetching fails: a JSON object holding only an
/// `error` key, its value the diagnostic prefixed to mark a fetch failure.
/// Extraction is never attempted in that case.
pub fn fetch_error_json(diag: &str) -> (r: String)
    ensures
        r@ == "{\"error\":"@ + json::str_json("fetch failed: "@ + diag@) + seq!['}'],
{
    let mut msg = String::from_str("fetch failed: ");
    msg.append(diag);
    let mut out = String::from_str("{\"error\":");
    json::append_str_json(&mut out, msg.as_str());
    out.append("}");
    proof {
        reveal_strlit("}");
        assert("}"@ =~= seq!['}']);
        assert(out@ =~= "{\"error\":"@ + json::str_json("fetch failed: "@ + diag@) + seq!['}']);
    }
    out
}

} // verus!
