use sce_parser::parse_sce_html;

#[test]
fn title_from_top_level_heading() {
    let out = parse_sce_html("<h1>Half-Life 2</h1>");
    assert_eq!(out, "{\"title\":\"Half-Life 2\",\"total_credits\":null,\"cards\":[]}");
}

#[test]
fn title_prefers_info_container_heading() {
    let html = "<div class=\"inventory_gameinfo\"><h2> Portal </h2></div><h1>Other</h1>";
    let out = parse_sce_html(html);
    assert_eq!(out, "{\"title\":\"Portal\",\"total_credits\":null,\"cards\":[]}");
}

#[test]
fn title_is_trimmed() {
    let out = parse_sce_html("<h1>  spaced \t\n </h1>");
    assert_eq!(out, "{\"title\":\"spaced\",\"total_credits\":null,\"cards\":[]}");
}

#[test]
fn title_text_concatenates_descendants() {
    let out = parse_sce_html("<h1><span>B</span>2</h1>");
    assert_eq!(out, "{\"title\":\"B2\",\"total_credits\":null,\"cards\":[]}");
}

#[test]
fn markup_without_cards_gives_empty_array() {
    let out = parse_sce_html("<div><p>no cards here</p></div>");
    assert_eq!(out, "{\"title\":null,\"total_credits\":null,\"cards\":[]}");
}

#[test]
fn empty_markup_gives_all_defaults() {
    let out = parse_sce_html("");
    assert_eq!(out, "{\"title\":null,\"total_credits\":null,\"cards\":[]}");
}

#[test]
fn card_without_name_or_image_gives_empty_strings() {
    let html = "<div class=\"inventory_gamecards\"><div class=\"inventory_gamecard\"></div></div>";
    let out = parse_sce_html(html);
    assert_eq!(
        out,
        "{\"title\":null,\"total_credits\":null,\"cards\":[{\"name\":\"\",\"image\":\"\",\"credits\":null}]}"
    );
    let v: serde_json::Value = serde_json::from_str(&out).unwrap();
    let card = &v["cards"][0];
    assert!(card["name"].is_string());
    assert!(card["image"].is_string());
    assert_eq!(card["name"].as_str().unwrap(), "");
    assert_eq!(card["image"].as_str().unwrap(), "");
}

#[test]
fn card_without_credit_value_gives_null() {
    let html = "<div class=\"inventory_gamecards\"><div class=\"inventory_gamecard\"><div class=\"inventory_gamecard_name\">N</div></div></div>";
    let out = parse_sce_html(html);
    let v: serde_json::Value = serde_json::from_str(&out).unwrap();
    assert!(v["cards"][0]["credits"].is_null());
}

#[test]
fn cards_keep_document_order() {
    let html = "<div class=\"inventory_gamecards\">\
        <div class=\"inventory_gamecard\"><div class=\"inventory_gamecard_name\">B</div></div>\
        <div class=\"inventory_gamecard\"><div class=\"inventory_gamecard_name\">A</div></div>\
        </div>";
    let out = parse_sce_html(html);
    assert_eq!(
        out,
        "{\"title\":null,\"total_credits\":null,\"cards\":[{\"name\":\"B\",\"image\":\"\",\"credits\":null},{\"name\":\"A\",\"image\":\"\",\"credits\":null}]}"
    );
}

#[test]
fn total_credits_takes_first_credit_value_even_inside_a_card() {
    // Pins the shared-selector ambiguity: the aggregate field captures the
    // first credit-value element of the whole document, a card's included.
    let html = "<div class=\"inventory_gamecards\"><div class=\"inventory_gamecard\"><span class=\"credit_value\"> 7 </span></div></div>";
    let out = parse_sce_html(html);
    assert_eq!(
        out,
        "{\"title\":null,\"total_credits\":\"7\",\"cards\":[{\"name\":\"\",\"image\":\"\",\"credits\":\"7\"}]}"
    );
}

#[test]
fn total_credits_from_page_level_element() {
    let html = "<span class=\"credit_value\">300</span><div class=\"inventory_gamecards\"><div class=\"inventory_gamecard\"><span class=\"credit_value\">20</span></div></div>";
    let out = parse_sce_html(html);
    let v: serde_json::Value = serde_json::from_str(&out).unwrap();
    assert_eq!(v["total_credits"].as_str().unwrap(), "300");
    assert_eq!(v["cards"][0]["credits"].as_str().unwrap(), "20");
}

#[test]
fn image_src_is_extracted() {
    let html = "<div class=\"inventory_gamecards\"><div class=\"inventory_gamecard\"><img src=\"https://img.example/x.png\"><div class=\"inventory_gamecard_name\">N</div></div></div>";
    let out = parse_sce_html(html);
    let v: serde_json::Value = serde_json::from_str(&out).unwrap();
    assert_eq!(v["cards"][0]["image"].as_str().unwrap(), "https://img.example/x.png");
    assert_eq!(v["cards"][0]["name"].as_str().unwrap(), "N");
}

#[test]
fn first_image_without_src_gives_empty_string() {
    // The first image element wins even when it lacks the attribute.
    let html = "<div class=\"inventory_gamecards\"><div class=\"inventory_gamecard\"><img><img src=\"z.png\"></div></div>";
    let out = parse_sce_html(html);
    let v: serde_json::Value = serde_json::from_str(&out).unwrap();
    assert_eq!(v["cards"][0]["image"].as_str().unwrap(), "");
}

#[test]
fn card_needs_the_cards_container_ancestor() {
    // A lone inventory_gamecard without the inventory_gamecards ancestor is
    // not matched.
    let html = "<div class=\"inventory_gamecard\"><div class=\"inventory_gamecard_name\">X</div></div>";
    let out = parse_sce_html(html);
    assert_eq!(out, "{\"title\":null,\"total_credits\":null,\"cards\":[]}");
}

#[test]
fn container_classes_may_carry_others() {
    let html = "<div class=\"section inventory_gamecards\"><div class=\"inventory_gamecard extra\"><div class=\"inventory_gamecard_name\">Y</div></div></div>";
    let out = parse_sce_html(html);
    let v: serde_json::Value = serde_json::from_str(&out).unwrap();
    assert_eq!(v["cards"][0]["name"].as_str().unwrap(), "Y");
}
