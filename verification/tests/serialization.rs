use sce_parser::extract::{CardInfo, GameInfo};
use sce_parser::json::serialize_game;
use sce_parser::{fetch_error_json, inventory_url};

#[test]
fn serialize_all_fields_present() {
    let g = GameInfo {
        title: Some(String::from("Portal")),
        total_credits: Some(String::from("300")),
        cards: vec![
            CardInfo {
                name: String::from("Cube"),
                image: String::from("https://img.example/c.png"),
                credits: Some(String::from("20")),
            },
        ],
    };
    assert_eq!(
        serialize_game(&g),
        "{\"title\":\"Portal\",\"total_credits\":\"300\",\"cards\":[{\"name\":\"Cube\",\"image\":\"https://img.example/c.png\",\"credits\":\"20\"}]}"
    );
}

#[test]
fn serialize_absent_fields_as_null_and_empty() {
    let g = GameInfo {
        title: None,
        total_credits: None,
        cards: vec![
            CardInfo { name: String::new(), image: String::new(), credits: None },
        ],
    };
    assert_eq!(
        serialize_game(&g),
        "{\"title\":null,\"total_credits\":null,\"cards\":[{\"name\":\"\",\"image\":\"\",\"credits\":null}]}"
    );
}

#[test]
fn serialize_escapes_special_characters() {
    let g = GameInfo {
        title: Some(String::from("a\"b\\c\nd\te\u{1}f")),
        total_credits: None,
        cards: vec![],
    };
    assert_eq!(
        serialize_game(&g),
        "{\"title\":\"a\\\"b\\\\c\\nd\\te\\u0001f\",\"total_credits\":null,\"cards\":[]}"
    );
}

#[test]
fn serialize_keeps_non_ascii_text() {
    let g = GameInfo {
        title: Some(String::from("Héllo 世界")),
        total_credits: None,
        cards: vec![],
    };
    assert_eq!(
        serialize_game(&g),
        "{\"title\":\"Héllo 世界\",\"total_credits\":null,\"cards\":[]}"
    );
}

#[test]
fn reread_reconstructs_record() {
    let g = GameInfo {
        title: Some(String::from("Q\"uo\\te\r\n")),
        total_credits: Some(String::from(" 12 ")),
        cards: vec![
            CardInfo {
                name: String::from("c\u{2} one"),
                image: String::from("https://img.example/a.png"),
                credits: Some(String::from("5")),
            },
            CardInfo { name: String::new(), image: String::new(), credits: None },
        ],
    };
    let out = serialize_game(&g);
    let v: serde_json::Value = serde_json::from_str(&out).unwrap();
    assert_eq!(v["title"].as_str().unwrap(), "Q\"uo\\te\r\n");
    assert_eq!(v["total_credits"].as_str().unwrap(), " 12 ");
    let cards = v["cards"].as_array().unwrap();
    assert_eq!(cards.len(), 2);
    assert_eq!(cards[0]["name"].as_str().unwrap(), "c\u{2} one");
    assert_eq!(cards[0]["image"].as_str().unwrap(), "https://img.example/a.png");
    assert_eq!(cards[0]["credits"].as_str().unwrap(), "5");
    assert_eq!(cards[1]["name"].as_str().unwrap(), "");
    assert_eq!(cards[1]["image"].as_str().unwrap(), "");
    assert!(cards[1]["credits"].is_null());
}

#[test]
fn reread_null_fields_reconstruct_as_absent() {
    let g = GameInfo { title: None, total_credits: None, cards: vec![] };
    let out = serialize_game(&g);
    let v: serde_json::Value = serde_json::from_str(&out).unwrap();
    assert!(v["title"].is_null());
    assert!(v["total_credits"].is_null());
    assert_eq!(v["cards"].as_array().unwrap().len(), 0);
}

#[test]
fn fetch_error_payload_has_only_error_key() {
    let out = fetch_error_json("connection refused");
    assert_eq!(out, "{\"error\":\"fetch failed: connection refused\"}");
    let v: serde_json::Value = serde_json::from_str(&out).unwrap();
    let obj = v.as_object().unwrap();
    assert_eq!(obj.len(), 1);
    assert_eq!(obj["error"].as_str().unwrap(), "fetch failed: connection refused");
    assert!(obj.get("cards").is_none());
    assert!(obj.get("title").is_none());
    assert!(obj.get("total_credits").is_none());
}

#[test]
fn fetch_error_payload_escapes_diagnostic() {
    let out = fetch_error_json("bad \"status\"\n");
    assert_eq!(out, "{\"error\":\"fetch failed: bad \\\"status\\\"\\n\"}");
}

#[test]
fn inventory_url_substitutes_identifier() {
    assert_eq!(
        inventory_url("440"),
        "https://www.steamcardexchange.net/index.php?inventorygame-appid-440"
    );
}
