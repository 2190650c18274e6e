use nft_staking::classify::{classify_attributes, Attribute, ItemType};
use nft_staking::engine::NFTStakingContract;

fn attr(trait_type: &str, value: &str) -> Attribute {
    Attribute { trait_type: trait_type.to_string(), value: value.to_string() }
}

#[test]
fn classify_body_queen() {
    let attrs = vec![attr("Body", "Queen")];
    assert_eq!(classify_attributes(&attrs), ItemType::Queen);
}

#[test]
fn classify_wings_diamond() {
    let attrs = vec![attr("Wings", "Diamond"), attr("Eyes", "Red")];
    assert_eq!(classify_attributes(&attrs), ItemType::Worker);
}

#[test]
fn classify_default_drone() {
    let attrs = vec![attr("Eyes", "Red"), attr("Body", "Small")];
    assert_eq!(classify_attributes(&attrs), ItemType::Drone);
}

#[test]
fn classify_empty_is_drone() {
    let attrs: Vec<Attribute> = Vec::new();
    assert_eq!(classify_attributes(&attrs), ItemType::Drone);
}

#[test]
fn classify_queen_priority_over_worker() {
    let attrs = vec![attr("Wings", "Diamond"), attr("Body", "Queen")];
    assert_eq!(classify_attributes(&attrs), ItemType::Queen);
}

#[test]
fn classify_is_order_independent() {
    let forward = vec![attr("Eyes", "Red"), attr("Wings", "Diamond")];
    let backward = vec![attr("Wings", "Diamond"), attr("Eyes", "Red")];
    assert_eq!(classify_attributes(&forward), classify_attributes(&backward));
}

#[test]
fn classify_same_attributes_same_type() {
    let a = vec![attr("Body", "Queen"), attr("Wings", "Diamond")];
    let b = vec![attr("Body", "Queen"), attr("Wings", "Diamond")];
    assert_eq!(classify_attributes(&a), classify_attributes(&b));
}

#[test]
fn classify_value_must_match_trait() {
    // A queen value under the wrong trait name stays a drone.
    let attrs = vec![attr("Wings", "Queen"), attr("Body", "Diamond")];
    assert_eq!(classify_attributes(&attrs), ItemType::Drone);
}

#[test]
fn classify_metadata_queen() {
    let meta: serde_json::Value = serde_json::from_str(
        r#"{"reference_blob":{"attributes":[{"trait_type":"Body","value":"Queen"}]}}"#,
    )
    .unwrap();
    assert_eq!(NFTStakingContract::classify_nft_type(&meta), "Queen");
}

#[test]
fn classify_metadata_worker() {
    let meta: serde_json::Value = serde_json::from_str(
        r#"{"reference_blob":{"attributes":[{"trait_type":"Wings","value":"Diamond"}]}}"#,
    )
    .unwrap();
    assert_eq!(NFTStakingContract::classify_nft_type(&meta), "Worker");
}

#[test]
fn classify_metadata_priority() {
    let meta: serde_json::Value = serde_json::from_str(
        r#"{"reference_blob":{"attributes":[
            {"trait_type":"Wings","value":"Diamond"},
            {"trait_type":"Body","value":"Queen"}]}}"#,
    )
    .unwrap();
    assert_eq!(NFTStakingContract::classify_nft_type(&meta), "Queen");
}

#[test]
fn classify_metadata_missing_attributes_is_drone() {
    let meta: serde_json::Value = serde_json::from_str(r#"{"name":"bee"}"#).unwrap();
    assert_eq!(NFTStakingContract::classify_nft_type(&meta), "Drone");
}

#[test]
fn classify_metadata_malformed_entries_skipped() {
    // Entries without string trait/value fields are ignored.
    let meta: serde_json::Value = serde_json::from_str(
        r#"{"reference_blob":{"attributes":[
            {"trait_type":7,"value":"Queen"},
            {"value":"Diamond"},
            {"trait_type":"Wings","value":"Diamond"}]}}"#,
    )
    .unwrap();
    assert_eq!(NFTStakingContract::classify_nft_type(&meta), "Worker");
}
