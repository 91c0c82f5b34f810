use keenio::enrich::{enrich_payload, KeenAddons, KeenInfo};
use keenio::json::{json_to_string, JsonValue, Member};

fn member(key: &str, value: JsonValue) -> Member {
    Member { key: key.to_string(), value }
}

#[test]
fn keen_info_starts_empty_and_collects_addons() {
    let mut info = KeenInfo::new("2020-01-01T00:00:00.000Z".to_string());
    assert_eq!(info.timestamp, "2020-01-01T00:00:00.000Z");
    assert_eq!(info.addons.len(), 0);
    info.add_addon(KeenAddons::build_ip_geo_addons("ip_address", "ip_geo_info", true));
    assert_eq!(info.addons.len(), 1);
    assert_eq!(info.addons[0].name, "keen:ip_to_geo");
}

#[test]
fn ip_geo_addon_holds_its_fields() {
    let a = KeenAddons::build_ip_geo_addons("in_field", "out_field", false);
    assert_eq!(a.name, "keen:ip_to_geo");
    assert_eq!(a.input.ip, "in_field");
    assert!(!a.input.remove_ip_property);
    assert_eq!(a.output, "out_field");
}

#[test]
fn enrichment_appends_keen_metadata() {
    let payload = JsonValue::Object(vec![member("x", JsonValue::Int(1))]);
    let out = enrich_payload(payload, "2020-01-01T00:00:00.000Z", false);
    assert_eq!(
        json_to_string(&out),
        "{\"x\":1,\"keen\":{\"timestamp\":\"2020-01-01T00:00:00.000Z\",\"addons\":[]}}"
    );
}

#[test]
fn geo_enrichment_adds_placeholder_and_addon() {
    let payload = JsonValue::Object(vec![member("x", JsonValue::Int(1))]);
    let out = enrich_payload(payload, "T0", true);
    let expected = "{\"x\":1,\"ip_address\":\"${keen.ip}\",\"keen\":{\"timestamp\":\"T0\",\"addons\":[{\"name\":\"keen:ip_to_geo\",\"input\":{\"ip\":\"ip_address\",\"remove_ip_property\":true},\"output\":\"ip_geo_info\"}]}}";
    assert_eq!(json_to_string(&out), expected);
}

#[test]
fn enrichment_replaces_an_existing_keen_member_in_place() {
    let payload = JsonValue::Object(vec![
        member("keen", JsonValue::Null),
        member("x", JsonValue::Int(2)),
    ]);
    let out = enrich_payload(payload, "T1", false);
    assert_eq!(
        json_to_string(&out),
        "{\"keen\":{\"timestamp\":\"T1\",\"addons\":[]},\"x\":2}"
    );
}

#[test]
fn non_object_payloads_pass_through_unchanged() {
    let out = enrich_payload(JsonValue::Int(9), "T2", false);
    assert_eq!(json_to_string(&out), "9");
    let out = enrich_payload(JsonValue::Str("s".to_string()), "T2", true);
    assert_eq!(json_to_string(&out), "\"s\"");
}
