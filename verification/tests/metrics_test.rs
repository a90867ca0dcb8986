use click_house_component::json::{JsonLeaf, JsonNumber, JsonValue};
use click_house_component::utils::parse_tsv_to_json;
use click_house_component::metrics::{payload_value_text, EventMetric};
use serde_json::Value;

/// The metric batch as the serde_json calls build it.
fn reference_tsv(m: &EventMetric) -> String {
    let payload_value: Value = if m.payload_json.trim().is_empty() {
        Value::Object(serde_json::Map::new())
    } else {
        serde_json::from_str(&m.payload_json).unwrap_or_else(|_| Value::Object(serde_json::Map::new()))
    };
    let mut map_elements = Vec::new();
    if let Some(obj) = payload_value.as_object() {
        for (k, v) in obj {
            let val_str = match v {
                Value::String(s) => s.clone(),
                other => other.to_string(),
            };
            map_elements.push(format!("'{}':'{}'", k.replace('\'', "\\'"), val_str.replace('\'', "\\'")));
        }
    }
    let ch_map_str = format!("{{{}}}", map_elements.join(","));
    let headers = "event_time\tevent_type\tevent_name\tduration_ms\tstatus\tuser\tcomment\tpayload\n";
    let c = |s: &str| s.replace('\t', " ").replace('\n', " ");
    format!(
        "{}{}\t{}\t{}\t{}\t{}\t{}\t{}\t{}\n",
        headers, "", c(&m.event_type), c(&m.event_name), m.duration_ms, c(&m.status), c(&m.user), "", ch_map_str
    )
}

fn metric(payload: &str, duration: i64) -> EventMetric {
    EventMetric::new(
        "document".to_string(),
        "Реализация\tТоваров\n".to_string(),
        duration,
        "Success".to_string(),
        "Администратор (Иванов)".to_string(),
        payload.to_string(),
    )
}

#[test]
fn metric_batch_matches_reference_rules() {
    let payloads = [
        r#"{"Склад": "Основной", "Сумма": "250000", "Контрагент": "ООО Вектор"}"#,
        "",
        "   ",
        "not json",
        "[1, 2]",
        r#"{"b": 1, "a": [1, "x"], "c": {"d": null}, "e": true, "f": 1.50, "q": "it's"}"#,
        r#"{"o'k": "v"}"#,
    ];
    for p in payloads {
        for d in [150, 0, -7, i64::MIN, i64::MAX] {
            let m = metric(p, d);
            assert_eq!(m.to_tsv_package(), reference_tsv(&m), "payload {:?}", p);
        }
    }
}

#[test]
fn metric_batch_of_sample_event() {
    let tsv = EventMetric::prepare_metric_tsv(
        "document".to_string(),
        "Реализация".to_string(),
        150,
        "Success".to_string(),
        "Admin".to_string(),
        r#"{"Сумма": "250000", "Склад": "Основной"}"#.to_string(),
    );
    assert_eq!(
        tsv,
        "event_time\tevent_type\tevent_name\tduration_ms\tstatus\tuser\tcomment\tpayload\n\tdocument\tРеализация\t150\tSuccess\tAdmin\t\t{'Склад':'Основной','Сумма':'250000'}\n"
    );
}

#[test]
fn metric_fields_lose_tabs_and_line_feeds() {
    let tsv = metric("", 1).to_tsv_package();
    assert!(tsv.contains("\tРеализация Товаров \t"));
    assert!(tsv.ends_with("\t\t{}\n"));
}

#[test]
fn non_string_payload_values_are_json_text() {
    let tsv = metric(r#"{"n": 1.50, "l": [1,2]}"#, 1).to_tsv_package();
    assert!(tsv.ends_with("{'l':'[1,2]','n':'1.5'}\n"));
}

#[test]
fn payload_values_are_written_as_strings_or_json_text() {
    assert_eq!(payload_value_text(&JsonLeaf::Null), "null");
    assert_eq!(payload_value_text(&JsonLeaf::Bool(true)), "true");
    assert_eq!(payload_value_text(&JsonLeaf::Bool(false)), "false");
    assert_eq!(payload_value_text(&JsonLeaf::Number(JsonNumber::from_text("1.5".to_string()))), "1.5");
    assert_eq!(payload_value_text(&JsonLeaf::String("a'b".to_string())), "a'b");
    assert_eq!(payload_value_text(&JsonLeaf::Nested("[1,2]".to_string())), "[1,2]");
}

#[test]
fn payload_of_every_kind_is_rendered_in_the_map() {
    let m = EventMetric::new(
        "t".to_string(),
        "n".to_string(),
        7,
        "s".to_string(),
        "u".to_string(),
        "{\"a\": 1, \"b\": true, \"c\": null, \"d\": [1, 2], \"e\": \"x\"}".to_string(),
    );
    let tsv = m.to_tsv_package();
    assert!(tsv.ends_with("\t\t{'a':'1','b':'true','c':'null','d':'[1,2]','e':'x'}\n"));
    assert_eq!(tsv, reference_tsv(&m));
}

#[test]
fn metric_line_parses_back_into_one_row() {
    let tsv = EventMetric::prepare_metric_tsv(
        "document".to_string(),
        "Sale\tA".to_string(),
        -150,
        "Success".to_string(),
        "Admin".to_string(),
        "{\"k\": \"v\"}".to_string(),
    );
    let rows = parse_tsv_to_json(&tsv).unwrap();
    assert_eq!(rows.len(), 1);
    match &rows[0] {
        JsonValue::Object(o) => {
            assert_eq!(o.len(), 8);
            assert!(matches!(o.get(&"event_time".to_string()), Some(JsonLeaf::Null)));
            assert!(matches!(o.get(&"comment".to_string()), Some(JsonLeaf::Null)));
            match o.get(&"duration_ms".to_string()) {
                Some(JsonLeaf::Number(n)) => assert_eq!(n.text(), "-150"),
                _ => panic!("duration_ms is no number"),
            }
            match o.get(&"event_name".to_string()) {
                Some(JsonLeaf::String(s)) => assert_eq!(s, "Sale A"),
                _ => panic!("event_name is no string"),
            }
        }
        JsonValue::Leaf(_) => panic!("row is no object"),
    }
}
