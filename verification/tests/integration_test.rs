use click_house_component::cache::AddInCache;
use click_house_component::json::{JsonLeaf, JsonNumber, JsonObject, JsonValue};
use click_house_component::utils::{build_insert_query, parse_tsv_to_json};

#[test]
fn test_pure_logic_parsing_and_sql() {
    let tsv_data = "id\tname\tis_active\n1\tТовар №1\ttrue\n2\tТовар \"Спец\"\tfalse";
    let rows = parse_tsv_to_json(tsv_data).expect("Парсер упал");

    assert_eq!(rows.len(), 2);

    let sql = build_insert_query("default.test_table", &rows).expect("Сборщик SQL упал");
    assert!(sql.starts_with("INSERT INTO default.test_table"));
    assert!(sql.contains("1"));
    assert!(sql.contains("'Товар №1'"));
}

#[test]
fn test_hypothesis_empty_vector_in_query_builder() {
    let empty_data: Vec<JsonValue> = Vec::new();
    let table_name = "default.test_table";

    let result = build_insert_query(table_name, &empty_data);

    assert!(result.is_err(), "Метод должен был вернуть Err, но вернул Ok!");

    let err_message = result.unwrap_err();
    assert_eq!(err_message, "Нет данных для вставки");
}

fn row(id: i64, message: &str) -> JsonValue {
    let mut o = JsonObject::new();
    o.insert("row_id".to_string(), JsonLeaf::Number(JsonNumber::from_i64(id)));
    o.insert("message".to_string(), JsonLeaf::String(message.to_string()));
    JsonValue::Object(o)
}

#[test]
fn test_hypothesis_double_free_on_manual_flush() {
    let mut cache = AddInCache::new(50000, 5);
    let table_name = "default.test_table".to_string();

    let test_rows = vec![row(1, "Тест 1"), row(2, "Тест 2")];

    let _status = cache.add(table_name.clone(), test_rows);

    let all_batches = cache.flush_all();
    assert!(!all_batches.is_empty(), "all_batches не должен быть пустым!");

    {
        let _data_to_drop = all_batches;
    }

    let flush_data_inside = cache.take_flush_data(&table_name);
    assert!(flush_data_inside.is_some(), "Клон внутри buffer.flush пропал или повредился!");

    let unwrapped_data = flush_data_inside.unwrap();
    assert_eq!(unwrapped_data.len(), 2, "Количество элементов в клоне изменилось!");
}
