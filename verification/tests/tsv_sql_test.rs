use click_house_component::json::{JsonLeaf, JsonNumber, JsonObject, JsonValue};
use click_house_component::utils::{
    build_insert_query, parse_tsv_to_json, table_exists_answer, table_exists_query,
};
use serde_json::{Number, Value};

fn leaf_to_serde(l: &JsonLeaf) -> Value {
    match l {
        JsonLeaf::Null => Value::Null,
        JsonLeaf::Bool(b) => Value::Bool(*b),
        JsonLeaf::Number(n) => serde_json::from_str::<Value>(n.text()).unwrap(),
        JsonLeaf::String(s) => Value::String(s.clone()),
        JsonLeaf::Nested(s) => serde_json::from_str::<Value>(s).unwrap(),
    }
}

fn to_serde(v: &JsonValue) -> Value {
    match v {
        JsonValue::Object(o) => {
            let mut m = serde_json::Map::new();
            for i in 0..o.len() {
                m.insert(o.key_at(i).clone(), leaf_to_serde(o.value_at(i)));
            }
            Value::Object(m)
        }
        JsonValue::Leaf(l) => leaf_to_serde(l),
    }
}

/// TSV rows as the serde_json calls build them.
fn reference_rows(tvs_data: &str) -> Result<Vec<Value>, String> {
    let mut lines = tvs_data.lines();
    let header = match lines.next() {
        Some(h) if !h.trim().is_empty() => h,
        _ => return Err("Пустые данные или отсутствует строка заголовков (TSV)".to_string()),
    };
    let columns: Vec<String> = header.split('\t').map(|s| s.trim().to_string()).collect();
    if columns.is_empty() || columns.iter().all(|c| c.is_empty()) {
        return Err("Не удалось определить колонки в заголовке TSV".to_string());
    }
    let mut rows = Vec::new();
    for line in lines {
        if line.trim().is_empty() {
            continue;
        }
        let fields: Vec<&str> = line.split('\t').collect();
        let mut map = serde_json::Map::new();
        for (i, col_name) in columns.iter().enumerate() {
            if col_name.is_empty() {
                continue;
            }
            if let Some(field_val) = fields.get(i) {
                let t = field_val.trim();
                let json_val = if let Ok(num) = t.parse::<i64>() {
                    Value::Number(num.into())
                } else if let Ok(float) = t.parse::<f64>() {
                    if let Some(num) = Number::from_f64(float) {
                        Value::Number(num)
                    } else {
                        Value::String(t.to_string())
                    }
                } else if t.eq_ignore_ascii_case("true") {
                    Value::Bool(true)
                } else if t.eq_ignore_ascii_case("false") {
                    Value::Bool(false)
                } else if t.eq_ignore_ascii_case("null") || t.is_empty() {
                    Value::Null
                } else {
                    Value::String(t.trim_matches('"').to_string())
                };
                map.insert(col_name.clone(), json_val);
            } else {
                map.insert(col_name.clone(), Value::Null);
            }
        }
        rows.push(Value::Object(map));
    }
    Ok(rows)
}

/// The statement as the serde_json calls build it.
fn reference_sql(table: &str, data: &[Value]) -> Result<String, String> {
    if data.is_empty() {
        return Err("Нет данных для вставки".to_string());
    }
    let first_obj = data[0].as_object().ok_or("Структура элементов кэша повреждена")?;
    let columns: Vec<String> = first_obj.keys().cloned().collect();
    let mut values_part = Vec::new();
    for row in data {
        let obj = row.as_object().ok_or("Элемент батча не является JSON-объектом")?;
        let mut row_values = Vec::new();
        for col in &columns {
            match obj.get(col).unwrap_or(&Value::Null) {
                Value::Null => row_values.push("NULL".to_string()),
                Value::Bool(b) => row_values.push(if *b { "1".to_string() } else { "0".to_string() }),
                Value::Number(n) => row_values.push(n.to_string()),
                Value::String(s) => row_values.push(format!("'{}'", s.replace('\'', "''"))),
                other => row_values.push(format!("'{}'", other.to_string().replace('\'', "''"))),
            }
        }
        values_part.push(format!("({})", row_values.join(", ")));
    }
    Ok(format!("INSERT INTO {} ({}) VALUES {}", table, columns.join(", "), values_part.join(", ")))
}

const SAMPLES: [&str; 16] = [
    "id\tname\tis_active\n1\tТовар №1\ttrue\n2\tТовар \"Спец\"\tfalse",
    "",
    "\n1\t2",
    "   \n1",
    "\t \t\n1\t2",
    "a\n",
    "a\n\n  \n",
    "b\ta\n1\n2\t3\t4\n",
    "x\tx\n1\t2\n",
    "id\tprice\r\n100\t450.50\r\n200\t990.00\r\n",
    "k\n'quote'\n",
    "k\tv\nnull\tNULL\n\t\n",
    " name \t id \nЖ\t-5\n",
    "a\t\tb\n1\t2\t3\n",
    "a\r",
    "a\n1\r",
];

#[test]
fn parsed_rows_match_reference_rules() {
    for text in SAMPLES {
        let mine = parse_tsv_to_json(text).map(|rows| rows.iter().map(to_serde).collect::<Vec<_>>());
        assert_eq!(mine, reference_rows(text), "text {:?}", text);
    }
}

#[test]
fn statements_match_reference_rules() {
    for text in SAMPLES {
        if let Ok(rows) = parse_tsv_to_json(text) {
            let serde_rows: Vec<Value> = rows.iter().map(to_serde).collect();
            assert_eq!(
                build_insert_query("db.t", &rows),
                reference_sql("db.t", &serde_rows),
                "text {:?}",
                text
            );
        }
    }
}

#[test]
fn statement_of_sample_batch() {
    let rows = parse_tsv_to_json("id\tname\tis_active\n1\tТовар №1\ttrue\n2\tТовар \"Спец\"\tfalse").unwrap();
    assert_eq!(
        build_insert_query("default.test_table", &rows).unwrap(),
        "INSERT INTO default.test_table (id, is_active, name) VALUES (1, 1, 'Товар №1'), (2, 0, 'Товар \"Спец')"
    );
}

#[test]
fn header_errors() {
    assert_eq!(
        parse_tsv_to_json("").unwrap_err(),
        "Пустые данные или отсутствует строка заголовков (TSV)"
    );
    assert_eq!(
        parse_tsv_to_json("  \t \n1").unwrap_err(),
        "Пустые данные или отсутствует строка заголовков (TSV)"
    );
    assert_eq!(
        parse_tsv_to_json("\t\t\n1\t2").unwrap_err(),
        "Пустые данные или отсутствует строка заголовков (TSV)"
    );
}

#[test]
fn header_only_gives_no_rows() {
    assert_eq!(parse_tsv_to_json("id\tname\tprice\n").unwrap().len(), 0);
}

#[test]
fn missing_fields_are_null_and_quotes_are_doubled() {
    let rows = parse_tsv_to_json("a\tb\nit's\n").unwrap();
    assert_eq!(build_insert_query("t", &rows).unwrap(), "INSERT INTO t (a, b) VALUES ('it''s', NULL)");
}

#[test]
fn rows_that_are_no_objects_are_refused() {
    let leaf = JsonValue::Leaf(JsonLeaf::Number(JsonNumber::from_i64(3)));
    assert_eq!(build_insert_query("t", &[leaf]).unwrap_err(), "Структура элементов кэша повреждена");
    let mut o = JsonObject::new();
    o.insert("a".to_string(), JsonLeaf::Bool(true));
    let rows = vec![JsonValue::Object(o), JsonValue::Leaf(JsonLeaf::Null)];
    assert_eq!(build_insert_query("t", &rows).unwrap_err(), "Элемент батча не является JSON-объектом");
}

#[test]
fn nested_values_are_quoted_json() {
    let mut o = JsonObject::new();
    o.insert("tags".to_string(), JsonLeaf::Nested("[\"a\",\"b'c\"]".to_string()));
    o.insert("n".to_string(), JsonLeaf::Null);
    assert_eq!(
        build_insert_query("t", &[JsonValue::Object(o)]).unwrap(),
        "INSERT INTO t (n, tags) VALUES (NULL, '[\"a\",\"b''c\"]')"
    );
}

#[test]
fn object_keeps_keys_sorted_and_last_write_wins() {
    let mut o = JsonObject::new();
    o.insert("b".to_string(), JsonLeaf::Bool(true));
    o.insert("a".to_string(), JsonLeaf::Null);
    o.insert("b".to_string(), JsonLeaf::Bool(false));
    assert_eq!(o.len(), 2);
    assert_eq!(o.key_at(0), "a");
    assert_eq!(o.key_at(1), "b");
    assert!(matches!(o.get(&"b".to_string()), Some(JsonLeaf::Bool(false))));
    assert!(o.get(&"c".to_string()).is_none());
}

#[test]
fn duplicate_columns_keep_the_last_field() {
    let rows = parse_tsv_to_json("x\tx\n1\t2\n").unwrap();
    assert_eq!(build_insert_query("t", &rows).unwrap(), "INSERT INTO t (x) VALUES (2)");
}

#[test]
fn table_exists_query_forms() {
    assert_eq!(
        table_exists_query("default.my_table"),
        "SELECT count() FROM system.tables WHERE database = 'default' AND name = 'my_table' FORMAT TabSeparated"
    );
    assert_eq!(
        table_exists_query("o'neil"),
        "SELECT count() FROM system.tables WHERE database = currentDatabase() AND name = 'o''neil' FORMAT TabSeparated"
    );
    assert_eq!(
        table_exists_query("a.b.c"),
        "SELECT count() FROM system.tables WHERE database = currentDatabase() AND name = 'a.b.c' FORMAT TabSeparated"
    );
}

#[test]
fn table_exists_answers() {
    assert_eq!(table_exists_answer(b"1\n".to_vec()), Ok(true));
    assert_eq!(table_exists_answer(b"0\n".to_vec()), Ok(false));
    assert_eq!(table_exists_answer(b"".to_vec()), Ok(false));
    assert_eq!(
        table_exists_answer(vec![0xff, 0x31]),
        Err("Не удалось распарсить ответ системы метаданных как UTF-8".to_string())
    );
}
