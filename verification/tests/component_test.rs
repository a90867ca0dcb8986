use click_house_component::cache::AddInCache;
use click_house_component::click_house_component::{
    client_and_runtime_check, execute_reply, finish_bulk_insert, flush_all_statements,
    json_query, plan_bulk_insert, plan_bulk_insert_with_timeout, table_check_reply, InsertPlan,
};

#[test]
fn readiness() {
    assert_eq!(client_and_runtime_check(true, true), Ok(()));
    assert_eq!(
        client_and_runtime_check(false, false),
        Err("Ошибка компоненты: Клиент ClickHouse не инициализирован".to_string())
    );
    assert_eq!(
        client_and_runtime_check(true, false),
        Err("Ошибка компоненты: Tokio Runtime не инициализирован".to_string())
    );
}

#[test]
fn json_query_text() {
    assert_eq!(json_query("SELECT 1 as test_val"), "SELECT 1 as test_val FORMAT JSON");
    assert_eq!(json_query("  SELECT 1;;"), "SELECT 1 FORMAT JSON");
    assert_eq!(json_query("SELECT 1; "), "SELECT 1; FORMAT JSON");
}

#[test]
fn execute_replies() {
    assert_eq!(execute_reply(Ok(b"{\"rows\": 1}\n\0\0".to_vec())), "{\"rows\": 1}");
    assert_eq!(execute_reply(Ok(b"  \0".to_vec())), "{\"meta\": [], \"data\": [], \"rows\": 0}");
    assert_eq!(
        execute_reply(Ok(vec![0x41, 0xff])),
        "{\"error\": \"Ошибка декодирования UTF-8: invalid utf-8 sequence of 1 bytes from index 1\"}"
    );
    assert_eq!(
        execute_reply(Err("timeout".to_string())),
        "{\"error\": \"Ошибка ClickHouse: timeout\"}"
    );
}

#[test]
fn table_check_replies() {
    assert_eq!(table_check_reply("db.t", Ok(true)), None);
    assert_eq!(
        table_check_reply("db.t", Ok(false)),
        Some("Ошибка: Таблица 'db.t' не существует в ClickHouse".to_string())
    );
    assert_eq!(
        table_check_reply("db.t", Err("down".to_string())),
        Some("Ошибка сети при проверке существования таблицы: down".to_string())
    );
}

#[test]
fn bulk_insert_parse_error_is_answered() {
    let mut cache = AddInCache::new(10, 5);
    match plan_bulk_insert(&mut cache, "t".to_string(), "") {
        InsertPlan::Reply(s) => assert_eq!(
            s,
            "Ошибка при разборе TSV данных из 1С: Пустые данные или отсутствует строка заголовков (TSV)"
        ),
        other => panic!("{:?}", other),
    }
}

#[test]
fn bulk_insert_without_rows_flushes_expired() {
    let mut cache = AddInCache::new(10, 5);
    assert!(matches!(
        plan_bulk_insert(&mut cache, "t".to_string(), "id\tname\n"),
        InsertPlan::FlushExpired
    ));
}

#[test]
fn bulk_insert_below_limit_is_ok() {
    let mut cache = AddInCache::new(10, 3600);
    match plan_bulk_insert_with_timeout(&mut cache, "t".to_string(), "id\n1\n", false) {
        InsertPlan::Reply(s) => assert_eq!(s, "OK"),
        other => panic!("{:?}", other),
    }
}

#[test]
fn bulk_insert_at_limit_sends_and_failure_returns_batch() {
    let mut cache = AddInCache::new(2, 3600);
    let plan = plan_bulk_insert_with_timeout(&mut cache, "db.t".to_string(), "id\tname\n1\ta\n2\tb\n", false);
    match plan {
        InsertPlan::SendBatch { table, sql, data } => {
            assert_eq!(table, "db.t");
            assert_eq!(sql, "INSERT INTO db.t (id, name) VALUES (1, 'a'), (2, 'b')");
            assert!(cache.take_flush_data("db.t").is_none());
            let reply = finish_bulk_insert(&mut cache, table, data, Err("refused".to_string()));
            assert_eq!(reply, "Ошибка отправки кэша в ClickHouse: refused");
            assert_eq!(cache.take_flush_data("db.t").unwrap().len(), 2);
        }
        other => panic!("{:?}", other),
    }
}

#[test]
fn bulk_insert_sent_is_ok() {
    let mut cache = AddInCache::new(1, 3600);
    let plan = plan_bulk_insert_with_timeout(&mut cache, "t".to_string(), "id\n1\n", false);
    match plan {
        InsertPlan::SendBatch { table, data, .. } => {
            assert_eq!(finish_bulk_insert(&mut cache, table, data, Ok(())), "OK");
            assert!(cache.take_flush_data("t").is_none());
        }
        other => panic!("{:?}", other),
    }
}

#[test]
fn manual_flush_statements() {
    let mut cache = AddInCache::new(100, 3600);
    plan_bulk_insert_with_timeout(&mut cache, "a".to_string(), "x\n1\n", false);
    plan_bulk_insert_with_timeout(&mut cache, "b".to_string(), "y\n'q'\n", false);
    let stmts = flush_all_statements(&mut cache);
    assert_eq!(
        stmts,
        vec![
            "INSERT INTO a (x) VALUES (1)".to_string(),
            "INSERT INTO b (y) VALUES ('''q''')".to_string()
        ]
    );
    assert!(flush_all_statements(&mut cache).is_empty());
}
