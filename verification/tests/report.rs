use web_bench_ui::report::{
    filter_by_test, initial_selection, test_names, Report, TestingResult, TestingResultList,
};

fn result(test: &str, ws: &str, lang: &str, db: Option<&str>, orm: Option<&str>, rps: u64) -> TestingResult {
    TestingResult {
        test_name: String::from(test),
        webserver_name: String::from(ws),
        language: String::from(lang),
        database: db.map(String::from),
        orm: orm.map(String::from),
        requests_per_second: rps,
        latency_p50: String::from("1ms"),
        latency_p75: String::from("2ms"),
        latency_p90: String::from("3ms"),
        latency_p99: String::from("4ms"),
    }
}

#[test]
fn filtering_keeps_only_the_selected_test_in_order() {
    let results = vec![
        result("t1", "a", "rust", None, None, 10),
        result("t2", "b", "go", None, None, 20),
        result("t1", "c", "python", None, None, 30),
    ];
    let filtered = filter_by_test(&results, "t1");
    assert_eq!(filtered.len(), 2);
    assert_eq!(filtered[0].webserver_name, "a");
    assert_eq!(filtered[1].webserver_name, "c");
}

#[test]
fn tab_list_keeps_first_appearance_order() {
    let results = vec![
        result("t1", "a", "rust", None, None, 10),
        result("t2", "b", "go", None, None, 20),
        result("t1", "c", "python", None, None, 30),
        result("t3", "d", "c", None, None, 40),
        result("t2", "e", "zig", None, None, 50),
    ];
    let names = test_names(&results);
    assert_eq!(names, vec!["t1", "t2", "t3"]);
}

#[test]
fn tab_list_of_an_empty_report_is_empty() {
    let names = test_names(&vec![]);
    assert!(names.is_empty());
}

#[test]
fn initial_selection_is_the_first_results_test() {
    let report = Report {
        created_at: String::from("today"),
        results: vec![
            result("t2", "b", "go", None, None, 20),
            result("t1", "a", "rust", None, None, 10),
        ],
    };
    assert_eq!(initial_selection(&report), Some(String::from("t2")));
}

#[test]
fn initial_selection_of_an_empty_report_is_none() {
    let report = Report {
        created_at: String::from("today"),
        results: vec![],
    };
    assert_eq!(initial_selection(&report), None);
}

#[test]
fn table_rows_sort_by_descending_throughput() {
    let results = vec![
        result("t1", "slow", "rust", None, None, 50),
        result("t1", "fast", "go", None, None, 100),
        result("t2", "other", "c", None, None, 999),
    ];
    let list = TestingResultList::create(&results, "t1");
    assert_eq!(list.rows.len(), 2);
    assert_eq!(list.rows[0].webserver_name, "fast");
    assert_eq!(list.rows[0].requests_per_second, 100);
    assert_eq!(list.rows[1].webserver_name, "slow");
    assert_eq!(list.rows[1].requests_per_second, 50);
}

#[test]
fn equal_throughput_keeps_the_report_order() {
    let results = vec![
        result("t1", "first", "rust", None, None, 100),
        result("t1", "second", "go", None, None, 100),
        result("t1", "third", "c", None, None, 100),
    ];
    let list = TestingResultList::create(&results, "t1");
    assert_eq!(list.rows[0].webserver_name, "first");
    assert_eq!(list.rows[1].webserver_name, "second");
    assert_eq!(list.rows[2].webserver_name, "third");
}

#[test]
fn absent_database_and_orm_render_as_sentinels() {
    let results = vec![
        result("t1", "a", "rust", None, None, 10),
        result("t1", "b", "go", Some("Postgres[v14]"), Some("diesel"), 20),
    ];
    let list = TestingResultList::create(&results, "t1");
    assert_eq!(list.rows[0].database, "Postgres[v14]");
    assert_eq!(list.rows[0].orm, "diesel");
    assert_eq!(list.rows[1].database, "no db");
    assert_eq!(list.rows[1].orm, "no orm");
}

#[test]
fn table_rows_carry_the_latency_columns() {
    let results = vec![result("t1", "a", "rust", None, None, 10)];
    let list = TestingResultList::create(&results, "t1");
    assert_eq!(list.rows[0].latency_p50, "1ms");
    assert_eq!(list.rows[0].latency_p75, "2ms");
    assert_eq!(list.rows[0].latency_p90, "3ms");
    assert_eq!(list.rows[0].latency_p99, "4ms");
}

#[test]
fn selection_without_rows_gives_an_empty_table() {
    let results = vec![result("t1", "a", "rust", None, None, 10)];
    let list = TestingResultList::create(&results, "t9");
    assert!(list.rows.is_empty());
}
