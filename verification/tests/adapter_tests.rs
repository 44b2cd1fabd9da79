use openapi_fdw::adapter::{
    AdapterError, FdwState, OptionBag, Qual, QualValue, ScanAction,
};
use openapi_fdw::cells::{
    Cell, CellPlan, Column, ColumnType, Row, TimeKind, json_to_cell, row_to_body, time_cell,
    time_render_epoch, cell_id_string,
};
use openapi_fdw::json::JsonValue;

fn s(x: &str) -> String {
    x.to_string()
}

fn obj(fields: Vec<(&str, JsonValue)>) -> JsonValue {
    JsonValue::Obj(fields.into_iter().map(|(k, v)| (s(k), v)).collect())
}

fn scan_state() -> FdwState {
    let mut st = FdwState::new();
    st.base_url = s("https://api.example.com");
    st.endpoint = s("/users");
    st.rowid_col = s("id");
    st.cursor_param = s("after");
    st.page_size = 100;
    st.page_size_param = s("limit");
    st
}

#[test]
fn rows_come_from_the_data_key() {
    // Response body {"data":[{"id":1},{"id":2}]} with no response path
    // yields exactly two rows, in array order.
    let mut st = scan_state();
    let body = obj(vec![(
        "data",
        JsonValue::Arr(vec![
            obj(vec![("id", JsonValue::Int(1))]),
            obj(vec![("id", JsonValue::Int(2))]),
        ]),
    )]);
    let rows = st.extract_data(&body).unwrap();
    assert_eq!(rows.len(), 2);
    match &rows[0] {
        JsonValue::Obj(fields) => match &fields[0].1 {
            JsonValue::Int(v) => assert_eq!(*v, 1),
            _ => panic!("first row is not the first array element"),
        },
        _ => panic!("row is not an object"),
    }
    st.ingest_page(200, "", Some(&body)).unwrap();
    assert_eq!(st.src_rows.len(), 2);
    assert_eq!(st.src_idx, 0);
    assert!(matches!(st.next_action(), ScanAction::Emit));
}

#[test]
fn has_more_without_cursor_path_sets_next_cursor() {
    // {"has_more":true,"next_cursor":"abc"} with no cursor path yields
    // next_cursor = "abc" and no next URL.
    let mut st = scan_state();
    let body = obj(vec![
        ("has_more", JsonValue::Bool(true)),
        ("next_cursor", JsonValue::Str(s("abc"))),
    ]);
    st.handle_pagination(&body);
    assert_eq!(st.next_cursor, Some(s("abc")));
    assert_eq!(st.next_url, None);
}

#[test]
fn pagination_prefers_next_links() {
    let mut st = scan_state();
    let body = obj(vec![(
        "links",
        obj(vec![("next", JsonValue::Str(s("https://api.example.com/users?after=x")))]),
    )]);
    st.handle_pagination(&body);
    assert_eq!(st.next_cursor, None);
    assert_eq!(st.next_url, Some(s("https://api.example.com/users?after=x")));
}

#[test]
fn cursor_path_takes_precedence() {
    let mut st = scan_state();
    st.cursor_path = s("/meta/token");
    let body = obj(vec![
        ("meta", obj(vec![("token", JsonValue::Str(s("t-9")))])),
        ("has_more", JsonValue::Bool(true)),
        ("next_cursor", JsonValue::Str(s("abc"))),
    ]);
    st.handle_pagination(&body);
    assert_eq!(st.next_cursor, Some(s("t-9")));
    assert_eq!(st.next_url, None);
}

#[test]
fn identifier_pushdown_builds_resource_url() {
    // A scan filter id = 'xyz' with rowid column "id" produces
    // {base_url}{endpoint}/xyz and bypasses pagination parameters.
    let mut st = scan_state();
    st.next_cursor = Some(s("should-not-appear"));
    let quals = vec![Qual {
        field: s("ID"),
        operator: s("="),
        value: QualValue::Single(Cell::Text(s("xyz"))),
    }];
    assert_eq!(st.build_url(&quals), "https://api.example.com/users/xyz");
}

#[test]
fn list_url_carries_pagination_and_filters() {
    let mut st = scan_state();
    st.next_cursor = Some(s("c1"));
    let quals = vec![
        Qual { field: s("id"), operator: s("="), value: QualValue::Single(Cell::I64(7)) },
        Qual { field: s("age"), operator: s("="), value: QualValue::Single(Cell::I32(30)) },
        Qual { field: s("name"), operator: s("<"), value: QualValue::Single(Cell::Text(s("q"))) },
        Qual { field: s("flag"), operator: s("="), value: QualValue::Single(Cell::Bool(true)) },
    ];
    // The id qual is equality but not on a string, so no pushdown; for the
    // list URL the id column is skipped and only supported kinds render.
    assert_eq!(
        st.build_url(&quals),
        "https://api.example.com/users?after=c1&limit=100&age=30&flag=true"
    );
}

#[test]
fn next_url_is_reused_verbatim() {
    let mut st = scan_state();
    st.next_url = Some(s("https://api.example.com/users?page=2"));
    assert_eq!(st.build_url(&vec![]), "https://api.example.com/users?page=2");
}

#[test]
fn not_found_yields_no_rows_and_no_continuation() {
    // A 404 on a read yields zero rows and clears pagination, no error.
    let mut st = scan_state();
    st.next_cursor = Some(s("c1"));
    st.src_rows = vec![JsonValue::Null];
    let r = st.ingest_page(404, "not found", None);
    assert!(r.is_ok());
    assert_eq!(st.src_rows.len(), 0);
    assert_eq!(st.next_cursor, None);
    assert_eq!(st.next_url, None);
    assert!(matches!(st.next_action(), ScanAction::Done));
}

#[test]
fn transport_error_carries_status_and_body() {
    let mut st = scan_state();
    match st.ingest_page(500, "boom", None) {
        Err(AdapterError::Transport(status, body)) => {
            assert_eq!(status, 500);
            assert_eq!(body, "boom");
        },
        _ => panic!("a non-2xx status must be a transport error"),
    }
}

#[test]
fn unparsable_body_is_a_parse_error() {
    let mut st = scan_state();
    assert!(matches!(st.ingest_page(200, "{", None), Err(AdapterError::ParseBody)));
}

#[test]
fn shape_errors_are_reported() {
    let mut st = scan_state();
    st.response_path = Some(s("/missing"));
    match st.extract_data(&obj(vec![])) {
        Err(AdapterError::PathNotFound(p)) => assert_eq!(p, "/missing"),
        _ => panic!("a dangling response path must be reported"),
    }
    st.response_path = Some(s("/flag"));
    let body = obj(vec![("flag", JsonValue::Bool(true))]);
    assert!(matches!(st.extract_data(&body), Err(AdapterError::NotArrayOrObject)));
    st.response_path = None;
    assert!(matches!(st.extract_data(&JsonValue::Int(3)), Err(AdapterError::Unextractable)));
}

#[test]
fn missing_endpoint_option_is_reported() {
    let mut st = FdwState::new();
    let opts = OptionBag { entries: vec![] };
    match st.begin_scan_opts(&opts) {
        Err(AdapterError::MissingOption(name)) => assert_eq!(name, "endpoint"),
        _ => panic!("a scan without an endpoint option must be rejected"),
    }
}

#[test]
fn begin_scan_reads_table_options() {
    let mut st = FdwState::new();
    st.cursor_param = s("after");
    st.page_size_param = s("limit");
    st.page_size = 100;
    let opts = OptionBag {
        entries: vec![
            (s("endpoint"), s("/things")),
            (s("page_size"), s("25")),
            (s("cursor_param"), s("cursor")),
        ],
    };
    st.begin_scan_opts(&opts).unwrap();
    assert_eq!(st.endpoint, "/things");
    assert_eq!(st.rowid_col, "id");
    assert_eq!(st.page_size, 25);
    assert_eq!(st.cursor_param, "cursor");
    assert_eq!(st.page_size_param, "limit");
    assert_eq!(st.cursor_path, "");
}

#[test]
fn column_matching_handles_camel_and_case() {
    // Target user_name matches source key userName through the camelCase
    // form; target userName matches key USERNAME case-insensitively.
    let row = obj(vec![("userName", JsonValue::Str(s("ada")))]);
    let col = Column { name: s("user_name"), col_type: ColumnType::Text };
    match json_to_cell(&row, &col) {
        CellPlan::Ready(Some(Cell::Text(v))) => assert_eq!(v, "ada"),
        _ => panic!("camelCase source key must match"),
    }
    let row = obj(vec![("USERNAME", JsonValue::Str(s("ada")))]);
    let camel_col = Column { name: s("userName"), col_type: ColumnType::Text };
    match json_to_cell(&row, &camel_col) {
        CellPlan::Ready(Some(Cell::Text(v))) => assert_eq!(v, "ada"),
        _ => panic!("case-insensitive source key must match"),
    }
    let row = obj(vec![("other", JsonValue::Str(s("x")))]);
    assert!(matches!(json_to_cell(&row, &col), CellPlan::Ready(None)));
}

#[test]
fn attrs_column_takes_whole_row() {
    let row = obj(vec![("id", JsonValue::Int(1))]);
    let col = Column { name: s("attrs"), col_type: ColumnType::Text };
    match json_to_cell(&row, &col) {
        CellPlan::Ready(Some(Cell::Json(v))) => assert_eq!(v.to_text(), "{\"id\":1}"),
        _ => panic!("attrs must receive the whole row"),
    }
}

#[test]
fn integer_and_time_conversions() {
    let row = obj(vec![
        ("n", JsonValue::Int(300)),
        ("t", JsonValue::Str(s("2020-01-02T03:04:05Z"))),
    ]);
    match json_to_cell(&row, &Column { name: s("n"), col_type: ColumnType::I8 }) {
        CellPlan::Ready(Some(Cell::I8(v))) => assert_eq!(v, 44),  // 300 truncated to i8
        _ => panic!("integer conversion failed"),
    }
    match json_to_cell(&row, &Column { name: s("t"), col_type: ColumnType::Timestamp }) {
        CellPlan::ParseTime(TimeKind::Timestamp, text) => {
            assert_eq!(text, "2020-01-02T03:04:05Z");
        },
        _ => panic!("a timestamp column needs the host's parser"),
    }
    // 1_577_934_245 seconds; a date cell truncates microseconds to seconds.
    let c = time_cell(TimeKind::Date, 1_577_934_245_123_456);
    match c {
        Cell::Date(v) => assert_eq!(v, 1_577_934_245),
        _ => panic!("wrong cell kind"),
    }
    assert_eq!(time_render_epoch(&Cell::Date(2)), Some(2_000_000));
    assert_eq!(time_render_epoch(&Cell::Timestamp(5)), Some(5));
    assert_eq!(time_render_epoch(&Cell::Text(s("x"))), None);
}

#[test]
fn row_body_round_trips_through_json() {
    // Converting a row to a mutation body and re-parsing it yields exactly
    // the non-attrs, non-null columns.
    let row = Row {
        cols: vec![s("id"), s("attrs"), s("name"), s("age"), s("skipped")],
        cells: vec![
            Some(Cell::Text(s("u-1"))),
            Some(Cell::Json(JsonValue::Null)),
            Some(Cell::Text(s("Ada"))),
            Some(Cell::I64(36)),
            None,
        ],
    };
    let times = vec![None, None, None, None, None];
    let body = row_to_body(&row, &times);
    let text = body.to_text();
    let parsed: serde_json::Value = serde_json::from_str(&text).unwrap();
    let map = parsed.as_object().unwrap();
    let mut keys: Vec<&String> = map.keys().collect();
    keys.sort();
    assert_eq!(keys, vec!["age", "id", "name"]);
    assert_eq!(map.len(), 3);
    assert_eq!(map["id"], serde_json::Value::String("u-1".to_string()));
    assert_eq!(map["age"], serde_json::Value::Number(36.into()));
}

#[test]
fn mutation_requests_render_ids() {
    let st = scan_state();
    let row = Row { cols: vec![s("name")], cells: vec![Some(Cell::Text(s("Ada")))] };
    let times = vec![None];
    let ins = st.insert_request(&row, &times);
    assert_eq!(ins.url, "https://api.example.com/users");
    assert_eq!(ins.body, "{\"name\":\"Ada\"}");

    let upd = st.update_request(&Cell::I64(7), &row, &times).unwrap();
    assert_eq!(upd.url, "https://api.example.com/users/7");

    let del = st.delete_request(&Cell::Text(s("u-9"))).unwrap();
    assert_eq!(del.url, "https://api.example.com/users/u-9");
    assert_eq!(del.body, "");

    match st.delete_request(&Cell::Bool(true)) {
        Err(AdapterError::BadRowId) => {},
        _ => panic!("a boolean row id must be rejected"),
    }
    assert_eq!(cell_id_string(&Cell::I32(-3)), Some(s("-3")));
}

#[test]
fn object_path_projects_rows() {
    let mut st = scan_state();
    st.object_path = Some(s("/properties"));
    let body = JsonValue::Arr(vec![obj(vec![(
        "properties",
        obj(vec![("id", JsonValue::Int(4))]),
    )])]);
    st.ingest_page(200, "", Some(&body)).unwrap();
    let cols = vec![Column { name: s("id"), col_type: ColumnType::I64 }];
    let plans = st.row_plans(&cols);
    assert_eq!(plans.len(), 1);
    match &plans[0] {
        CellPlan::Ready(Some(Cell::I64(v))) => assert_eq!(*v, 4),
        _ => panic!("object path projection failed"),
    }
    assert_eq!(st.src_idx, 1);
    assert!(matches!(st.next_action(), ScanAction::Done));
}

#[test]
fn json_pointer_follows_tokens() {
    let doc = obj(vec![(
        "a",
        JsonValue::Arr(vec![JsonValue::Int(10), obj(vec![("b~c", JsonValue::Int(7))])]),
    )]);
    assert!(doc.pointer("").is_some());
    assert!(doc.pointer("/a/0").is_some());
    match doc.pointer("/a/1/b~0c") {
        Some(JsonValue::Int(v)) => assert_eq!(*v, 7),
        _ => panic!("escaped pointer token failed"),
    }
    assert!(doc.pointer("/a/01").is_none());
    assert!(doc.pointer("/a/2").is_none());
    assert!(doc.pointer("a").is_none());
}

#[test]
fn json_text_is_compact_and_escaped() {
    let v = obj(vec![
        ("s", JsonValue::Str(s("a\"b\\c\nd"))),
        ("l", JsonValue::Arr(vec![JsonValue::Bool(true), JsonValue::Null])),
        ("n", JsonValue::Num(s("1.5"))),
    ]);
    assert_eq!(v.to_text(), "{\"s\":\"a\\\"b\\\\c\\nd\",\"l\":[true,null],\"n\":1.5}");
    let reparsed: serde_json::Value = serde_json::from_str(&v.to_text()).unwrap();
    assert_eq!(reparsed["s"], serde_json::Value::String("a\"b\\c\nd".to_string()));
}

#[test]
fn camel_case_conversion() {
    assert_eq!(openapi_fdw::strutil::to_camel_case("user_name"), "userName");
    assert_eq!(openapi_fdw::strutil::to_camel_case("a_b_c"), "aBC");
    assert_eq!(openapi_fdw::strutil::to_camel_case("plain"), "plain");
}

#[test]
fn server_options_build_headers_and_defaults() {
    let mut st = FdwState::new();
    let opts = OptionBag {
        entries: vec![
            (s("base_url"), s("https://api.example.com/")),
            (s("api_key_id"), s("SECRET-REDACTED")),
        ],
    };
    st.init_server(&opts, Some(s("k-123")), None);
    assert_eq!(st.base_url, "https://api.example.com");
    assert_eq!(st.page_size, 100);
    assert_eq!(st.page_size_param, "limit");
    assert_eq!(st.cursor_param, "after");
    assert_eq!(st.headers.len(), 4);
    assert_eq!(st.headers[0], (s("user-agent"), s("Wrappers OpenAPI FDW")));
    assert_eq!(st.headers[3], (s("authorization"), s("Bearer k-123")));

    let mut st = FdwState::new();
    let opts = OptionBag {
        entries: vec![
            (s("api_key"), s("k-9")),
            (s("api_key_header"), s("X-Api-Key")),
            (s("api_key_prefix"), s("Token")),
            (s("page_size"), s("7")),
        ],
    };
    st.init_server(&opts, None, None);
    assert_eq!(st.base_url, "");
    assert_eq!(st.page_size, 7);
    assert_eq!(st.headers[3], (s("x-api-key"), s("Token k-9")));
}

#[test]
fn spec_base_url_fills_in_when_unset() {
    let doc = openapi_fdw::openapi::OpenApiSpec {
        openapi: s("3.0.0"),
        info: openapi_fdw::openapi::Info { title: s("T"), version: s("1") },
        servers: vec![openapi_fdw::openapi::Server {
            url: s("https://api.example.com/v1/"),
            description: None,
        }],
        paths: vec![],
        components: None,
    };
    let mut st = FdwState::new();
    st.adopt_base_url(&doc);
    assert_eq!(st.base_url, "https://api.example.com/v1");
    let mut st2 = FdwState::new();
    st2.base_url = s("https://other.example.com");
    st2.adopt_base_url(&doc);
    assert_eq!(st2.base_url, "https://other.example.com");
}

#[test]
fn decimal_helpers() {
    assert_eq!(openapi_fdw::strutil::u64_to_string(0), "0");
    assert_eq!(openapi_fdw::strutil::u64_to_string(90210), "90210");
    assert_eq!(openapi_fdw::strutil::i64_to_string(-45), "-45");
    assert_eq!(openapi_fdw::strutil::i64_to_string(i64::MIN), "-9223372036854775808");
    assert_eq!(openapi_fdw::strutil::parse_dec_usize("123"), Some(123));
    assert_eq!(openapi_fdw::strutil::parse_dec_usize(""), None);
    assert_eq!(openapi_fdw::strutil::parse_dec_usize("12x"), None);
}
