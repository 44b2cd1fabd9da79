use openapi_fdw::openapi::{
    Components, Info, OpenApiSpec, Operation, Parameter, PathItem, Response, MediaType, Schema,
};
use openapi_fdw::endpoints::EndpointInfo;
use openapi_fdw::tables::{ImportFilter, TableDef};
use openapi_fdw::cells::ColumnType;

fn plain_schema() -> Schema {
    Schema {
        schema_type: None,
        format: None,
        properties: Vec::new(),
        items: None,
        reference: None,
        required: Vec::new(),
        nullable: false,
        all_of: Vec::new(),
        one_of: Vec::new(),
        any_of: Vec::new(),
    }
}

fn typed(t: &str) -> Schema {
    let mut s = plain_schema();
    s.schema_type = Some(t.to_string());
    s
}

fn obj_schema(props: Vec<(&str, Schema)>, required: Vec<&str>) -> Schema {
    let mut s = typed("object");
    s.properties = props.into_iter().map(|(k, v)| (k.to_string(), v)).collect();
    s.required = required.into_iter().map(|r| r.to_string()).collect();
    s
}

fn ref_schema(r: &str) -> Schema {
    let mut s = plain_schema();
    s.reference = Some(r.to_string());
    s
}

fn spec_with(schemas: Vec<(&str, Schema)>) -> OpenApiSpec {
    OpenApiSpec {
        openapi: "3.0.0".to_string(),
        info: Info { title: "Test".to_string(), version: "1.0".to_string() },
        servers: Vec::new(),
        paths: Vec::new(),
        components: Some(Components {
            schemas: schemas.into_iter().map(|(k, v)| (k.to_string(), v)).collect(),
            security_schemes: Vec::new(),
        }),
    }
}

fn get_prop<'a>(s: &'a Schema, name: &str) -> Option<&'a Schema> {
    s.properties.iter().find(|(k, _)| k == name).map(|(_, v)| v)
}

#[test]
fn test_endpoint_table_name() {
    let endpoint = EndpointInfo {
        path: "/api/v1/user-accounts".to_string(),
        operation_id: None,
        summary: None,
        response_schema: None,
        supports_post: false,
        supports_patch: false,
        supports_delete: false,
        parameters: vec![],
    };

    assert_eq!(endpoint.table_name(), "user_accounts");
}

#[test]
fn test_resolve_ref() {
    let spec = spec_with(vec![(
        "User",
        obj_schema(vec![("id", typed("string")), ("name", typed("string"))], vec!["id"]),
    )]);
    let user_schema = spec.resolve_ref("#/components/schemas/User").unwrap();

    assert_eq!(user_schema.schema_type, Some("object".to_string()));
    assert!(get_prop(user_schema, "id").is_some());
    assert!(get_prop(user_schema, "name").is_some());
    assert!(user_schema.required.contains(&"id".to_string()));
}

#[test]
fn test_allof_merges_properties() {
    let mut extended = plain_schema();
    extended.all_of = vec![
        ref_schema("#/components/schemas/Base"),
        obj_schema(vec![("name", typed("string")), ("email", typed("string"))], vec!["name"]),
    ];
    let spec = spec_with(vec![
        ("Base", obj_schema(vec![("id", typed("string"))], vec!["id"])),
        ("Extended", extended),
    ]);

    let extended = spec.resolve_ref("#/components/schemas/Extended").unwrap();
    let resolved = spec.resolve_schema(extended);

    assert!(get_prop(&resolved, "id").is_some());
    assert!(get_prop(&resolved, "name").is_some());
    assert!(get_prop(&resolved, "email").is_some());

    assert!(resolved.required.contains(&"id".to_string()));
    assert!(resolved.required.contains(&"name".to_string()));
}

#[test]
fn test_oneof_merges_as_nullable() {
    let mut response = plain_schema();
    response.one_of = vec![
        obj_schema(
            vec![("user_id", typed("string")), ("user_name", typed("string"))],
            vec!["user_id"],
        ),
        obj_schema(
            vec![("org_id", typed("string")), ("org_name", typed("string"))],
            vec!["org_id"],
        ),
    ];
    let spec = spec_with(vec![("Response", response)]);

    let response = spec.resolve_ref("#/components/schemas/Response").unwrap();
    let resolved = spec.resolve_schema(response);

    assert!(get_prop(&resolved, "user_id").is_some());
    assert!(get_prop(&resolved, "user_name").is_some());
    assert!(get_prop(&resolved, "org_id").is_some());
    assert!(get_prop(&resolved, "org_name").is_some());

    assert!(get_prop(&resolved, "user_id").unwrap().nullable);
    assert!(get_prop(&resolved, "org_id").unwrap().nullable);

    assert!(resolved.required.is_empty());
}

#[test]
fn test_anyof_merges_as_nullable() {
    let mut flexible = plain_schema();
    flexible.any_of = vec![
        obj_schema(vec![("name", typed("string"))], vec![]),
        obj_schema(vec![("title", typed("string"))], vec![]),
    ];
    let spec = spec_with(vec![("Flexible", flexible)]);

    let flexible = spec.resolve_ref("#/components/schemas/Flexible").unwrap();
    let resolved = spec.resolve_schema(flexible);

    assert!(get_prop(&resolved, "name").is_some());
    assert!(get_prop(&resolved, "title").is_some());

    assert!(get_prop(&resolved, "name").unwrap().nullable);
    assert!(get_prop(&resolved, "title").unwrap().nullable);
}

#[test]
fn test_nested_ref_resolution() {
    let spec = spec_with(vec![
        (
            "Address",
            obj_schema(
                vec![("street", typed("string")), ("city", typed("string"))],
                vec![],
            ),
        ),
        (
            "Person",
            obj_schema(
                vec![
                    ("name", typed("string")),
                    ("address", ref_schema("#/components/schemas/Address")),
                ],
                vec![],
            ),
        ),
    ]);

    let person = spec.resolve_ref("#/components/schemas/Person").unwrap();
    let resolved = spec.resolve_schema(person);

    assert!(get_prop(&resolved, "name").is_some());
    assert!(get_prop(&resolved, "address").is_some());

    let address_prop = get_prop(&resolved, "address").unwrap();
    assert!(address_prop.reference.is_some() || !address_prop.properties.is_empty());
}

#[test]
fn test_resolve_plain_schema_unchanged() {
    let spec = spec_with(vec![]);
    let s = obj_schema(vec![("id", typed("string"))], vec!["id"]);
    let resolved = spec.resolve_schema(&s);
    assert_eq!(resolved.schema_type, Some("object".to_string()));
    assert!(get_prop(&resolved, "id").is_some());
    assert_eq!(resolved.required, vec!["id".to_string()]);
    assert!(!resolved.nullable);
}

#[test]
fn test_resolve_cyclic_ref_terminates() {
    let node = obj_schema(
        vec![("child", ref_schema("#/components/schemas/Node"))],
        vec![],
    );
    let mut cyc = plain_schema();
    cyc.reference = Some("#/components/schemas/Node".to_string());
    let spec = spec_with(vec![("Node", node)]);
    let resolved = spec.resolve_schema(&cyc);
    // One level is expanded; the nested reference stays for on-demand use.
    assert!(get_prop(&resolved, "child").is_some());
}

#[test]
fn test_unresolvable_ref_is_empty_object() {
    let spec = spec_with(vec![]);
    let resolved = spec.resolve_schema(&ref_schema("#/components/schemas/Missing"));
    assert_eq!(resolved.schema_type, Some("object".to_string()));
    assert!(resolved.properties.is_empty());
    let resolved = spec.resolve_schema(&ref_schema("#/definitions/Other"));
    assert_eq!(resolved.schema_type, Some("object".to_string()));
    assert!(resolved.properties.is_empty());
}

fn get_operation() -> Operation {
    Operation {
        operation_id: Some("listUsers".to_string()),
        summary: Some("List users".to_string()),
        description: None,
        parameters: Vec::new(),
        request_body: None,
        responses: vec![(
            "200".to_string(),
            Response {
                description: None,
                content: vec![(
                    "application/json".to_string(),
                    MediaType {
                        schema: Some(obj_schema(
                            vec![
                                ("id", typed("string")),
                                ("age", {
                                    let mut s = typed("integer");
                                    s.format = Some("int32".to_string());
                                    s
                                }),
                            ],
                            vec![],
                        )),
                    },
                )],
            },
        )],
        tags: Vec::new(),
    }
}

fn path_item(get: Option<Operation>, post: bool) -> PathItem {
    PathItem {
        get,
        post: if post { Some(get_operation()) } else { None },
        put: None,
        patch: None,
        delete: None,
        parameters: Vec::new(),
    }
}

#[test]
fn test_get_endpoints_filters_and_sorts() {
    let mut spec = spec_with(vec![]);
    spec.paths = vec![
        ("/zebras".to_string(), path_item(Some(get_operation()), false)),
        ("/users/{id}".to_string(), path_item(Some(get_operation()), false)),
        ("/apples".to_string(), path_item(Some(get_operation()), true)),
        ("/no-get".to_string(), path_item(None, true)),
    ];
    let endpoints = spec.get_endpoints();
    assert_eq!(endpoints.len(), 2);
    assert_eq!(endpoints[0].path, "/apples");
    assert_eq!(endpoints[1].path, "/zebras");
    assert!(endpoints[0].supports_post);
    assert!(!endpoints[1].supports_post);
}

#[test]
fn test_merge_parameters_keeps_path_level() {
    let p = |name: &str, loc: &str| Parameter {
        name: name.to_string(),
        location: loc.to_string(),
        required: false,
        schema: None,
        description: None,
    };
    let merged = OpenApiSpec::merge_parameters(
        &vec![p("limit", "query")],
        &vec![p("limit", "query"), p("after", "query")],
    );
    assert_eq!(merged.len(), 2);
    assert_eq!(merged[0].name, "limit");
    assert_eq!(merged[1].name, "after");
}

#[test]
fn test_base_url_first_server() {
    let mut spec = spec_with(vec![]);
    assert!(spec.base_url().is_none());
    spec.servers = vec![
        openapi_fdw::openapi::Server {
            url: "https://api.example.com".to_string(),
            description: None,
        },
    ];
    assert_eq!(spec.base_url(), Some("https://api.example.com"));
}

#[test]
fn test_table_generation_columns_and_filter() {
    let mut spec = spec_with(vec![]);
    let mut op = get_operation();
    op.responses = vec![(
        "200".to_string(),
        Response {
            description: None,
            content: vec![(
                "application/json".to_string(),
                MediaType {
                    schema: Some(obj_schema(
                        vec![("id", typed("string")), ("active", typed("boolean"))],
                        vec![],
                    )),
                },
            )],
        },
    )];
    spec.paths = vec![
        ("/users".to_string(), path_item(Some(op), true)),
        ("/pets".to_string(), path_item(Some(get_operation()), false)),
    ];
    let endpoints = spec.get_endpoints();
    let tables: Vec<TableDef> = spec.generate_tables(&endpoints, &ImportFilter::All);
    assert_eq!(tables.len(), 2);
    let users = tables.iter().find(|t| t.name == "users").unwrap();
    assert_eq!(users.columns.len(), 3);
    assert_eq!(users.columns[0], ("id".to_string(), ColumnType::Text));
    assert_eq!(users.columns[1], ("active".to_string(), ColumnType::Bool));
    assert_eq!(users.columns[2], ("attrs".to_string(), ColumnType::Json));
    assert!(users.supports_post);

    let only = spec.generate_tables(&endpoints, &ImportFilter::LimitTo(vec!["pets".to_string()]));
    assert_eq!(only.len(), 1);
    assert_eq!(only[0].name, "pets");

    let except = spec.generate_tables(&endpoints, &ImportFilter::Except(vec!["pets".to_string()]));
    assert_eq!(except.len(), 1);
    assert_eq!(except[0].name, "users");
}
