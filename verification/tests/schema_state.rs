use surrealkit::catalog::{build_catalog_snapshot, removed_entities, render_remove_sql};
use surrealkit::error::ErrorKind;
use surrealkit::schema_state::{
    diff_schema, load_schema_snapshot, save_catalog_snapshot, save_schema_snapshot,
    schema_file, snapshot_from_files, CatalogSnapshot, EntityKey, SchemaFile, SchemaSnapshot,
    SchemaSnapshotEntry,
};

fn entry(path: &str, hash: &str) -> SchemaSnapshotEntry {
    SchemaSnapshotEntry { path: path.to_string(), hash: hash.to_string() }
}

fn entity(kind: &str, scope: Option<&str>, name: &str) -> EntityKey {
    EntityKey { kind: kind.to_string(), scope: scope.map(|s| s.to_string()), name: name.to_string() }
}

#[test]
fn schema_diff_detects_added_modified_removed() {
    let old = SchemaSnapshot {
        version: 1,
        files: vec![
            SchemaSnapshotEntry {
                path: "database/schema/a.surql".to_string(),
                hash: "1".to_string(),
            },
            SchemaSnapshotEntry {
                path: "database/schema/b.surql".to_string(),
                hash: "2".to_string(),
            },
        ],
    };
    let new = SchemaSnapshot {
        version: 1,
        files: vec![
            SchemaSnapshotEntry {
                path: "database/schema/b.surql".to_string(),
                hash: "3".to_string(),
            },
            SchemaSnapshotEntry {
                path: "database/schema/c.surql".to_string(),
                hash: "4".to_string(),
            },
        ],
    };

    let diff = diff_schema(&old, &new);
    assert_eq!(diff.added, vec!["database/schema/c.surql"]);
    assert_eq!(diff.modified, vec!["database/schema/b.surql"]);
    assert_eq!(diff.removed, vec!["database/schema/a.surql"]);
}

#[test]
fn catalog_extracts_supported_entities() {
    let files = vec![SchemaFile {
        path: "database/schema/root.surql".to_string(),
        hash: "x".to_string(),
        sql: r#"
				DEFINE TABLE OVERWRITE person SCHEMAFULL;
				DEFINE FIELD OVERWRITE name ON person TYPE string;
				DEFINE EVENT changed ON person WHEN true THEN ();
				DEFINE INDEX by_name ON TABLE person FIELDS name;
				DEFINE FUNCTION fn::greet($name: string) { RETURN $name; };
				DEFINE PARAM $env VALUE "dev";
				DEFINE ACCESS admin ON DATABASE TYPE RECORD;
				DEFINE ANALYZER english TOKENIZERS blank, class;
				DEFINE USER app ON DATABASE PASSHASH "x";
				DEFINE API v1;
			"#
        .to_string(),
    }];

    let catalog = build_catalog_snapshot(&files);
    assert!(catalog.entities.contains(&EntityKey {
        kind: "table".to_string(),
        scope: None,
        name: "person".to_string()
    }));
    assert!(catalog.entities.contains(&EntityKey {
        kind: "field".to_string(),
        scope: Some("person".to_string()),
        name: "name".to_string()
    }));
    assert!(catalog.entities.contains(&EntityKey {
        kind: "api".to_string(),
        scope: None,
        name: "v1".to_string()
    }));
}

#[test]
fn render_remove_sql_respects_api_support() {
    let entities = vec![
        EntityKey {
            kind: "field".to_string(),
            scope: Some("person".to_string()),
            name: "nickname".to_string(),
        },
        EntityKey { kind: "api".to_string(), scope: None, name: "v1".to_string() },
    ];

    let supported = render_remove_sql(&entities, true).expect("api should be supported");
    assert!(supported.iter().any(|line| line == "REMOVE API v1;"));

    let unsupported = render_remove_sql(&entities, false);
    assert!(unsupported.is_err());
}

#[test]
fn snapshot_from_files_is_sorted_for_determinism() {
    let files = vec![
        SchemaFile {
            path: "database/schema/z.surql".to_string(),
            sql: "".to_string(),
            hash: "z".to_string(),
        },
        SchemaFile {
            path: "database/schema/a.surql".to_string(),
            sql: "".to_string(),
            hash: "a".to_string(),
        },
    ];

    let snap = snapshot_from_files(&files);
    assert_eq!(snap.files[0].path, "database/schema/a.surql");
    assert_eq!(snap.files[1].path, "database/schema/z.surql");
}

#[test]
fn diff_of_a_snapshot_with_itself_is_empty() {
    let snap = SchemaSnapshot {
        version: 1,
        files: vec![entry("b", "2"), entry("a", "1"), entry("c", "3")],
    };
    let diff = diff_schema(&snap, &snap);
    assert!(diff.added.is_empty());
    assert!(diff.modified.is_empty());
    assert!(diff.removed.is_empty());
}

#[test]
fn diff_lists_are_ascending_whatever_the_order_of_entries() {
    let old = SchemaSnapshot { version: 1, files: vec![entry("q", "1"), entry("p", "1")] };
    let new = SchemaSnapshot {
        version: 1,
        files: vec![entry("z", "1"), entry("m", "1"), entry("a", "1"), entry("m", "2")],
    };
    let diff = diff_schema(&old, &new);
    assert_eq!(diff.added, vec!["a", "m", "z"]);
    assert_eq!(diff.removed, vec!["p", "q"]);
    assert!(diff.modified.is_empty());
}

#[test]
fn snapshot_is_the_same_for_every_order_of_the_files() {
    let a = SchemaFile { path: "a".to_string(), sql: "".to_string(), hash: "1".to_string() };
    let b = SchemaFile { path: "b".to_string(), sql: "".to_string(), hash: "2".to_string() };
    let c = SchemaFile { path: "ab".to_string(), sql: "".to_string(), hash: "3".to_string() };
    let one = snapshot_from_files(&vec![a.clone(), b.clone(), c.clone()]);
    let two = snapshot_from_files(&vec![c, b, a]);
    assert_eq!(one, two);
    assert_eq!(one.version, 1);
    assert_eq!(one.files, vec![entry("a", "1"), entry("ab", "3"), entry("b", "2")]);
}

#[test]
fn schema_file_hashes_its_content() {
    let file = schema_file("database/schema/a.surql".to_string(), "abc".to_string());
    assert_eq!(file.hash, "ba7816bf8f01cfea414140de5dae2223b00361a396177a9cb410ff61f20015ad");
    let empty = schema_file("e".to_string(), String::new());
    assert_eq!(empty.hash, "e3b0c44298fc1c149afbf4c8996fb92427ae41e4649b934ca495991b7852b855");
}

#[test]
fn missing_snapshot_is_an_empty_one() {
    let snap = load_schema_snapshot(None);
    assert_eq!(snap, SchemaSnapshot { version: 1, files: vec![] });
    let stored = SchemaSnapshot { version: 3, files: vec![entry("a", "1")] };
    assert_eq!(load_schema_snapshot(Some(stored.clone())), stored);
}

#[test]
fn snapshot_document_is_indented_json_with_a_final_line_feed() {
    let snap = SchemaSnapshot { version: 1, files: vec![entry("a\"b", "1"), entry("c", "2")] };
    let text = save_schema_snapshot(&snap);
    let expected = "{\n  \"version\": 1,\n  \"files\": [\n    {\n      \"path\": \"a\\\"b\",\n      \"hash\": \"1\"\n    },\n    {\n      \"path\": \"c\",\n      \"hash\": \"2\"\n    }\n  ]\n}\n";
    assert_eq!(text, expected);
    let parsed: serde_json::Value = serde_json::from_str(&text).expect("document should be JSON");
    assert_eq!(parsed["files"][0]["path"], "a\"b");
    assert_eq!(parsed["version"], 1);
    assert_eq!(save_schema_snapshot(&SchemaSnapshot { version: 1, files: vec![] }), "{\n  \"version\": 1,\n  \"files\": []\n}\n");
}

#[test]
fn catalog_document_spells_a_missing_scope_as_null() {
    let snap = CatalogSnapshot {
        version: 1,
        entities: vec![entity("field", Some("person"), "name"), entity("table", None, "person")],
    };
    let text = save_catalog_snapshot(&snap);
    let expected = "{\n  \"version\": 1,\n  \"entities\": [\n    {\n      \"kind\": \"field\",\n      \"scope\": \"person\",\n      \"name\": \"name\"\n    },\n    {\n      \"kind\": \"table\",\n      \"scope\": null,\n      \"name\": \"person\"\n    }\n  ]\n}\n";
    assert_eq!(text, expected);
}

#[test]
fn catalog_is_ordered_and_without_repetition() {
    let files = vec![
        SchemaFile {
            path: "b".to_string(),
            hash: "".to_string(),
            sql: "DEFINE TABLE person; DEFINE USER app;".to_string(),
        },
        SchemaFile {
            path: "a".to_string(),
            hash: "".to_string(),
            sql: "-- DEFINE TABLE hidden;\ndefine table IF NOT EXISTS person;\nDEFINE FIELD age ON TABLE person;\nDEFINE INDEX lonely;\nDEFINE WIDGET w;\nDEFINE ACCESS admin ON DATABASE".to_string(),
        },
    ];
    let catalog = build_catalog_snapshot(&files);
    assert_eq!(
        catalog.entities,
        vec![
            entity("access", Some("DATABASE"), "admin"),
            entity("field", Some("person"), "age"),
            entity("table", None, "person"),
            entity("user", None, "app"),
        ]
    );
}

#[test]
fn removed_entities_are_those_the_new_catalog_lacks() {
    let old = CatalogSnapshot {
        version: 1,
        entities: vec![
            entity("table", None, "person"),
            entity("field", Some("person"), "name"),
            entity("field", Some("person"), "age"),
            entity("field", Some("person"), "name"),
        ],
    };
    let new = CatalogSnapshot { version: 1, entities: vec![entity("table", None, "person")] };
    assert_eq!(
        removed_entities(&old, &new),
        vec![entity("field", Some("person"), "age"), entity("field", Some("person"), "name")]
    );
    assert!(removed_entities(&old, &old).is_empty());
}

#[test]
fn remove_statements_follow_the_kind() {
    let entities = vec![
        entity("table", None, "person"),
        entity("field", Some("person"), "name"),
        entity("event", Some("person"), "changed"),
        entity("index", Some("person"), "by_name"),
        entity("function", None, "fn::greet"),
        entity("param", None, "$env"),
        entity("access", Some("DATABASE"), "admin"),
        entity("access", None, "global"),
        entity("analyzer", None, "english"),
        entity("user", Some("DATABASE"), "app"),
        entity("user", None, "boss"),
        entity("widget", None, "ignored"),
        entity("api", None, "v1"),
    ];
    let sql = render_remove_sql(&entities, true).expect("every statement can be written");
    assert_eq!(
        sql,
        vec![
            "REMOVE TABLE person;",
            "REMOVE FIELD name ON person;",
            "REMOVE EVENT changed ON person;",
            "REMOVE INDEX by_name ON person;",
            "REMOVE FUNCTION fn::greet;",
            "REMOVE PARAM $env;",
            "REMOVE ACCESS admin ON DATABASE;",
            "REMOVE ACCESS global;",
            "REMOVE ANALYZER english;",
            "REMOVE USER app ON DATABASE;",
            "REMOVE USER boss;",
            "REMOVE API v1;",
        ]
    );
}

#[test]
fn remove_errors_say_what_is_wrong() {
    let api = render_remove_sql(&vec![entity("api", None, "v1")], false).unwrap_err();
    assert_eq!(api.kind, ErrorKind::Capability);
    assert_eq!(
        api.to_text(),
        "API removal requested for 'v1' but this SurrealDB server does not support `REMOVE API`. Use a manual migration or upgrade server support."
    );
    let field = render_remove_sql(&vec![entity("field", None, "name")], true).unwrap_err();
    assert_eq!(field.kind, ErrorKind::MissingScope);
    assert_eq!(field.to_text(), "cannot render REMOVE FIELD for 'name' because scope is missing");
}
