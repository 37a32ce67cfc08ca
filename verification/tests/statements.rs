use surrealkit::catalog::{clean_ident, find_token, parse_define_entity, skip_modifiers};
use surrealkit::schema_state::EntityKey;
use surrealkit::statements::{split_statements, strip_line_comments, tokenize};

fn entity(kind: &str, scope: Option<&str>, name: &str) -> EntityKey {
    EntityKey { kind: kind.to_string(), scope: scope.map(|s| s.to_string()), name: name.to_string() }
}

fn strings(v: &[&str]) -> Vec<String> {
    v.iter().map(|s| s.to_string()).collect()
}

#[test]
fn comment_lines_are_dropped_and_inline_comments_stay() {
    let sql = "-- first\nDEFINE TABLE a; -- stays\n   // second\n\t-- third\nDEFINE TABLE b;\n";
    assert_eq!(strip_line_comments(sql), "DEFINE TABLE a; -- stays\nDEFINE TABLE b;");
    assert_eq!(strip_line_comments(""), "");
    assert_eq!(strip_line_comments("-- only"), "");
    assert_eq!(strip_line_comments("a\r\n--b\r\nc"), "a\nc");
    assert_eq!(strip_line_comments("- not\n/ not"), "- not\n/ not");
}

#[test]
fn statements_are_cut_at_semicolons_outside_quotes() {
    assert_eq!(split_statements("a; b ;c"), vec!["a", "b", "c"]);
    assert_eq!(split_statements("a 'x;y'; b"), vec!["a 'x;y'", "b"]);
    assert_eq!(split_statements("a \"x;y\"; b"), vec!["a \"x;y\"", "b"]);
    assert_eq!(split_statements("a `x;y`; b"), vec!["a `x;y`", "b"]);
    assert_eq!(split_statements(";; ;"), Vec::<String>::new());
    assert_eq!(split_statements(""), Vec::<String>::new());
    assert_eq!(split_statements("  tail  "), vec!["tail"]);
}

#[test]
fn escaped_quotes_do_not_end_a_quote() {
    assert_eq!(split_statements("a 'x\\';y'; b"), vec!["a 'x\\';y'", "b"]);
    assert_eq!(split_statements("a 'x\\\\'; b"), vec!["a 'x\\\\'", "b"]);
    assert_eq!(split_statements("a \"it's; fine\"; b"), vec!["a \"it's; fine\"", "b"]);
    assert_eq!(split_statements("a 'open; b"), vec!["a 'open; b"]);
}

#[test]
fn a_statement_is_cut_into_words() {
    assert_eq!(tokenize("DEFINE  TABLE\n person"), vec!["DEFINE", "TABLE", "person"]);
    assert!(tokenize("").is_empty());
}

#[test]
fn identifiers_lose_punctuation_and_arguments() {
    assert_eq!(clean_ident("person;"), "person");
    assert_eq!(clean_ident("fn::greet($name:"), "fn::greet");
    assert_eq!(clean_ident("(x)"), "x");
    assert_eq!(clean_ident("{a(b)}"), "a");
    assert_eq!(clean_ident(",;"), "");
    assert_eq!(clean_ident("plain"), "plain");
}

#[test]
fn modifiers_are_passed_over() {
    let tokens = strings(&["DEFINE", "TABLE", "if", "NOT", "exists", "person"]);
    assert_eq!(skip_modifiers(&tokens, 2), 5);
    assert_eq!(skip_modifiers(&tokens, 5), 5);
    assert_eq!(skip_modifiers(&strings(&["OVERWRITE", "IF"]), 0), 2);
    assert_eq!(skip_modifiers(&tokens, 9), 9);
}

#[test]
fn tokens_are_found_whatever_their_case() {
    let tokens = strings(&["DEFINE", "FIELD", "on", "ON", "person"]);
    assert_eq!(find_token(&tokens, 0, "ON"), Some(2));
    assert_eq!(find_token(&tokens, 3, "on"), Some(3));
    assert_eq!(find_token(&tokens, 4, "ON"), None);
    assert_eq!(find_token(&tokens, 7, "ON"), None);
}

#[test]
fn define_statements_give_entities() {
    assert_eq!(
        parse_define_entity("DEFINE TABLE OVERWRITE person SCHEMAFULL"),
        Some(entity("table", None, "person"))
    );
    assert_eq!(
        parse_define_entity("DEFINE FIELD OVERWRITE name ON person TYPE string"),
        Some(entity("field", Some("person"), "name"))
    );
    assert_eq!(
        parse_define_entity("define index by_name on table person fields name"),
        Some(entity("index", Some("person"), "by_name"))
    );
    assert_eq!(
        parse_define_entity("DEFINE EVENT changed ON person WHEN true THEN ()"),
        Some(entity("event", Some("person"), "changed"))
    );
    assert_eq!(
        parse_define_entity("DEFINE FUNCTION fn::greet($name: string) { RETURN $name; }"),
        Some(entity("function", None, "fn::greet"))
    );
    assert_eq!(
        parse_define_entity("DEFINE ACCESS admin ON DATABASE TYPE RECORD"),
        Some(entity("access", Some("DATABASE"), "admin"))
    );
    assert_eq!(parse_define_entity("DEFINE USER app PASSHASH x"), Some(entity("user", None, "app")));
    assert_eq!(parse_define_entity("DEFINE USER app ON"), Some(entity("user", None, "app")));
    assert_eq!(parse_define_entity("DEFINE API v1;"), Some(entity("api", None, "v1")));
}

#[test]
fn other_statements_give_nothing() {
    assert_eq!(parse_define_entity("DEFINE FIELD name TYPE string"), None);
    assert_eq!(parse_define_entity("DEFINE FIELD name ON"), None);
    assert_eq!(parse_define_entity("DEFINE FIELD name ON TABLE"), None);
    assert_eq!(parse_define_entity("DEFINE TABLE"), None);
    assert_eq!(parse_define_entity("DEFINE TABLE IF NOT EXISTS"), None);
    assert_eq!(parse_define_entity("DEFINE WIDGET w x"), None);
    assert_eq!(parse_define_entity("REMOVE TABLE person now"), None);
    assert_eq!(parse_define_entity(""), None);
}
