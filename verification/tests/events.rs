use observer::events::find_event;
use observer::events::get_event;
use observer::events::get_func;
use observer::events::get_rust_type;
use observer::events::get_table_name;
use observer::events::is_critical;
use observer::events::resulty_impl;
use observer::events::rewrite_block;
use observer::events::rewrite_statement;
use observer::events::rust_type_of;
use observer::events::storage_type;
use observer::events::validate;
use observer::events::Event;
use observer::events::EventTable;
use observer::events::Rewrite;
use observer::events::SchemaError;
use observer::events::Statement;

fn table() -> EventTable {
    EventTable {
        events: vec![
            (
                "create_policy".to_string(),
                Event {
                    critical: true,
                    fields: vec![
                        ("pid".to_string(), "INT".to_string()),
                        ("holder".to_string(), "String".to_string()),
                        ("when".to_string(), "timestamp".to_string()),
                    ],
                },
            ),
            ("ping".to_string(), Event { critical: false, fields: vec![] }),
            (
                "create_policy".to_string(),
                Event { critical: false, fields: vec![("pid".to_string(), "string".to_string())] },
            ),
        ],
    }
}

#[test]
fn storage_types_map_to_the_types_of_the_notes() {
    assert_eq!(get_rust_type("int".to_string()), "i32");
    assert_eq!(get_rust_type("INT".to_string()), "i32");
    assert_eq!(get_rust_type("Int".to_string()), "i32");
    assert_eq!(get_rust_type("string".to_string()), "string");
    assert_eq!(get_rust_type("String".to_string()), "string");
    assert_eq!(get_rust_type("float".to_string()), "string");
    assert_eq!(get_rust_type("".to_string()), "string");
    assert_eq!(get_rust_type("integer".to_string()), "string");
}

#[test]
fn rust_type_of_tells_case_apart() {
    assert_eq!(rust_type_of("int"), "i32");
    assert_eq!(rust_type_of("INT"), "string");
    assert_eq!(rust_type_of("i32"), "string");
}

#[test]
fn every_description_is_accepted_and_names_its_table() {
    assert!(validate("anything".to_string()));
    assert!(validate(String::new()));
    assert_eq!(get_table_name("create_policy".to_string()), "create_policy");
    assert_eq!(get_table_name(String::new()), "");
}

#[test]
fn events_are_found_by_name_and_the_first_counts() {
    let table = table();
    assert_eq!(get_event(&table, "ping"), &table.events[1].1);
    assert_eq!(get_event(&table, "create_policy"), &table.events[0].1);
    assert_eq!(find_event(&table, "ping"), Some(&table.events[1].1));
    assert_eq!(find_event(&table, "create_policy"), Some(&table.events[0].1));
    assert_eq!(find_event(&table, "none"), None);
    assert_eq!(is_critical(&table, "create_policy"), Ok(true));
    assert_eq!(is_critical(&table, "ping"), Ok(false));
    assert_eq!(is_critical(&table, "none"), Err(SchemaError::NoTable));
}

#[test]
fn fields_are_found_by_name() {
    let table = table();
    let event = &table.events[0].1;
    assert_eq!(storage_type(event, "pid"), Some(&"INT".to_string()));
    assert_eq!(storage_type(event, "holder"), Some(&"String".to_string()));
    assert_eq!(storage_type(event, "PID"), None);
}

#[test]
fn get_func_names_the_type_of_a_field() {
    let table = table();
    assert_eq!(get_func(&table, "pid".to_string(), "create_policy"), "i32");
    assert_eq!(get_func(&table, "holder".to_string(), "create_policy"), "string");
    assert_eq!(get_func(&table, "when".to_string(), "create_policy"), "string");
}

fn call(name: &str, args: usize, second: Option<&str>) -> Statement {
    Statement::Call { name: name.to_string(), args, second: second.map(|s| s.to_string()) }
}

#[test]
fn println_becomes_format() {
    let table = table();
    let println = Statement::Macro { name: "println".to_string() };
    assert_eq!(
        rewrite_statement(&println, &table, "ping"),
        Ok(Rewrite::Rename("format".to_string()))
    );
    let other = Statement::Macro { name: "vec".to_string() };
    assert_eq!(rewrite_statement(&other, &table, "ping"), Ok(Rewrite::Keep));
    assert_eq!(rewrite_statement(&println, &table, "no such table"), Ok(Rewrite::Rename("format".to_string())));
}

#[test]
fn observe_field_becomes_the_call_for_the_type_of_the_field() {
    let table = table();
    assert_eq!(
        rewrite_statement(&call("observe_field", 3, Some("pid")), &table, "create_policy"),
        Ok(Rewrite::Rename("observe_i32".to_string()))
    );
    assert_eq!(
        rewrite_statement(&call("observe_field", 3, Some("holder")), &table, "create_policy"),
        Ok(Rewrite::Rename("observe_string".to_string()))
    );
    assert_eq!(
        rewrite_statement(&call("observe_field", 2, None), &table, "create_policy"),
        Ok(Rewrite::Keep)
    );
    assert_eq!(
        rewrite_statement(&call("other_call", 0, Some("pid")), &table, "create_policy"),
        Ok(Rewrite::Keep)
    );
    assert_eq!(rewrite_statement(&Statement::Other, &table, "create_policy"), Ok(Rewrite::Keep));
}

#[test]
fn observe_field_that_cannot_be_rewritten_says_why() {
    let table = table();
    assert_eq!(
        rewrite_statement(&call("observe_field", 1, None), &table, "create_policy"),
        Err(SchemaError::NoFieldArgument)
    );
    assert_eq!(
        rewrite_statement(&call("observe_field", 0, Some("pid")), &table, "create_policy"),
        Err(SchemaError::NoFieldArgument)
    );
    assert_eq!(
        rewrite_statement(&call("observe_field", 2, Some("age")), &table, "create_policy"),
        Err(SchemaError::NoField)
    );
    assert_eq!(
        rewrite_statement(&call("observe_field", 2, Some("pid")), &table, "none"),
        Err(SchemaError::NoTable)
    );
}

#[test]
fn block_is_rewritten_statement_by_statement() {
    let table = table();
    let block = vec![
        Statement::Other,
        Statement::Macro { name: "println".to_string() },
        call("observe_field", 3, Some("pid")),
        call("helper", 1, None),
    ];
    assert_eq!(
        rewrite_block(&block, &table, "create_policy"),
        Ok(vec![
            Rewrite::Keep,
            Rewrite::Rename("format".to_string()),
            Rewrite::Rename("observe_i32".to_string()),
            Rewrite::Keep
        ])
    );
    assert_eq!(rewrite_block(&Vec::new(), &table, "none"), Ok(Vec::new()));
    let bad = vec![
        Statement::Other,
        call("observe_field", 2, Some("age")),
        call("observe_field", 0, None),
    ];
    assert_eq!(rewrite_block(&bad, &table, "create_policy"), Err(SchemaError::NoField));
}

#[test]
fn resulty_impl_leaves_the_quotes_out() {
    assert_eq!(resulty_impl("Policy"), "impl Resulty for Policy {}");
    assert_eq!(resulty_impl("\"Policy\""), "impl Resulty for Policy {}");
    assert_eq!(resulty_impl("a\"b\"c"), "impl Resulty for abc {}");
}
