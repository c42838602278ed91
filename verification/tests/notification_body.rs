use varde::notifications::body::split_body;

#[test]
fn cuts_the_body_where_the_row_ends() {
    assert_eq!(
        split_body("first line  second", 11),
        ("first line".to_string(), "second".to_string())
    );
    assert_eq!(
        split_body("héllo wörld", 7),
        ("héllo".to_string(), "wörld".to_string())
    );
    assert_eq!(split_body("short", 5), ("short".to_string(), String::new()));
    assert_eq!(split_body("  lead", 0), (String::new(), "lead".to_string()));
}
