use flight_dispatcher::federated::ClickHouseFederated;

#[test]
fn test_get_format_finds_trailing_clause() {
    assert_eq!(
        ClickHouseFederated::get_format("SELECT 1 FORMAT JSON"),
        Some("JSON".to_string())
    );
    assert_eq!(
        ClickHouseFederated::get_format("select version() format TabSeparated;"),
        Some("TabSeparated".to_string())
    );
}

#[test]
fn test_get_format_is_case_insensitive() {
    assert_eq!(
        ClickHouseFederated::get_format("select 1 format csv"),
        Some("csv".to_string())
    );
}

#[test]
fn test_get_format_none_without_clause() {
    assert_eq!(ClickHouseFederated::get_format("SELECT 1"), None);
}
