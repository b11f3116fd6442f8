use bis::config::{get_configuration, ConfigError};
use bis::digits::i32_to_string;
use bis::docs::{ApiDoc, HttpMethod};
use bis::error::ApiError;

#[test]
fn numbers_render_in_decimal() {
    assert_eq!(i32_to_string(0), "0");
    assert_eq!(i32_to_string(7), "7");
    assert_eq!(i32_to_string(42), "42");
    assert_eq!(i32_to_string(-12), "-12");
    assert_eq!(i32_to_string(2147483647), "2147483647");
    assert_eq!(i32_to_string(-2147483648), "-2147483648");
}

#[test]
fn configuration_accepts_host_and_port() {
    let c = get_configuration("127.0.0.1".to_string(), "8080").expect("valid");
    assert_eq!(c.host, "127.0.0.1");
    assert_eq!(c.port, 8080);
}

#[test]
fn configuration_accepts_extreme_ports() {
    assert_eq!(get_configuration("h".to_string(), "0").expect("valid").port, 0);
    assert_eq!(get_configuration("h".to_string(), "65535").expect("valid").port, 65535);
    assert_eq!(get_configuration("h".to_string(), "08080").expect("valid").port, 8080);
}

#[test]
fn configuration_rejects_missing_or_malformed_settings() {
    let rejected = [
        ("", "8080"),
        ("h", ""),
        ("h", "80a0"),
        ("h", "65536"),
        ("h", "-1"),
    ];
    for (host, port) in rejected {
        let r = get_configuration(host.to_string(), port);
        assert!(matches!(r, Err(ConfigError::InvalidConfiguration)));
    }
}

#[test]
fn api_doc_lists_the_five_operations() {
    let ops = ApiDoc::operations();
    assert_eq!(ops.len(), 5);
    assert_eq!(ops[0].method, HttpMethod::Get);
    assert_eq!(ops[0].path, "/bis");
    assert_eq!(ops[1].method, HttpMethod::Get);
    assert_eq!(ops[1].path, "/bis/{book_id}");
    assert_eq!(ops[2].method, HttpMethod::Post);
    assert_eq!(ops[2].path, "/bis");
    assert_eq!(ops[3].method, HttpMethod::Put);
    assert_eq!(ops[3].path, "/bis");
    assert_eq!(ops[4].method, HttpMethod::Delete);
    assert_eq!(ops[4].path, "/bis");
}

#[test]
fn api_doc_lists_the_four_schemas() {
    let schemas = ApiDoc::schemas();
    assert_eq!(schemas, vec!["Book", "NewBook", "Id", "ListIds"]);
}

#[test]
fn sample_error_maps_to_opaque_500() {
    let e = ApiError::CustomOne;
    assert_eq!(e.status_code(), 500);
    assert_eq!(e.error_response(), "");
}
