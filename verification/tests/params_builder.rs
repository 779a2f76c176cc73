use fastcgi_client::decimal::decimal_string;
use fastcgi_client::Params;

fn pairs(params: Params) -> Vec<(String, String)> {
    params.into_pairs()
}

fn pair(k: &str, v: &str) -> (String, String) {
    (k.to_string(), v.to_string())
}

#[test]
fn new_parameters_are_empty() {
    let params = Params::new();
    assert!(params.is_empty());
    assert_eq!(params.len(), 0);
    assert_eq!(params.get("REQUEST_METHOD"), None);
    assert_eq!(pairs(params), vec![]);
}

#[test]
fn default_parameters() {
    let params = Params::default();
    assert_eq!(params.len(), 3);
    assert!(!params.is_empty());
    assert_eq!(params.get("GATEWAY_INTERFACE"), Some("FastCGI/1.0"));
    assert_eq!(params.get("SERVER_SOFTWARE"), Some("fastcgi-client-rs"));
    assert_eq!(params.get("SERVER_PROTOCOL"), Some("HTTP/1.1"));
    assert_eq!(
        pairs(params),
        vec![
            pair("GATEWAY_INTERFACE", "FastCGI/1.0"),
            pair("SERVER_SOFTWARE", "fastcgi-client-rs"),
            pair("SERVER_PROTOCOL", "HTTP/1.1"),
        ]
    );
}

#[test]
fn custom_adds_a_new_name_last() {
    let params = Params::new().custom("A", "1").custom("B", "2");
    assert_eq!(params.get("A"), Some("1"));
    assert_eq!(params.get("B"), Some("2"));
    assert_eq!(params.get("C"), None);
    assert_eq!(pairs(params), vec![pair("A", "1"), pair("B", "2")]);
}

#[test]
fn custom_overwrites_a_name_in_place() {
    let params = Params::new()
        .custom("A", "1")
        .custom("B", "2")
        .custom("C", "3")
        .custom("B", "two");
    assert_eq!(params.len(), 3);
    assert_eq!(params.get("B"), Some("two"));
    assert_eq!(
        pairs(params),
        vec![pair("A", "1"), pair("B", "two"), pair("C", "3")]
    );
}

#[test]
fn names_are_case_sensitive() {
    let params = Params::new().custom("key", "lower").custom("KEY", "upper");
    assert_eq!(params.len(), 2);
    assert_eq!(params.get("key"), Some("lower"));
    assert_eq!(params.get("KEY"), Some("upper"));
}

#[test]
fn each_builder_sets_its_name() {
    let params = Params::new()
        .gateway_interface("CGI/1.1")
        .server_software("srv/1")
        .server_protocol("HTTP/2")
        .request_method("POST")
        .script_filename("/var/www/post.php")
        .script_name("/post.php")
        .query_string("g1=1&g2=2")
        .request_uri("/post.php?g1=1&g2=2")
        .document_root("/var/www")
        .document_uri("/post.php")
        .remote_addr("127.0.0.1")
        .remote_port(12345)
        .server_addr("127.0.0.2")
        .server_port(80)
        .server_name("jmjoy-pc")
        .content_type("application/x-www-form-urlencoded")
        .content_length(131072);
    assert_eq!(
        pairs(params),
        vec![
            pair("GATEWAY_INTERFACE", "CGI/1.1"),
            pair("SERVER_SOFTWARE", "srv/1"),
            pair("SERVER_PROTOCOL", "HTTP/2"),
            pair("REQUEST_METHOD", "POST"),
            pair("SCRIPT_FILENAME", "/var/www/post.php"),
            pair("SCRIPT_NAME", "/post.php"),
            pair("QUERY_STRING", "g1=1&g2=2"),
            pair("REQUEST_URI", "/post.php?g1=1&g2=2"),
            pair("DOCUMENT_ROOT", "/var/www"),
            pair("DOCUMENT_URI", "/post.php"),
            pair("REMOTE_ADDR", "127.0.0.1"),
            pair("REMOTE_PORT", "12345"),
            pair("SERVER_ADDR", "127.0.0.2"),
            pair("SERVER_PORT", "80"),
            pair("SERVER_NAME", "jmjoy-pc"),
            pair("CONTENT_TYPE", "application/x-www-form-urlencoded"),
            pair("CONTENT_LENGTH", "131072"),
        ]
    );
}

#[test]
fn builders_overwrite_the_defaults() {
    let params = Params::default()
        .server_protocol("HTTP/1.0")
        .gateway_interface("CGI/1.1");
    assert_eq!(
        pairs(params),
        vec![
            pair("GATEWAY_INTERFACE", "CGI/1.1"),
            pair("SERVER_SOFTWARE", "fastcgi-client-rs"),
            pair("SERVER_PROTOCOL", "HTTP/1.0"),
        ]
    );
}

#[test]
fn ports_and_lengths_are_written_in_decimal() {
    let params = Params::new().remote_port(0).server_port(65535).content_length(0);
    assert_eq!(params.get("REMOTE_PORT"), Some("0"));
    assert_eq!(params.get("SERVER_PORT"), Some("65535"));
    assert_eq!(params.get("CONTENT_LENGTH"), Some("0"));
    let params = params.content_length(usize::MAX);
    assert_eq!(params.get("CONTENT_LENGTH"), Some(usize::MAX.to_string().as_str()));
}

#[test]
fn decimal_notation() {
    assert_eq!(decimal_string(0), "0");
    assert_eq!(decimal_string(7), "7");
    assert_eq!(decimal_string(9), "9");
    assert_eq!(decimal_string(10), "10");
    assert_eq!(decimal_string(42), "42");
    assert_eq!(decimal_string(100), "100");
    assert_eq!(decimal_string(1234567890), "1234567890");
    assert_eq!(decimal_string(u64::MAX), "18446744073709551615");
    for n in [0u64, 1, 9, 10, 11, 99, 100, 101, 999, 1000, 65535, 65536, 4294967295] {
        assert_eq!(decimal_string(n), n.to_string());
    }
}

#[test]
fn empty_names_and_values_are_kept() {
    let params = Params::new().custom("", "").query_string("");
    assert_eq!(params.get(""), Some(""));
    assert_eq!(params.get("QUERY_STRING"), Some(""));
    assert_eq!(params.len(), 2);
}

#[test]
fn parameters_are_equal_as_mappings() {
    let a = Params::new().custom("A", "1").custom("B", "2");
    let b = Params::new().custom("B", "2").custom("A", "1");
    assert!(a == b);
    assert!(b == a);
    assert!(a == a.clone());
    assert!(Params::new() == Params::new());
    assert!(Params::default() == Params::default());

    let longer = Params::new().custom("A", "1").custom("B", "2").custom("C", "3");
    assert!(a != longer);
    assert!(longer != a);
    let other_value = Params::new().custom("A", "1").custom("B", "3");
    assert!(a != other_value);
    let other_name = Params::new().custom("A", "1").custom("b", "2");
    assert!(a != other_name);
    assert!(Params::new() != a);
    assert!(a != Params::new());
}

#[test]
fn cloned_parameters_keep_their_order() {
    let params = Params::default().custom("Z", "26").custom("A", "1");
    let copy = params.clone();
    assert_eq!(copy.len(), 5);
    assert_eq!(copy.into_pairs(), params.into_pairs());
}
