use exchange::config::{Config, ConfigFile, Launch, Span};
use exchange::error::{Error, Expected};
use exchange::route::Route;
use exchange::uri::Uri;

fn file() -> ConfigFile {
    ConfigFile {
        routes: Vec::new(),
        port: 8080,
        max_body_bytes: None,
        connection_pool_size: None,
        gateway_expectation: None,
        gateway_timeout: None,
    }
}

fn secs(span: Span) -> (u64, u32) {
    (span.secs, span.nanos)
}

#[test]
fn defaults() {
    assert_eq!(Config::default_max_body(), 1048576);
    assert_eq!(Config::default_pool_size(8), 16);
    assert_eq!(secs(Config::default_timeout()), (5, 0));
    assert_eq!(secs(Config::default_expectation()), (1, 0));
}

#[test]
fn missing_settings_are_filled_in() {
    let config = Config::from_file(file(), 4);
    assert_eq!(config.port, 8080);
    assert_eq!(config.max_body_bytes, 1048576);
    assert_eq!(config.connection_pool_size, 8);
    assert_eq!(secs(config.gateway_expectation), (1, 0));
    assert_eq!(secs(config.gateway_timeout), (5, 0));
}

#[test]
fn given_settings_are_kept() {
    let config = Config::from_file(
        ConfigFile {
            max_body_bytes: Some(2097152),
            connection_pool_size: Some(3),
            gateway_expectation: Some(Span { secs: 2, nanos: 7 }),
            gateway_timeout: Some(Span { secs: 10, nanos: 0 }),
            ..file()
        },
        usize::MAX,
    );
    assert_eq!(config.max_body_bytes, 2097152);
    assert_eq!(config.connection_pool_size, 3);
    assert_eq!(secs(config.gateway_expectation), (2, 7));
    assert_eq!(secs(config.gateway_timeout), (10, 0));
}

#[test]
fn launch_follows_the_configuration() {
    let mut config = Config::from_file(file(), 1);
    config.routes.push(Route {
        pattern: Uri::parse("/a").unwrap(),
        target: Uri::parse("http://h").unwrap(),
        wildcard: true,
    });
    config.gateway_timeout = Span { secs: 7, nanos: 5 };
    let launch = Launch::new(config);
    assert_eq!(launch.client.pool_max_idle_per_host, 2);
    assert_eq!(secs(launch.client.pool_idle_timeout), (90, 0));
    assert_eq!(secs(launch.client.timeout), (7, 5));
    assert_eq!(secs(launch.client.tcp_keepalive), (60, 0));
    assert!(launch.client.http2_adaptive_window);
    assert_eq!(launch.proxy.routes.len(), 1);
    assert_eq!(launch.proxy.max_body_bytes, 1048576);
    assert_eq!(secs(launch.proxy.gateway_timeout), (7, 5));
    assert_eq!(secs(launch.proxy.gateway_expectation), (1, 0));
    assert_eq!(launch.address, "0.0.0.0:8080");
    assert_eq!(
        launch.greeting,
        "\nProxy server running on http://0.0.0.0:8080\nPress Ctrl+C to stop\n"
    );
}

#[test]
fn addresses_name_the_port_in_decimal() {
    for port in [0, 7, 10, 100, 9999, 65535] {
        let config = Config::from_file(ConfigFile { port, ..file() }, 1);
        assert_eq!(Launch::new(config).address, format!("0.0.0.0:{port}"));
    }
}

#[test]
fn error_messages() {
    let error = Error::custom("no such field".to_string());
    assert!(matches!(&error, Error::General(text) if text == "no such field"));
    assert_eq!(error.message(), "General serde error: no such field");
    assert_eq!(Expected::Uri.name(), "Uri");
    assert_eq!(
        Error::Expected(Expected::Uri).message(),
        "Expected Uri but data was not compatible"
    );
}
