use trickle_select::onramp::{Config, OnrampError, Tcp, Tokens};

#[test]
fn tcp_needs_config() {
    assert!(matches!(Tcp::from_config(None), Err(OnrampError::MissingConfig)));
    let tcp = Tcp::from_config(Some(Config { port: 4242, host: "localhost".to_string() })).unwrap();
    assert_eq!(tcp.config.port, 4242);
    assert_eq!(tcp.config.host, "localhost");
    assert_eq!(tcp.default_codec(), "json");
}

#[test]
fn tokens_are_reused_last_returned_first() {
    let mut tokens = Tokens::new();
    assert!(tokens.is_in_use(0));
    assert_eq!(tokens.take(), 1);
    assert_eq!(tokens.take(), 2);
    assert_eq!(tokens.take(), 3);
    tokens.release(1);
    tokens.release(3);
    assert!(!tokens.is_in_use(3));
    assert_eq!(tokens.take(), 3);
    assert_eq!(tokens.take(), 1);
    assert_eq!(tokens.take(), 4);
    assert!(tokens.is_in_use(4));
}
