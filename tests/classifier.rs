use bore_gui::{classify, decimal_string, Role};

#[test]
fn listening_line_gives_port() {
    assert_eq!(classify(Role::Client, "listening at 127.0.0.1:41230"), Some(41230));
}

#[test]
fn remote_port_line_gives_port() {
    assert_eq!(classify(Role::Client, "connected to server remote_port=9000 foo"), Some(9000));
}

#[test]
fn plain_line_gives_nothing() {
    assert_eq!(classify(Role::Client, "starting up"), None);
}

#[test]
fn listening_takes_text_after_last_colon_trimmed() {
    assert_eq!(classify(Role::Client, "listening at example.com:41230"), Some(41230));
    assert_eq!(classify(Role::Client, "listening at host:7000:  8081 \t"), Some(8081));
}

#[test]
fn listening_without_number_gives_nothing() {
    assert_eq!(classify(Role::Client, "listening at example.com:abc"), None);
    assert_eq!(classify(Role::Client, "listening at example.com"), None);
    assert_eq!(classify(Role::Client, "listening at example.com:"), None);
}

#[test]
fn either_pattern_may_give_the_port() {
    assert_eq!(classify(Role::Client, "listening at x remote_port=9000"), Some(9000));
    assert_eq!(classify(Role::Client, "listening at h:81 remote_port=9000"), Some(9000));
    assert_eq!(classify(Role::Client, "listening at h:81 remote_port=9000 x:82"), Some(82));
}

#[test]
fn port_out_of_range_gives_nothing() {
    assert_eq!(classify(Role::Client, "listening at h:65536"), None);
    assert_eq!(classify(Role::Client, "listening at h:65535"), Some(65535));
    assert_eq!(classify(Role::Client, "remote_port=99999999999 x"), None);
}

#[test]
fn sign_and_leading_zeros() {
    assert_eq!(classify(Role::Client, "listening at h:+80"), Some(80));
    assert_eq!(classify(Role::Client, "listening at h:-80"), None);
    assert_eq!(classify(Role::Client, "listening at h:+"), None);
    assert_eq!(classify(Role::Client, "remote_port=0080"), Some(80));
}

#[test]
fn remote_port_token_rules() {
    assert_eq!(classify(Role::Client, "remote_port=1234\trest"), Some(1234));
    assert_eq!(classify(Role::Client, "remote_port=  1234 rest"), None);
    assert_eq!(classify(Role::Client, "remote_port=   "), None);
    assert_eq!(classify(Role::Client, "remote_port=12x4"), None);
    assert_eq!(classify(Role::Client, "remote_port=1 remote_port=2"), Some(2));
}

#[test]
fn server_output_is_never_classified() {
    assert_eq!(classify(Role::Server, "listening at 127.0.0.1:41230"), None);
    assert_eq!(classify(Role::Server, "remote_port=9000"), None);
}

#[test]
fn decimal_text() {
    assert_eq!(decimal_string(0), "0");
    assert_eq!(decimal_string(7), "7");
    assert_eq!(decimal_string(8080), "8080");
    assert_eq!(decimal_string(65535), "65535");
}
