use sentinel::config::Config;
use sentinel::messenger::{tag_all, tag_message, u32_dec};

#[test]
fn tags_with_run_identifier() {
    assert_eq!(tag_message("4242", "Started"), "`4242`: Started");
}

#[test]
fn decimal_rendering() {
    assert_eq!(u32_dec(0), "0");
    assert_eq!(u32_dec(7), "7");
    assert_eq!(u32_dec(10), "10");
    assert_eq!(u32_dec(90210), "90210");
    assert_eq!(u32_dec(u32::MAX), "4294967295");
}

#[test]
fn delivery_order_equals_submission_order() {
    let texts = vec![String::from("one"), String::from("two"), String::from("three")];
    let out = tag_all("1", &texts);
    assert_eq!(out, vec!["`1`: one", "`1`: two", "`1`: three"]);
}

#[test]
fn config_holds_token_and_name() {
    let c = Config::new(String::from("example-token"), String::from("alice"));
    assert_eq!(c.slack_token, "example-token");
    assert_eq!(c.user_name, "alice");
}
