use bolt_hedger::util::okx_auth::OkxAuth;
use bolt_hedger::util::time_util::Utils;

#[test]
fn login_request_is_signed_with_the_secret() {
    let auth = OkxAuth::new("key-1", "secret", "phrase");
    let p = auth.login_params_at(1_700_000_000);
    assert_eq!(p.op, "login");
    assert_eq!(p.args.len(), 1);
    assert_eq!(p.args[0].apiKey, "key-1");
    assert_eq!(p.args[0].passphrase, "phrase");
    assert_eq!(p.args[0].timestamp, "1700000000");
    assert_eq!(p.args[0].sign, "lhmJXK08fk9SI1ZwFXKFRrPtzfbNOwC+D1xMJJ/1KZg=");
}

#[test]
fn login_request_for_now_is_well_formed() {
    let auth = OkxAuth::new("k", "s", "p");
    let p = auth.okx_login_params();
    assert_eq!(p.op, "login");
    assert_eq!(p.args[0].sign.len(), 44);
    let ts: u64 = p.args[0].timestamp.parse().unwrap();
    assert!(ts > 1_600_000_000);
}

#[test]
fn clock_readings_agree() {
    let s = Utils::get_current_timestamp();
    let ms = Utils::get_current_timestamp_ms();
    assert!(s > 1_600_000_000);
    assert!(ms / 1000 >= s as u128);
    assert!(OkxAuth::get_local_timestamp() >= s);
}

#[test]
fn upper_case() {
    assert_eq!(Utils::to_uppercase("btcusdt"), "BTCUSDT");
    assert_eq!(Utils::to_uppercase("Btc-Usdt_1"), "BTC-USDT_1");
    assert_eq!(Utils::to_uppercase("straße"), "STRASSE");
}

#[test]
fn clock_readings_convert_to_seconds_and_milliseconds() {
    assert_eq!(Utils::seconds_of(Some((1_700_000_000, 999_999_999))), 1_700_000_000);
    assert_eq!(Utils::millis_of(Some((1_700_000_000, 999_999_999))), 1_700_000_000_999);
    assert_eq!(Utils::millis_of(Some((2, 1_500_000))), 2_001);
    assert_eq!(Utils::seconds_of(None), 0);
    assert_eq!(Utils::millis_of(None), 0);
}
