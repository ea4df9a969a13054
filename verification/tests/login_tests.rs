use base64::Engine;
use cbc::cipher::{block_padding::Pkcs7, BlockModeEncrypt, KeyIvInit};
use cczuni::client::{Account, Property};
use cczuni::login::{
    build_login_form, classify_entry_status, login_available_decision, parse_hidden_values,
    redirect_step, service_login_url, sso_redirect_url, LoginError, RedirectStep, Session,
    SetCookie,
};
use cczuni::sso_type::SSOLoginConnectType;

#[test]
fn entry_status_classification() {
    assert!(matches!(
        classify_entry_status(200),
        Ok(SSOLoginConnectType::COMMON)
    ));
    assert!(matches!(
        classify_entry_status(302),
        Ok(SSOLoginConnectType::WEBVPN)
    ));
    assert!(matches!(
        classify_entry_status(500),
        Err(LoginError::LoginUnavailable)
    ));
    assert!(matches!(
        classify_entry_status(404),
        Err(LoginError::LoginUnavailable)
    ));
}

#[test]
fn redirect_walker_decisions() {
    assert!(matches!(
        redirect_step(200, None, 0, 20),
        RedirectStep::Terminal
    ));
    match redirect_step(302, Some("http://a/b".to_string()), 3, 20) {
        RedirectStep::Follow(l) => assert_eq!(l, "http://a/b"),
        _ => panic!("expected a follow"),
    }
    assert!(matches!(
        redirect_step(302, Some("x".to_string()), 20, 20),
        RedirectStep::Fail(LoginError::TooManyRedirects)
    ));
    assert!(matches!(
        redirect_step(302, None, 0, 20),
        RedirectStep::Fail(LoginError::ProtocolViolation)
    ));
}

#[test]
fn login_form_encodes_password() {
    let hidden = parse_hidden_values(
        r#"<html><body><form>
            <input type="hidden" name="lt" value="LT-123"/>
            <input type="hidden" name="execution" value="e1s1"/>
            <input type="text" name="visible" value="skip"/>
        </form></body></html>"#,
    )
    .unwrap();
    let account = Account::new("student".to_string(), "pass".to_string());
    let form = build_login_form(&hidden, &account);
    let pairs: Vec<(String, String)> =
        form.iter().map(|f| (f.name.clone(), f.value.clone())).collect();
    assert_eq!(
        pairs,
        vec![
            ("lt".to_string(), "LT-123".to_string()),
            ("execution".to_string(), "e1s1".to_string()),
            ("username".to_string(), "student".to_string()),
            // base64 of the raw password, the portal's wire convention
            ("password".to_string(), "cGFzcw==".to_string()),
        ]
    );
}

#[test]
fn hidden_input_without_value_is_rejected() {
    let r = parse_hidden_values(r#"<form><input type="hidden" name="lt"/></form>"#);
    assert!(r.is_none());
}

#[test]
fn tunneled_login_decodes_identity_token() {
    let account = Account::new("u".to_string(), "p".to_string());
    let mut session = Session::new(account);
    let json = r#"{"username":"stu","sid":"s-1","userId":"id-9","loginKey":"k-7"}"#;
    let blob = base64::prelude::BASE64_STANDARD.encode(json.as_bytes());
    let observed = vec![
        SetCookie { name: "JSESSIONID".to_string(), value: "abc".to_string() },
        SetCookie { name: "clientInfo".to_string(), value: blob },
    ];
    let info = session
        .finish_login(SSOLoginConnectType::WEBVPN, &observed)
        .unwrap()
        .unwrap();
    assert_eq!(info.username, "stu");
    assert_eq!(info.sid, "s-1");
    assert_eq!(info.userid, "id-9");
    assert_eq!(info.loginkey, "k-7");
    // the cookies are now scoped to the tunnel origin
    let vpn = "https://zmvpn.cczu.edu.cn".to_string();
    assert!(session.jar.has_cookie_for(&vpn));
}

#[test]
fn tunneled_login_without_token_cookie_fails() {
    let mut session = Session::new(Account::new("u".to_string(), "p".to_string()));
    let observed = vec![SetCookie { name: "JSESSIONID".to_string(), value: "abc".to_string() }];
    let r = session.finish_login(SSOLoginConnectType::WEBVPN, &observed);
    assert!(matches!(r, Err(LoginError::ProtocolViolation)));
}

#[test]
fn direct_login_returns_no_token() {
    let mut session = Session::new(Account::new("u".to_string(), "p".to_string()));
    let observed = vec![SetCookie { name: "CASTGC".to_string(), value: "tgt".to_string() }];
    let r = session.finish_login(SSOLoginConnectType::COMMON, &observed).unwrap();
    assert!(r.is_none());
    let sso = "http://sso.cczu.edu.cn".to_string();
    assert!(session.jar.has_cookie_for(&sso));
}

#[test]
fn login_with_no_cookies_at_all_is_never_success() {
    let mut session = Session::new(Account::new("u".to_string(), "p".to_string()));
    let r = session.finish_login(SSOLoginConnectType::COMMON, &Vec::new());
    assert!(matches!(r, Err(LoginError::ProtocolViolation)));
}

#[test]
fn rescope_is_idempotent_on_the_jar() {
    let mut session = Session::new(Account::new("u".to_string(), "p".to_string()));
    let from = "http://sso.cczu.edu.cn".to_string();
    let to = "https://zmvpn.cczu.edu.cn".to_string();
    session.jar.set_cookie(from.clone(), "a".to_string(), "1".to_string());
    session.jar.set_cookie(from.clone(), "b".to_string(), "2".to_string());
    session.jar.set_cookie(to.clone(), "a".to_string(), "stale".to_string());
    session.jar.rescope(&from, &to);
    let once: Vec<(String, String)> = session
        .jar
        .cookies_for(&to)
        .iter()
        .map(|c| (c.name.clone(), c.value.clone()))
        .collect();
    assert_eq!(
        once,
        vec![("a".to_string(), "1".to_string()), ("b".to_string(), "2".to_string())]
    );
    session.jar.rescope(&from, &to);
    let twice: Vec<(String, String)> = session
        .jar
        .cookies_for(&to)
        .iter()
        .map(|c| (c.name.clone(), c.value.clone()))
        .collect();
    assert_eq!(once, twice);
    // the source origin keeps its cookies: a copy, not a move
    assert_eq!(session.jar.cookies_for(&from).len(), 2);
}

#[test]
fn tunnel_url_rewrite_table() {
    let t = SSOLoginConnectType::WEBVPN;
    assert_eq!(
        sso_redirect_url(&t, "http://219.230.159.132".to_string()),
        "https://zmvpn.cczu.edu.cn/http/webvpndc2d086cb5b297c15e661687e73c1549"
    );
    assert_eq!(
        sso_redirect_url(&t, "http://other.example".to_string()),
        "http://other.example"
    );
    let c = SSOLoginConnectType::COMMON;
    assert_eq!(
        sso_redirect_url(&c, "http://219.230.159.132".to_string()),
        "http://219.230.159.132"
    );
}

#[test]
fn service_url_building() {
    assert_eq!(
        service_login_url("https://x.example/app"),
        "http://sso.cczu.edu.cn/sso/login?service=https://x.example/app"
    );
}

#[test]
fn availability_decision() {
    assert!(!login_available_decision(200, None));
    assert!(!login_available_decision(302, None));
    let back_to_login = "http://sso.cczu.edu.cn/sso/login?service=x".to_string();
    assert!(!login_available_decision(302, Some(&back_to_login)));
    let app = "http://ywtb.cczu.edu.cn/pc/index.html".to_string();
    assert!(login_available_decision(302, Some(&app)));
    assert!(!login_available_decision(500, None));
}

#[test]
fn write_once_connect_type() {
    let mut session = Session::new(Account::new("u".to_string(), "p".to_string()));
    assert!(session.connect_type.is_none());
    session.write_connect_type(SSOLoginConnectType::COMMON);
    assert!(matches!(session.connect_type, Some(SSOLoginConnectType::COMMON)));
}

#[test]
fn property_getters() {
    let p = Property::I32(7);
    assert_eq!(p.get_i32(), Some(7));
    assert_eq!(p.get_i32_unwrap(), 7);
    assert!(p.get_bool().is_none());
    assert!(p.get_string().is_none());
    let s = Property::String("x".to_string());
    assert_eq!(s.get_string_unwrap(), "x");
    let b = Property::Bool(true);
    assert!(b.get_bool_unwrap());
    let st = Property::Str("y");
    assert_eq!(st.get_str_unwrap(), "y");
    assert_eq!(SSOLoginConnectType::key(), "login-connect-type");
}

#[test]
fn webvpn_form_encrypts_the_password() {
    let account = Account::new("stu".to_string(), "secret".to_string());
    let token: Vec<u8> = b"abcdefghijklmnop".to_vec();
    let form = cczuni::login::build_webvpn_form(&account, &token).unwrap();
    let pairs: Vec<(String, String)> =
        form.into_iter().map(|f| (f.name, f.value)).collect();
    assert_eq!(pairs[0], ("username".to_string(), "stu".to_string()));
    // the key is the reversed token; the IV is the token itself
    let key: Vec<u8> = token.iter().rev().cloned().collect();
    let encryptor =
        cbc::Encryptor::<aes::Aes128Enc>::new_from_slices(&key, &token).unwrap();
    let mut buffer = vec![0u8; 6 + 16];
    buffer[..6].copy_from_slice(b"secret");
    let ciphertext = encryptor.encrypt_padded::<Pkcs7>(&mut buffer, 6).unwrap();
    let expected = base64::prelude::BASE64_STANDARD.encode(ciphertext);
    assert_eq!(pairs[1], ("password".to_string(), expected));
    assert_eq!(pairs[2], ("token".to_string(), "ponmlkjihgfedcba".to_string()));
    assert_eq!(pairs[3].0, "language");
    // a 15-byte token is rejected
    assert!(cczuni::login::build_webvpn_form(&account, &token[..15].to_vec()).is_none());
}

#[test]
fn cookie_header_joins_the_origin_cookies() {
    let mut session = Session::new(Account::new("u".to_string(), "p".to_string()));
    let origin = "http://sso.cczu.edu.cn".to_string();
    assert_eq!(session.jar.cookie_header(&origin), "");
    session.jar.set_cookie(origin.clone(), "a".to_string(), "1".to_string());
    assert_eq!(session.jar.cookie_header(&origin), "a=1");
    session.jar.set_cookie(origin.clone(), "b".to_string(), "2".to_string());
    session.jar.set_cookie("http://other".to_string(), "c".to_string(), "3".to_string());
    assert_eq!(session.jar.cookie_header(&origin), "a=1; b=2");
}

#[test]
fn repeated_hidden_names_keep_the_last_value() {
    let hidden = parse_hidden_values(
        r#"<form>
            <input type="hidden" name="lt" value="stale"/>
            <input type="hidden" name="execution" value="e1s1"/>
            <input type="hidden" name="lt" value="fresh"/>
        </form>"#,
    )
    .unwrap();
    let account = Account::new("u".to_string(), "p".to_string());
    let form = build_login_form(&hidden, &account);
    let pairs: Vec<(String, String)> =
        form.iter().map(|f| (f.name.clone(), f.value.clone())).collect();
    assert_eq!(
        pairs,
        vec![
            ("execution".to_string(), "e1s1".to_string()),
            ("lt".to_string(), "fresh".to_string()),
            ("username".to_string(), "u".to_string()),
            ("password".to_string(), "cA==".to_string()),
        ]
    );
}
