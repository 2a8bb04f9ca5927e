use amstock::auth::{
    config_error, parse_bool, AuthEnv, AuthState, LoginRequest, SessionStore,
};
use amstock::cli::{Args, ArgsOutcome, PrinterEnv, DEFAULT_TIMEOUT_BITS};
use amstock::error::ErrorKind;
use amstock::models::{
    CreateElement, DeleteMode, DeleteRequest, Element, ElementView, SearchQuery, UpdateElement,
};
use amstock::printing::{failure_message, payload, LabelStyle, PrintConfig, PrintMode};
use amstock::routes::{
    build_element_lookup, build_tree, check_image_upload, check_parent, check_printable,
    image_file_name, mapping_name, restored_parent,
    search_terms, upload_file_name, ParentRow,
};
use amstock::text::{decimal_string, hex_string, parse_unsigned_text, trimmed, zero_padded_string};
use amstock::validation::{normalized_tag_a, quantity_is_acceptable, validate_element};
use amstock::workflow::{
    Creation, CreationAction, CreationEvent, EditAction, EditEvent, Editing, Removal, RemovalAction,
    RemovalEvent,
};
use std::collections::HashMap;
use argon2::{Argon2, PasswordHash, PasswordVerifier};

fn element(serial: i64, tag_a: &str, tag_b: i64, tag_c: i64, parent: Option<i64>) -> Element {
    Element {
        serial,
        kind: "container".into(),
        tag_a: tag_a.into(),
        tag_b,
        tag_c,
        name: format!("e{serial}"),
        description: String::new(),
        quantity_bits: 1.0f64.to_bits(),
        unit: String::new(),
        parent_serial: parent,
        image_mime: None,
        created_at: String::new(),
        updated_at: String::new(),
        deleted_at: None,
    }
}

fn env() -> AuthEnv {
    AuthEnv {
        username: None,
        password_hash: None,
        password: Some("password123".into()),
        session_ttl_hours: None,
        cookie_secure: None,
    }
}

// ---- text ----

#[test]
fn pads_numbers_like_format() {
    assert_eq!(zero_padded_string(7, 2), "07");
    assert_eq!(zero_padded_string(42, 2), "42");
    assert_eq!(zero_padded_string(123, 2), "123");
    assert_eq!(zero_padded_string(-5, 2), "-5");
    assert_eq!(zero_padded_string(-5, 4), "-005");
    assert_eq!(zero_padded_string(1, 6), "000001");
    assert_eq!(zero_padded_string(i64::MIN, 6), format!("{:06}", i64::MIN));
    assert_eq!(decimal_string(0), "0");
    assert_eq!(decimal_string(u64::MAX), u64::MAX.to_string());
}

#[test]
fn parses_unsigned_like_std() {
    assert_eq!(parse_unsigned_text("720", u64::MAX), Some(720));
    assert_eq!(parse_unsigned_text("+5", u64::MAX), Some(5));
    assert_eq!(parse_unsigned_text("007", 65535), Some(7));
    assert_eq!(parse_unsigned_text("", u64::MAX), None);
    assert_eq!(parse_unsigned_text("+", u64::MAX), None);
    assert_eq!(parse_unsigned_text("-1", u64::MAX), None);
    assert_eq!(parse_unsigned_text(" 1", u64::MAX), None);
    assert_eq!(parse_unsigned_text("65536", 65535), None);
    assert_eq!(parse_unsigned_text("65535", 65535), Some(65535));
    assert_eq!(parse_unsigned_text("18446744073709551616", u64::MAX), None);
    assert_eq!(parse_unsigned_text("18446744073709551615", u64::MAX), Some(u64::MAX));
}

#[test]
fn trims_unicode_whitespace() {
    assert_eq!(trimmed("  a b \t\n"), "a b");
    assert_eq!(trimmed("\u{3000}名称\u{a0}"), "名称");
    assert_eq!(trimmed("   "), "");
}

#[test]
fn encodes_bytes_as_lower_hex() {
    assert_eq!(hex_string(&vec![0x00, 0xab, 0x0f, 0xff]), "00ab0fff");
}

// ---- identifiers and validation ----

#[test]
fn formats_full_identifier() {
    assert_eq!(element(862390, "M", 1, 85, None).code(), "M-01-85-862390");
    assert_eq!(element(0, "I", 34, 0, None).code(), "I-34-00-000000");
}

#[test]
fn element_view_carries_code_and_image_flag() {
    let mut e = element(5, "A", 0, 67, None);
    e.image_mime = Some("image/png".into());
    let view = ElementView::from_element(e);
    assert_eq!(view.code, "A-00-67-000005");
    assert!(view.has_image);
}

#[test]
fn normalizes_category_letter_with_spaces() {
    assert_eq!(normalized_tag_a("  b ").unwrap(), "B");
    assert_eq!(normalized_tag_a("Z").unwrap(), "Z");
    let again = normalized_tag_a(&normalized_tag_a(" q").unwrap()).unwrap();
    assert_eq!(again, "Q");
}

#[test]
fn rejects_bad_category_letters() {
    for value in ["", "ab", "1", "中", "é", " "] {
        let error = normalized_tag_a(value).unwrap_err();
        assert_eq!(error.get_kind(), ErrorKind::BadRequest);
        assert_eq!(error.get_message(), "类别位 A 必须是一个英文字母");
    }
}

#[test]
fn validation_reports_first_failing_rule() {
    let base = UpdateElement {
        kind: "box".into(),
        tag_a: "x".into(),
        tag_b: 100,
        tag_c: 0,
        name: " ".into(),
        description: String::new(),
        quantity_bits: (-1.0f64).to_bits(),
        unit: String::new(),
        parent_serial: None,
    };
    let mut input = base;
    assert_eq!(validate_element(&input).unwrap_err().get_message(), "元素类型必须是 item 或 container");
    input.kind = "container".into();
    assert_eq!(validate_element(&input).unwrap_err().get_message(), "助记位 BB 和 CC 必须在 00 到 99 之间");
    input.tag_b = 99;
    input.tag_c = -1;
    assert_eq!(validate_element(&input).unwrap_err().get_message(), "助记位 BB 和 CC 必须在 00 到 99 之间");
    input.tag_c = 0;
    assert_eq!(validate_element(&input).unwrap_err().get_message(), "名称不能为空");
    input.name = "盒".into();
    assert_eq!(validate_element(&input).unwrap_err().get_message(), "数量必须是非负有限数字");
    input.quantity_bits = 0.0f64.to_bits();
    assert_eq!(validate_element(&input).unwrap(), "X");
}

#[test]
fn quantity_rules_follow_float_comparison() {
    for q in [0.0f64, -0.0, 1.0, 12.5, f64::MAX, f64::MIN_POSITIVE] {
        assert_eq!(quantity_is_acceptable(q.to_bits()), q.is_finite() && !(q < 0.0));
    }
    for q in [-1.0f64, f64::NAN, f64::INFINITY, f64::NEG_INFINITY, -f64::MIN_POSITIVE] {
        assert!(!quantity_is_acceptable(q.to_bits()));
    }
}

// ---- printing ----

#[test]
fn print_mode_names_read_back() {
    for mode in [PrintMode::Preview, PrintMode::Printer] {
        assert_eq!(PrintMode::from_text(mode.as_arg()).unwrap(), mode);
    }
    let parsed: PrintMode = "printer".parse().unwrap();
    assert_eq!(parsed, PrintMode::Printer);
    assert_eq!(
        PrintMode::from_text("fax").unwrap_err(),
        "未知打印模式 \"fax\"，可选值为 preview、printer"
    );
}

#[test]
fn label_styles_name_themselves() {
    assert_eq!(LabelStyle::A1.as_str(), "A1");
    assert_eq!(LabelStyle::B2.as_str(), "B2");
    assert!(!LabelStyle::A2.includes_children());
    assert!(LabelStyle::B1.includes_children());
}

fn config(mode: PrintMode) -> PrintConfig {
    PrintConfig {
        mode,
        python: "python3".into(),
        script: "label.py".into(),
        output_dir: "out".into(),
        host: "10.0.0.2".into(),
        port: 9100,
        timeout_text: "3.5".into(),
        open_preview: false,
        cut: true,
    }
}

#[test]
fn builds_label_program_arguments() {
    assert_eq!(
        config(PrintMode::Preview).command_args(),
        ["label.py", "--mode", "preview", "--output-dir", "out", "--no-open"]
    );
    let mut printer = config(PrintMode::Printer);
    printer.cut = false;
    assert_eq!(
        printer.command_args(),
        ["label.py", "--mode", "printer", "--host", "10.0.0.2", "--port", "9100", "--timeout", "3.5", "--no-cut"]
    );
}

#[test]
fn payload_lists_children_in_given_order() {
    let parent = element(1, "A", 1, 2, None);
    let children = vec![element(2, "B", 0, 0, Some(1)), element(3, "A", 0, 0, Some(1))];
    let p = payload(&parent, LabelStyle::B1, &children);
    assert_eq!(p.schema_version, 1);
    assert_eq!(p.style, "B1");
    assert_eq!(p.identifier, "A-01-02-000001");
    assert_eq!(p.children.len(), 2);
    assert_eq!(p.children[0].identifier, "B-00-00-000002");
    assert_eq!(p.children[1].name, "e3");
}

#[test]
fn printer_failure_prefers_error_output() {
    assert_eq!(failure_message("  boom \n", "exit status: 1"), "boom");
    assert_eq!(failure_message(" \n", "exit status: 1"), "Python 标签模块退出：exit status: 1");
}

#[test]
fn sort_keeps_order_of_equal_keys() {
    let mut first = element(1, "A", 0, 0, None);
    first.name = "first".into();
    let mut second = element(1, "A", 0, 0, None);
    second.name = "second".into();
    let mut children = vec![element(0, "B", 0, 0, None), first, second, element(2, "A", 0, 0, None)];
    amstock::printing::sort_children(&mut children);
    let names: Vec<_> = children.iter().map(|c| c.name.clone()).collect();
    assert_eq!(names, ["first", "second", "e2", "e0"]);
}

// ---- authentication ----

#[test]
fn parses_boolean_settings() {
    for t in ["1", "TRUE", "Yes", "on"] {
        assert!(parse_bool(t).unwrap());
    }
    for f in ["0", "false", "NO", "Off"] {
        assert!(!parse_bool(f).unwrap());
    }
    assert_eq!(parse_bool("maybe").unwrap_err().message, "无效的布尔值：maybe");
    assert_eq!(config_error("x".into()).message, "x");
}

#[test]
fn reads_settings_with_defaults() {
    let state = AuthState::from_env(&env()).unwrap();
    assert_eq!(state.username, "admin");
    assert_eq!(state.session_ttl_secs, 720 * 3600);
    assert!(state.secure_cookie);
    let request = LoginRequest { username: "admin".into(), password: "password123".into() };
    assert!(state.check_login(&request).is_ok());
    let wrong = LoginRequest { username: "admin".into(), password: "password124".into() };
    let error = state.check_login(&wrong).unwrap_err();
    assert_eq!(error.get_kind(), ErrorKind::Unauthorized);
    assert_eq!(error.get_message(), "用户名或密码错误");
}

#[test]
fn reports_first_invalid_setting() {
    let mut e = env();
    e.username = Some("  ".into());
    assert_eq!(AuthState::from_env(&e).unwrap_err().message, "AMSTOCK_USERNAME 不能为空");
    let mut e = env();
    e.password = None;
    assert_eq!(AuthState::from_env(&e).unwrap_err().message, "必须设置 AMSTOCK_PASSWORD 或 AMSTOCK_PASSWORD_HASH");
    let mut e = env();
    e.password = Some("short".into());
    assert_eq!(AuthState::from_env(&e).unwrap_err().message, "AMSTOCK_PASSWORD 至少需要 8 个字符");
    let mut e = env();
    e.password = Some("家用物资密码".into());
    assert_eq!(AuthState::from_env(&e).unwrap_err().message, "AMSTOCK_PASSWORD 至少需要 8 个字符");
    let mut e = env();
    e.password = Some("家用物资管理密码".into());
    assert!(AuthState::from_env(&e).is_ok());
    let mut e = env();
    e.password_hash = Some("not a hash".into());
    assert!(AuthState::from_env(&e)
        .unwrap_err()
        .message
        .starts_with("AMSTOCK_PASSWORD_HASH 不是有效的 PHC 密码哈希："));
    let mut e = env();
    e.session_ttl_hours = Some("0".into());
    assert_eq!(AuthState::from_env(&e).unwrap_err().message, "AMSTOCK_SESSION_TTL_HOURS 必须大于 0");
    let mut e = env();
    e.session_ttl_hours = Some("1.5".into());
    assert_eq!(AuthState::from_env(&e).unwrap_err().message, "AMSTOCK_SESSION_TTL_HOURS 必须是正整数");
    let mut e = env();
    e.cookie_secure = Some("perhaps".into());
    assert_eq!(AuthState::from_env(&e).unwrap_err().message, "无效的布尔值：perhaps");
}

#[test]
fn accepts_given_password_hash() {
    let hash = amstock::auth::hash_password("another secret").unwrap();
    let mut e = env();
    e.password = None;
    e.password_hash = Some(hash.clone());
    e.session_ttl_hours = Some(u64::MAX.to_string());
    e.cookie_secure = Some("false".into());
    let state = AuthState::from_env(&e).unwrap();
    assert_eq!(state.password_hash, hash);
    assert_eq!(state.session_ttl_secs, u64::MAX);
    assert!(!state.secure_cookie);
}

#[test]
fn hashes_password_under_the_given_salt() {
    let salt = vec![0u8; 16];
    let first = amstock::auth::hash_password_with_salt("another secret", &salt).unwrap();
    let again = amstock::auth::hash_password_with_salt("another secret", &salt).unwrap();
    assert_eq!(first, again);
    assert!(first.starts_with("$argon2id$v=19$m=19456,t=2,p=1$AAAAAAAAAAAAAAAAAAAAAA$"));
    assert!(amstock::auth::hash_password_with_salt("another secret", &vec![7u8; 8]).is_ok());
    assert!(amstock::auth::hash_password_with_salt("another secret", &vec![7u8; 48]).is_ok());
    assert!(amstock::auth::hash_password_with_salt("another secret", &vec![7u8; 7])
        .unwrap_err()
        .message
        .starts_with("无法计算密码哈希："));
    assert!(amstock::auth::hash_password_with_salt("another secret", &vec![7u8; 49])
        .unwrap_err()
        .message
        .starts_with("无法编码密码盐："));
    let other = amstock::auth::hash_password_with_salt("another secret", &vec![1u8; 16]).unwrap();
    assert_ne!(first, other);
    let parsed = PasswordHash::new(&first).unwrap();
    assert!(Argon2::default().verify_password(b"another secret", &parsed).is_ok());
}

#[test]
fn builds_session_cookies() {
    let mut e = env();
    e.session_ttl_hours = Some("2".into());
    let state = AuthState::from_env(&e).unwrap();
    let token = "0123456789abcdef".repeat(4);
    let cookie = state.session_cookie(&token);
    assert_eq!(
        cookie,
        format!("amstock_session={token}; Path=/; HttpOnly; SameSite=Strict; Max-Age=7200; Secure")
    );
    assert_eq!(amstock::auth::session_token(&cookie), Some(token));
    assert_eq!(
        state.expired_cookie(),
        "amstock_session=; Path=/; HttpOnly; SameSite=Strict; Max-Age=0; Secure"
    );
}

#[test]
fn ignores_malformed_session_cookies() {
    let short = "a".repeat(63);
    assert_eq!(amstock::auth::session_token(&format!("amstock_session={short}")), None);
    let bad = "g".repeat(64);
    assert_eq!(amstock::auth::session_token(&format!("amstock_session={bad}")), None);
    let good = "b".repeat(64);
    assert_eq!(
        amstock::auth::session_token(&format!("amstock_session={bad}; amstock_session={good}")),
        None
    );
    assert_eq!(amstock::auth::session_token("theme=dark"), None);
    assert_eq!(amstock::auth::session_token(""), None);
}

#[test]
fn sessions_live_until_they_expire() {
    let state = AuthState::from_env(&env()).unwrap();
    let mut sessions = SessionStore::new();
    let token = state.create_session(&mut sessions, 1_000).unwrap();
    assert_eq!(token.len(), 64);
    assert!(token.bytes().all(|b| b.is_ascii_hexdigit()));
    let header = format!("{}={}", "amstock_session", token);
    assert!(sessions.authenticate(Some(&header), 1_000));
    let ttl = state.session_ttl_nanos();
    assert!(sessions.authenticate(Some(&header), 1_000 + ttl - 1));
    assert!(!sessions.authenticate(Some(&header), 1_000 + ttl));
    assert_eq!(sessions.len(), 0);
    assert!(sessions.authorize(Some(&header), 0).is_err());
}

#[test]
fn logout_removes_the_session() {
    let state = AuthState::from_env(&env()).unwrap();
    let mut sessions = SessionStore::new();
    let token = state.start_session(&mut sessions, &vec![7u8; 32], 5);
    assert_eq!(token, "07".repeat(32));
    let header = format!("amstock_session={token}");
    assert_eq!(sessions.expiry(&token), Some(5 + state.session_ttl_nanos()));
    sessions.remove_session(Some(&header));
    assert_eq!(sessions.expiry(&token), None);
    let error = sessions.authorize(Some(&header), 6).unwrap_err();
    assert_eq!(error.get_message(), "登录已失效，请重新登录");
    assert!(!sessions.authenticate(None, 6));
}

#[test]
fn replacing_a_session_keeps_one_entry() {
    let mut sessions = SessionStore::new();
    sessions.insert("t".into(), 10);
    sessions.insert("u".into(), 20);
    sessions.insert("t".into(), 30);
    assert_eq!(sessions.len(), 2);
    assert_eq!(sessions.expiry("t"), Some(30));
    sessions.prune(20);
    assert_eq!(sessions.len(), 1);
    assert_eq!(sessions.expiry("u"), None);
}

// ---- command line ----

fn no_env() -> PrinterEnv {
    PrinterEnv { enabled: None, host: None, port: None, timeout: None, timeout_reading: None }
}

fn run_with(args: &[&str], env: &PrinterEnv) -> Result<ArgsOutcome, String> {
    let arguments: Vec<String> = args.iter().map(|a| a.to_string()).collect();
    let readings: Vec<Option<u64>> = arguments
        .iter()
        .map(|a| a.parse::<f64>().ok().map(f64::to_bits))
        .collect();
    Args::parse(&arguments, &readings, env)
}

fn run(args: &[&str]) -> Result<ArgsOutcome, String> {
    run_with(args, &no_env())
}

fn printer_env(enabled: &str, host: &str, port: &str, timeout: &str) -> PrinterEnv {
    let text = |v: &str| if v.is_empty() { None } else { Some(v.to_string()) };
    PrinterEnv {
        enabled: text(enabled),
        host: text(host),
        port: text(port),
        timeout: text(timeout),
        timeout_reading: timeout.parse::<f64>().ok().map(f64::to_bits),
    }
}

#[test]
fn environment_sets_the_printer_and_flags_take_precedence() {
    let env = printer_env("true", "10.1.1.1", "9200", "2.5");
    match run_with(&[], &env).unwrap() {
        ArgsOutcome::Run(args) => {
            assert_eq!(args.print_mode, PrintMode::Printer);
            assert_eq!(args.printer_host, "10.1.1.1");
            assert_eq!(args.printer_port, 9200);
            assert_eq!(f64::from_bits(args.printer_timeout_bits), 2.5);
        }
        _ => panic!("expected options"),
    }
    match run_with(&["--printer-host", "10.2.2.2", "--print-mode", "preview"], &env).unwrap() {
        ArgsOutcome::Run(args) => {
            assert_eq!(args.print_mode, PrintMode::Preview);
            assert_eq!(args.printer_host, "10.2.2.2");
            assert_eq!(args.printer_port, 9200);
        }
        _ => panic!("expected options"),
    }
    let empty = PrinterEnv {
        enabled: Some(String::new()),
        host: Some(String::new()),
        port: Some(String::new()),
        timeout: Some(String::new()),
        timeout_reading: None,
    };
    match run_with(&[], &empty).unwrap() {
        ArgsOutcome::Run(args) => {
            assert_eq!(args.print_mode, PrintMode::Preview);
            assert_eq!(args.printer_host, "192.168.31.114");
            assert_eq!(args.printer_port, 9100);
        }
        _ => panic!("expected options"),
    }
}

#[test]
fn environment_errors() {
    assert_eq!(run_with(&[], &printer_env("maybe", "", "", "")).unwrap_err(), "无效的布尔值：maybe");
    assert_eq!(
        run_with(&[], &printer_env("false", "", "0", "")).unwrap_err(),
        "AMSTOCK_PRINTER_PORT 必须是 1–65535 的整数"
    );
    assert_eq!(
        run_with(&[], &printer_env("", "", "", "soon")).unwrap_err(),
        "AMSTOCK_PRINTER_TIMEOUT 必须是秒数"
    );
    assert_eq!(
        run_with(&[], &printer_env("", "", "", "-1")).unwrap_err(),
        "AMSTOCK_PRINTER_TIMEOUT 必须大于 0"
    );
}

#[test]
fn command_line_defaults() {
    match run(&[]).unwrap() {
        ArgsOutcome::Run(args) => {
            assert_eq!(args.print_mode, PrintMode::Preview);
            assert_eq!(args.printer_host, "192.168.31.114");
            assert_eq!(args.printer_port, 9100);
            assert_eq!(args.printer_timeout_bits, DEFAULT_TIMEOUT_BITS);
            assert_eq!(f64::from_bits(DEFAULT_TIMEOUT_BITS), 3.0);
            assert!(!args.no_open_label_preview);
        }
        _ => panic!("expected options"),
    }
}

#[test]
fn command_line_options() {
    match run(&["--print-mode", "printer", "--printer-port", "9200", "--printer-timeout", "1.5", "--printer-no-cut", "--printer-python", "/usr/bin/python3"]).unwrap() {
        ArgsOutcome::Run(args) => {
            assert_eq!(args.print_mode, PrintMode::Printer);
            assert_eq!(args.printer_port, 9200);
            assert_eq!(f64::from_bits(args.printer_timeout_bits), 1.5);
            assert!(args.printer_no_cut);
            assert_eq!(args.printer_python.as_deref(), Some("/usr/bin/python3"));
        }
        _ => panic!("expected options"),
    }
    assert!(matches!(run(&["--version"]).unwrap(), ArgsOutcome::Version));
    assert!(matches!(run(&["-h", "--bogus"]).unwrap(), ArgsOutcome::Help));
}

#[test]
fn command_line_errors() {
    assert_eq!(run(&["--printer-host"]).unwrap_err(), "--printer-host 缺少参数值");
    assert_eq!(run(&["--printer-port", "0"]).unwrap_err(), "--printer-port 必须是 1–65535 的整数");
    assert_eq!(run(&["--printer-port", "70000"]).unwrap_err(), "--printer-port 必须是 1–65535 的整数");
    assert_eq!(run(&["--printer-timeout", "soon"]).unwrap_err(), "--printer-timeout 必须是秒数");
    assert_eq!(run(&["--printer-timeout", "0"]).unwrap_err(), "--printer-timeout 必须大于 0");
    assert_eq!(run(&["--printer-timeout", "inf"]).unwrap_err(), "--printer-timeout 必须大于 0");
    assert_eq!(
        run(&["--bogus"]).unwrap_err(),
        format!("未知启动参数：--bogus\n\n{}", Args::help())
    );
    assert!(Args::help().starts_with("Amstock 家用物资管理后端\n\n标签选项：\n--print-mode"));
}

// ---- endpoint decisions ----

#[test]
fn printing_requires_live_container_for_b_labels() {
    let mut item = element(1, "A", 0, 0, None);
    item.kind = "item".into();
    assert_eq!(check_printable(&item, LabelStyle::B1).unwrap_err().get_message(), "B1、B2 标签仅适用于容器");
    assert!(check_printable(&item, LabelStyle::A2).is_ok());
    item.deleted_at = Some("now".into());
    assert_eq!(check_printable(&item, LabelStyle::A1).unwrap_err().get_kind(), ErrorKind::Conflict);
}

#[test]
fn parent_must_be_live_container() {
    assert!(check_parent(Some(ParentRow { kind: "container".into(), deleted: false })).is_ok());
    assert_eq!(
        check_parent(Some(ParentRow { kind: "item".into(), deleted: false })).unwrap_err().get_message(),
        "父级必须是未删除的容器"
    );
    assert_eq!(check_parent(None).unwrap_err().get_message(), "父容器序列号不存在");
}

fn reply_message(action: RemovalAction) -> String {
    match action {
        RemovalAction::Reply(Err(error)) => error.get_message().clone(),
        other => panic!("expected an error reply, got {other:?}"),
    }
}

fn removal_counting(mode: Option<DeleteMode>, target_serial: Option<i64>) -> Removal {
    let (mut removal, action) = Removal::start(5, DeleteRequest { mode, target_serial });
    assert!(matches!(action, RemovalAction::FetchElement));
    let action = removal.step(RemovalEvent::Found(Some(element(5, "A", 0, 0, Some(2)))));
    assert!(matches!(action, RemovalAction::CountChildren));
    removal
}

#[test]
fn removal_of_an_empty_element_marks_it_only() {
    let mut removal = removal_counting(None, None);
    assert!(matches!(removal.step(RemovalEvent::Counted(0)), RemovalAction::MarkDeleted));
    assert!(matches!(removal.step(RemovalEvent::Written(1)), RemovalAction::Reply(Ok(1))));
}

#[test]
fn removal_refuses_missing_and_deleted_elements() {
    let (mut removal, _) = Removal::start(5, DeleteRequest { mode: None, target_serial: None });
    assert_eq!(reply_message(removal.step(RemovalEvent::Found(None))), "未找到该序列号");
    let (mut removal, _) = Removal::start(5, DeleteRequest { mode: None, target_serial: None });
    let mut gone = element(5, "A", 0, 0, None);
    gone.deleted_at = Some("2026-01-01T00:00:00Z".into());
    assert_eq!(reply_message(removal.step(RemovalEvent::Found(Some(gone)))), "该元素已经删除");
}

#[test]
fn removal_needs_a_mode_for_children() {
    let mut removal = removal_counting(None, None);
    assert_eq!(
        reply_message(removal.step(RemovalEvent::Counted(3))),
        "非空容器必须明确选择子元素的处理方式"
    );
    let mut removal = removal_counting(Some(DeleteMode::MoveToContainer), None);
    assert_eq!(reply_message(removal.step(RemovalEvent::Counted(3))), "需要提供目标容器序列号");
}

#[test]
fn removal_moves_children_to_the_parent() {
    let mut removal = removal_counting(Some(DeleteMode::MoveToParent), None);
    assert!(matches!(removal.step(RemovalEvent::Counted(3)), RemovalAction::MoveChildren(Some(2))));
    assert!(matches!(removal.step(RemovalEvent::Written(3)), RemovalAction::MarkDeleted));
    assert!(matches!(removal.step(RemovalEvent::Written(1)), RemovalAction::Reply(Ok(1))));
}

#[test]
fn removal_checks_the_target_container() {
    let mut removal = removal_counting(Some(DeleteMode::MoveToContainer), Some(5));
    assert_eq!(reply_message(removal.step(RemovalEvent::Counted(3))), "目标容器不能是待删除容器自身");

    let mut removal = removal_counting(Some(DeleteMode::MoveToContainer), Some(9));
    assert!(matches!(removal.step(RemovalEvent::Counted(3)), RemovalAction::CheckTargetIsContainer(9)));
    assert_eq!(reply_message(removal.step(RemovalEvent::Answered(false))), "目标序列号不是可用容器");

    let mut removal = removal_counting(Some(DeleteMode::MoveToContainer), Some(9));
    removal.step(RemovalEvent::Counted(3));
    assert!(matches!(removal.step(RemovalEvent::Answered(true)), RemovalAction::CheckTargetIsInside(9)));
    assert_eq!(reply_message(removal.step(RemovalEvent::Answered(true))), "目标容器不能位于待删除容器内部");

    let mut removal = removal_counting(Some(DeleteMode::MoveToContainer), Some(9));
    removal.step(RemovalEvent::Counted(3));
    removal.step(RemovalEvent::Answered(true));
    assert!(matches!(removal.step(RemovalEvent::Answered(false)), RemovalAction::MoveChildren(Some(9))));
    assert!(matches!(removal.step(RemovalEvent::Written(3)), RemovalAction::MarkDeleted));
    assert!(matches!(removal.step(RemovalEvent::Written(1)), RemovalAction::Reply(Ok(1))));
}

#[test]
fn cascade_counts_the_removed_descendants() {
    let mut removal = removal_counting(Some(DeleteMode::Cascade), None);
    assert!(matches!(removal.step(RemovalEvent::Counted(2)), RemovalAction::RemoveDescendants));
    assert!(matches!(removal.step(RemovalEvent::Written(4)), RemovalAction::MarkDeleted));
    assert!(matches!(removal.step(RemovalEvent::Written(1)), RemovalAction::Reply(Ok(5))));
}

fn update_input(kind: &str, parent_serial: Option<i64>) -> UpdateElement {
    UpdateElement {
        kind: kind.into(),
        tag_a: " m ".into(),
        tag_b: 1,
        tag_c: 2,
        name: "  螺母  ".into(),
        description: " M3 ".into(),
        quantity_bits: 1.0f64.to_bits(),
        unit: " 个".into(),
        parent_serial,
    }
}

fn edit_message(action: EditAction) -> String {
    match action {
        EditAction::Reply(Err(error)) => error.get_message().clone(),
        other => panic!("expected an error reply, got {other:?}"),
    }
}

#[test]
fn editing_validates_and_tidies_first() {
    let (_, action) = Editing::start(1, update_input("box", None));
    assert_eq!(edit_message(action), "元素类型必须是 item 或 container");
    let (editing, action) = Editing::start(1, update_input("item", None));
    assert!(matches!(action, EditAction::FetchElement));
    assert_eq!(editing.tag_a, "M");
    assert_eq!(editing.input.name, "螺母");
    assert_eq!(editing.input.description, "M3");
    assert_eq!(editing.input.unit, "个");
    assert_eq!(editing.input.tag_a, " m ");
}

#[test]
fn editing_checks_deletion_and_kind_change() {
    let (mut editing, _) = Editing::start(1, update_input("item", None));
    assert_eq!(edit_message(editing.step(EditEvent::Found(None))), "未找到该序列号");

    let (mut editing, _) = Editing::start(1, update_input("item", None));
    let mut current = element(1, "A", 0, 0, None);
    current.deleted_at = Some("t".into());
    assert_eq!(edit_message(editing.step(EditEvent::Found(Some(current)))), "请先恢复该元素再编辑");

    let (mut editing, _) = Editing::start(1, update_input("item", None));
    let action = editing.step(EditEvent::Found(Some(element(1, "A", 0, 0, None))));
    assert!(matches!(action, EditAction::CheckHasLiveChildren));
    assert_eq!(
        edit_message(editing.step(EditEvent::Answered(true))),
        "非空容器不能改为物品，请先移动或删除其中的元素"
    );

    let (mut editing, _) = Editing::start(1, update_input("item", None));
    editing.step(EditEvent::Found(Some(element(1, "A", 0, 0, None))));
    assert!(matches!(editing.step(EditEvent::Answered(false)), EditAction::Save));
}

#[test]
fn editing_checks_the_new_parent() {
    let live = || Some(ParentRow { kind: "container".into(), deleted: false });

    let (mut editing, _) = Editing::start(1, update_input("container", Some(1)));
    assert!(matches!(
        editing.step(EditEvent::Found(Some(element(1, "A", 0, 0, None)))),
        EditAction::FetchParent(1)
    ));
    assert_eq!(edit_message(editing.step(EditEvent::ParentFound(live()))), "元素不能放入自身");

    let (mut editing, _) = Editing::start(1, update_input("container", Some(7)));
    editing.step(EditEvent::Found(Some(element(1, "A", 0, 0, None))));
    assert_eq!(edit_message(editing.step(EditEvent::ParentFound(None))), "父容器序列号不存在");

    let (mut editing, _) = Editing::start(1, update_input("container", Some(7)));
    editing.step(EditEvent::Found(Some(element(1, "A", 0, 0, None))));
    let item = Some(ParentRow { kind: "item".into(), deleted: false });
    assert_eq!(edit_message(editing.step(EditEvent::ParentFound(item))), "父级必须是未删除的容器");

    let (mut editing, _) = Editing::start(1, update_input("container", Some(7)));
    editing.step(EditEvent::Found(Some(element(1, "A", 0, 0, None))));
    assert!(matches!(editing.step(EditEvent::ParentFound(live())), EditAction::CheckParentIsInside(7)));
    assert_eq!(edit_message(editing.step(EditEvent::Answered(true))), "不能将容器移动到其后代容器中");

    let (mut editing, _) = Editing::start(1, update_input("container", Some(7)));
    editing.step(EditEvent::Found(Some(element(1, "A", 0, 0, None))));
    editing.step(EditEvent::ParentFound(live()));
    assert!(matches!(editing.step(EditEvent::Answered(false)), EditAction::Save));
    match editing.step(EditEvent::Saved(element(1, "M", 1, 2, Some(7)))) {
        EditAction::Reply(Ok(view)) => assert_eq!(view.code, "M-01-02-000001"),
        other => panic!("expected the changed element, got {other:?}"),
    }
}

#[test]
fn restore_keeps_available_parent_only() {
    assert_eq!(restored_parent(Some(3), true), Some(3));
    assert_eq!(restored_parent(Some(3), false), None);
}

#[test]
fn search_terms_trim_and_wrap() {
    let t = search_terms(&SearchQuery { q: Some("  螺丝 ".into()), include_deleted: None });
    assert_eq!(t.q, "螺丝");
    assert_eq!(t.pattern, "%螺丝%");
    assert!(!t.include_deleted);
    let t = search_terms(&SearchQuery { q: None, include_deleted: Some(true) });
    assert_eq!(t.pattern, "%%");
    assert!(t.include_deleted);
}

#[test]
fn mapping_names_drop_blank_text() {
    assert_eq!(mapping_name(Some(" 工具 ".into())), Some("工具".to_string()));
    assert_eq!(mapping_name(Some("  ".into())), None);
    assert_eq!(mapping_name(None), None);
}

#[test]
fn image_uploads_are_checked() {
    let e = element(12, "A", 0, 0, None);
    assert_eq!(check_image_upload(&e, 10, Some("image/png")).unwrap(), "image/png");
    assert_eq!(check_image_upload(&e, 0, Some("image/png")).unwrap_err().get_message(), "图片内容为空");
    assert_eq!(
        check_image_upload(&e, 10, None).unwrap_err().get_message(),
        "仅支持 JPEG、PNG、WebP 或 GIF 图片"
    );
    assert_eq!(image_file_name(12), "000012");
    assert_eq!(upload_file_name(12), ".000012.upload");
}

#[test]
fn lookup_reports_cycles_and_missing_parents() {
    let a = element(1, "A", 0, 0, Some(2));
    let b = element(2, "A", 0, 0, Some(1));
    let map: HashMap<i64, Element> = [(1, a.clone()), (2, b)].into_iter().collect();
    let error = build_element_lookup(a, &map).unwrap_err();
    assert_eq!(error.get_kind(), ErrorKind::Internal);
    assert_eq!(error.get_message(), "检测到循环的父容器关系");
    let lonely = element(3, "A", 0, 0, Some(9));
    assert_eq!(build_element_lookup(lonely, &map).unwrap_err().get_message(), "父容器数据不存在");
    let root = element(4, "A", 0, 0, None);
    let view = build_element_lookup(root, &map).unwrap();
    assert_eq!(view.path.len(), 1);
    assert_eq!(view.element.code, "A-00-00-000004");
}

#[test]
fn tree_nests_children_and_lifts_orphans() {
    let elements = vec![
        element(1, "A", 0, 0, None),
        element(2, "A", 0, 0, Some(1)),
        element(3, "A", 0, 0, Some(2)),
        element(4, "A", 0, 0, Some(99)),
        element(5, "A", 0, 0, Some(6)),
        element(6, "A", 0, 0, Some(5)),
        element(7, "A", 0, 0, Some(1)),
    ];
    let tree = build_tree(&elements);
    let top: Vec<i64> = tree.iter().map(|n| n.element.element.serial).collect();
    assert_eq!(top, [1, 4]);
    let under_one: Vec<i64> = tree[0].children.iter().map(|n| n.element.element.serial).collect();
    assert_eq!(under_one, [2, 7]);
    assert_eq!(tree[0].children[0].children[0].element.element.serial, 3);
    assert!(tree[1].children.is_empty());
}

#[test]
fn tree_gives_a_shared_serial_its_children_once() {
    let elements = vec![
        element(1, "A", 0, 0, None),
        element(1, "B", 0, 0, None),
        element(2, "A", 0, 0, Some(1)),
    ];
    let tree = build_tree(&elements);
    assert_eq!(tree.len(), 2);
    assert_eq!(tree[0].children.len(), 1);
    assert_eq!(tree[0].children[0].element.element.serial, 2);
    assert!(tree[1].children.is_empty());
}

fn create_input(kind: &str, parent_serial: Option<i64>) -> CreateElement {
    CreateElement {
        kind: kind.into(),
        tag_a: "m".into(),
        tag_b: 3,
        tag_c: 8,
        name: " 螺母 ".into(),
        description: "M3 不锈钢 ".into(),
        quantity_bits: 12.5f64.to_bits(),
        unit: "个".into(),
        parent_serial,
    }
}

fn creation_message(action: CreationAction) -> String {
    match action {
        CreationAction::Reply(Err(error)) => error.get_message().clone(),
        other => panic!("expected an error reply, got {other:?}"),
    }
}

#[test]
fn creation_without_parent_takes_a_serial() {
    let (mut creation, action) = Creation::start(create_input("item", None));
    assert!(matches!(action, CreationAction::AllocateSerial));
    assert_eq!(creation.tag_a, "M");
    assert_eq!(creation.input.name, "螺母");
    assert_eq!(creation.input.description, "M3 不锈钢");
    assert!(matches!(creation.step(CreationEvent::Allocated(Some(42))), CreationAction::Insert(42)));
    match creation.step(CreationEvent::Saved(element(42, "M", 3, 8, None))) {
        CreationAction::Reply(Ok(view)) => {
            assert_eq!(view.code, "M-03-08-000042");
            assert!(!view.has_image);
        }
        other => panic!("expected the new element, got {other:?}"),
    }
}

#[test]
fn creation_checks_fields_parent_and_serials() {
    let (_, action) = Creation::start(create_input("box", None));
    assert_eq!(creation_message(action), "元素类型必须是 item 或 container");

    let (mut creation, action) = Creation::start(create_input("item", Some(7)));
    assert!(matches!(action, CreationAction::FetchParent(7)));
    assert_eq!(creation_message(creation.step(CreationEvent::ParentFound(None))), "父容器序列号不存在");

    let (mut creation, _) = Creation::start(create_input("item", Some(7)));
    let deleted = Some(ParentRow { kind: "container".into(), deleted: true });
    assert_eq!(
        creation_message(creation.step(CreationEvent::ParentFound(deleted))),
        "父级必须是未删除的容器"
    );

    let (mut creation, _) = Creation::start(create_input("item", Some(7)));
    let live = Some(ParentRow { kind: "container".into(), deleted: false });
    assert!(matches!(creation.step(CreationEvent::ParentFound(live)), CreationAction::AllocateSerial));
    assert_eq!(creation_message(creation.step(CreationEvent::Allocated(None))), "六位序列号已用尽");
}

#[test]
fn looks_up_several_elements_in_order() {
    let all = vec![
        element(1, "A", 0, 0, None),
        element(2, "A", 0, 0, Some(1)),
        element(3, "A", 0, 0, Some(2)),
    ];
    let matches = vec![all[2].clone(), all[0].clone()];
    let views = amstock::routes::lookup_all(&matches, all.clone()).unwrap();
    assert_eq!(views.len(), 2);
    let path: Vec<i64> = views[0].path.iter().map(|v| v.element.serial).collect();
    assert_eq!(path, [1, 2, 3]);
    assert_eq!(views[1].path.len(), 1);
    let orphan = vec![element(4, "A", 0, 0, Some(9))];
    assert_eq!(
        amstock::routes::lookup_all(&orphan, all).unwrap_err().get_message(),
        "父容器数据不存在"
    );
}
