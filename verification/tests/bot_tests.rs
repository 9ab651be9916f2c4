use fotd_bot::config::{Config, ConfigData, SettingError};
use fotd_bot::dates::{process_date, try_process_date};
use fotd_bot::email::{mailbox_ok, mailing_start, mailing_step, Auth, EmailError, MailingAction, MailingState, Mailer, PrepareError, SendOutcome, User, record_send};
use fotd_bot::routes::{
    add_subscriber, is_subscribed, confirm_code, confirmed_email, fact_at_day, fact_range_days, history_params,
    is_widget_agent, new_confirmation, random_quote, remove_subscriber, render_fact_page,
    subscribe_email, unsubscribe_fields, FieldOutcome,
};
use fotd_bot::schedule::{epoch_day, previous_epoch_day, render_email, render_subject, SendGate};
use fotd_bot::send_time::SendTime;
use fotd_bot::web::{log_line, remove_address_port, slash_path, static_file_path};
use fotd_bot::webhook::{keyless_hooks, parse_config, parse_line, HttpMethod, Service, Webhook, WebhookReply};

fn entries(pairs: &[(&str, &str)]) -> ConfigData {
    ConfigData::from_entries(pairs.iter().map(|(k, v)| (k.to_string(), v.to_string())).collect())
}

#[test]
fn service_from_string_any_case() {
    assert_eq!(Service::from_string("discord"), Some(Service::Discord));
    assert_eq!(Service::from_string("DISCORD"), Some(Service::Discord));
    assert_eq!(Service::from_string("Slack"), Some(Service::Slack));
    assert_eq!(Service::from_string("Google_Chat"), Some(Service::GoogleChat));
    assert_eq!(Service::from_string("google chat"), None);
    assert_eq!(Service::from_string(""), None);
}

#[test]
fn parse_line_reads_parts() {
    let w = parse_line(" Discord , 123 ,  tok ".to_string(), "main".to_string()).unwrap();
    assert_eq!(w.id, "main");
    assert_eq!(w.service, Service::Discord);
    assert_eq!(w.channel, "123");
    assert_eq!(w.token, "tok");
    assert_eq!(w.key, None);
    let g = parse_line("google_chat, space, tok, key, extra".to_string(), "g".to_string()).unwrap();
    assert_eq!(g.key, Some("key".to_string()));
    assert_eq!(g.token, "tok");
}

#[test]
fn parse_line_refusals() {
    assert!(parse_line("google_chat, space, tok".to_string(), "g".to_string()).is_none());
    assert!(parse_line("teams, a, b".to_string(), "t".to_string()).is_none());
    assert!(parse_line("slack, a".to_string(), "s".to_string()).is_none());
    assert!(parse_line("".to_string(), "s".to_string()).is_none());
}

#[test]
fn parse_config_collects_webhooks() {
    let cfg = entries(&[
        ("webhook_main", "discord, 1, t1"),
        ("other", "slack, 2, t2"),
        ("webhook_bad", "teams, 3, t3"),
        ("webhook_a_webhook_b", "slack, 4, t4"),
    ]);
    let hooks = parse_config(&cfg);
    assert_eq!(hooks.len(), 2);
    assert_eq!(hooks[0].id, "main");
    assert_eq!(hooks[0].channel, "1");
    assert_eq!(hooks[1].id, "a_");
    assert_eq!(hooks[1].service, Service::Slack);
}

#[test]
fn keyless_google_chat_hooks_counted() {
    let cfg = entries(&[
        ("webhook_a", "google_chat, c, t"),
        ("webhook_b", "Google_Chat , c, t, k"),
        ("webhook_c", "slack, c, t"),
        ("other", "google_chat, c, t"),
        ("webhook_d", "GOOGLE_CHAT,c,t"),
        ("webhook_e", "google_chat, c"),
    ]);
    assert_eq!(keyless_hooks(&cfg), 2);
    assert_eq!(parse_config(&cfg).len(), 2);
}

fn hook(service: Service, key: Option<&str>) -> Webhook {
    Webhook {
        id: "x".to_string(),
        service,
        channel: "chan".to_string(),
        token: "tok".to_string(),
        key: key.map(|k| k.to_string()),
    }
}

#[test]
fn webhook_send_requests() {
    let d = hook(Service::Discord, None).send_request("fact", "2022-01-01");
    assert_eq!(d.method, HttpMethod::Post);
    assert!(d.json_header);
    assert_eq!(d.url, "https://discord.com/api/webhooks/chan/tok");
    assert_eq!(
        d.body.unwrap(),
        r#"{"embeds":[{"title":"2022-01-01","description":"fact","color":6053119}]}"#
    );
    let s = hook(Service::Slack, None).send_request("fact", "day");
    assert_eq!(s.url, "https://hooks.slack.com/services/chan/tok");
    assert_eq!(
        s.body.unwrap(),
        r##"{"attachments":[{"title":"day","text":"fact","color":"#5C5CFF"}]}"##
    );
    let g = hook(Service::GoogleChat, Some("k")).send_request("a \"b\"", "day");
    assert_eq!(g.url, "https://chat.googleapis.com/v1/spaces/chan/messages?key=k&token=tok");
    assert_eq!(g.body.unwrap(), "{\"text\":\"*day*\\n```a \\\"b\\\"```\"}");
}

#[test]
fn webhook_verify_requests_and_replies() {
    let d = hook(Service::Discord, None);
    let r = d.verify_request();
    assert_eq!(r.method, HttpMethod::Get);
    assert_eq!(r.url, "https://discordapp.com/api/webhooks/chan/tok");
    assert!(r.body.is_none());
    assert!(d.verified_by(&WebhookReply::Accepted));
    assert!(!d.verified_by(&WebhookReply::Failed));
    let s = hook(Service::Slack, None);
    assert!(s.verified_by(&WebhookReply::Refused { body: "invalid_payload".to_string(), error_message: None }));
    assert!(!s.verified_by(&WebhookReply::Refused { body: "no_service".to_string(), error_message: None }));
    assert!(!s.verified_by(&WebhookReply::Accepted));
    let g = hook(Service::GoogleChat, Some("k"));
    let gr = g.verify_request();
    assert_eq!(gr.method, HttpMethod::Post);
    assert!(!gr.json_header);
    assert!(!r.json_header);
    assert_eq!(gr.body, Some("{}".to_string()));
    assert!(g.verified_by(&WebhookReply::Refused {
        body: String::new(),
        error_message: Some("Message cannot be empty.".to_string())
    }));
    assert!(!g.verified_by(&WebhookReply::Refused { body: String::new(), error_message: None }));
}

#[test]
fn webhook_refusals_read_google_chat_errors() {
    let g = hook(Service::GoogleChat, Some("k"));
    let body = r#"{"error":{"code":400,"message":"Message cannot be empty."}}"#.to_string();
    let reply = g.refusal(body.clone()).unwrap();
    match &reply {
        WebhookReply::Refused { body: b, error_message } => {
            assert_eq!(b, &body);
            assert_eq!(error_message.as_deref(), Some("Message cannot be empty."));
        }
        _ => panic!("expected a refusal"),
    }
    assert!(g.verified_by(&reply));
    let other = g.refusal(r#"{"error":{"message":"Not found"}}"#.to_string()).unwrap();
    assert!(!g.verified_by(&other));
    match g.refusal(r#"{"error":{"message":5}}"#.to_string()).unwrap() {
        WebhookReply::Refused { error_message, .. } => assert!(error_message.is_none()),
        _ => panic!("expected a refusal"),
    }
    match g.refusal("[1, 2]".to_string()).unwrap() {
        WebhookReply::Refused { error_message, .. } => assert!(error_message.is_none()),
        _ => panic!("expected a refusal"),
    }
    assert!(g.refusal("not json".to_string()).is_none());
    let s = hook(Service::Slack, None);
    let sr = s.refusal("invalid_payload".to_string()).unwrap();
    assert!(s.verified_by(&sr));
    match s.refusal("not json".to_string()).unwrap() {
        WebhookReply::Refused { body, error_message } => {
            assert_eq!(body, "not json");
            assert!(error_message.is_none());
        }
        _ => panic!("expected a refusal"),
    }
}

#[test]
fn user_from_email_names() {
    let u = User::user_from_email("jane.doe@example.com");
    assert_eq!(u.email, "jane.doe@example.com");
    assert_eq!(u.name, "jane.doe");
    assert_eq!(User::user_from_email("nobody").name, "nobody");
    assert_eq!(User::new("a@b".to_string(), "A".to_string()).to_display_string(), "A <a@b>");
}

#[test]
fn mailer_messages() {
    let to = vec![User::user_from_email("bob@example.com")];
    let mut m: Mailer<Box<dyn Fn(User)>> = Mailer::new(
        to,
        User::new("bot@example.com".to_string(), "Fact Bot".to_string()),
        "Fact of 2022-01-01",
        "Hi {{NAME}}, {{NAME}}!",
        "smtp.example.com",
        "bot@example.com",
        "secret",
    );
    assert!(m.foreach.is_none());
    m.add_foreach(Box::new(|_u: User| {}));
    assert!(m.foreach.is_some());
    let msg = m.message_for(&m.to[0]);
    assert_eq!(msg.from, "Fact Bot <bot@example.com>");
    assert_eq!(msg.to, "bob <bob@example.com>");
    assert_eq!(msg.subject, "Fact of 2022-01-01");
    assert_eq!(msg.body, "Hi bob, bob!");
    let built = m.prepare(&m.to[0]);
    let text = String::from_utf8_lossy(&built.message().formatted()).to_string();
    assert!(text.contains("bot@example.com"));
    assert!(text.contains("To: bob <bob@example.com>"));
    assert!(text.contains("Subject: Fact of 2022-01-01"));
    assert!(text.contains("text/html"));
    assert!(text.contains("Hi bob, bob!"));
    assert!(m.try_prepare(&m.to[0]).is_ok());
    let bad = User::new("not an address".to_string(), "x".to_string());
    assert_eq!(m.try_prepare(&bad).err(), Some(PrepareError::InvalidRecipient));
}

#[test]
fn mailer_refuses_bad_sender_first() {
    let m: Mailer<Box<dyn Fn(User)>> = Mailer::new(
        vec![User::new("not an address".to_string(), "x".to_string())],
        User::new("nope".to_string(), "Bot".to_string()),
        "s",
        "b",
        "smtp.example.com",
        "u",
        "p",
    );
    assert_eq!(m.try_prepare(&m.to[0]).err(), Some(PrepareError::InvalidSender));
}

#[test]
fn mailing_runs_in_order() {
    let (s, a) = mailing_start(0);
    assert_eq!(s, MailingState { next: 0, sent: 0 });
    assert_eq!(a, MailingAction::Finish(Ok(0)));
    let (mut s, mut a) = mailing_start(3);
    let mut mailed = Vec::new();
    while let MailingAction::Mail(i) = a {
        mailed.push(i);
        let (s2, a2) = mailing_step(3, s, SendOutcome::Sent);
        s = s2;
        a = a2;
    }
    assert_eq!(mailed, vec![0, 1, 2]);
    assert_eq!(a, MailingAction::Finish(Ok(3)));
    assert_eq!(s, MailingState { next: 3, sent: 3 });
    let (s1, _) = mailing_step(3, MailingState { next: 0, sent: 0 }, SendOutcome::Sent);
    let (s2, a2) = mailing_step(3, s1, SendOutcome::TransportFailed);
    assert_eq!(s2, s1);
    assert_eq!(a2, MailingAction::Finish(Err(EmailError::Transport)));
    let (_, a3) = mailing_step(2, s1, SendOutcome::RelayFailed);
    assert_eq!(a3, MailingAction::Finish(Err(EmailError::Authentication)));
}

#[test]
fn mailbox_check() {
    assert!(mailbox_ok("Bot <bot@example.com>"));
    assert!(mailbox_ok("bot@example.com"));
    assert!(!mailbox_ok("nope"));
    assert!(!mailbox_ok("not an address"));
}

#[test]
fn auth_quick_message() {
    let a = Auth::new("bot@example.com".to_string(), "pw".to_string(), "Bot".to_string(), "smtp".to_string());
    assert_eq!(a.sender(), "Bot <bot@example.com>");
    assert_eq!(a.username(), "bot@example.com");
    assert_eq!(a.password(), "pw");
    assert_eq!(a.server(), "smtp");
    let built = a.quick_message("x@example.com", "the subject".to_string(), "<b>hello</b>".to_string());
    let text = String::from_utf8_lossy(&built.unwrap().message().formatted()).to_string();
    assert!(text.contains("bot@example.com"));
    assert!(text.contains("To: x@example.com"));
    assert!(text.contains("Subject: the subject"));
    assert!(text.contains("Content-Type: text/html; charset=utf-8"));
    assert!(text.contains("<b>hello</b>"));
    assert!(a.quick_message("nope", "s".to_string(), "b".to_string()).is_none());
    assert!(matches!(a.try_quick_message("x@example.com", "s".to_string(), "b".to_string()), Ok(Some(_))));
    assert!(matches!(a.try_quick_message("nope", "s".to_string(), "b".to_string()), Ok(None)));
    let bad_to = Auth::new("no at sign".to_string(), "pw".to_string(), "Bot".to_string(), "smtp".to_string());
    assert!(matches!(bad_to.try_quick_message("nope", "s".to_string(), "b".to_string()), Ok(None)));
    let bad = Auth::new("no at sign".to_string(), "pw".to_string(), "Bot".to_string(), "smtp".to_string());
    assert_eq!(
        bad.try_quick_message("x@example.com", "s".to_string(), "b".to_string()).err(),
        Some(PrepareError::InvalidSender)
    );
    assert!(bad.quick_message("nope", "s".to_string(), "b".to_string()).is_none());
}

#[test]
fn record_send_outcomes() {
    assert_eq!(record_send(3, SendOutcome::Sent), Ok(4));
    assert_eq!(record_send(3, SendOutcome::BuildFailed), Err(EmailError::MessageBuild));
    assert_eq!(record_send(3, SendOutcome::RelayFailed), Err(EmailError::Authentication));
    assert_eq!(record_send(3, SendOutcome::TransportFailed), Err(EmailError::Transport));
}

#[test]
fn send_time_parsing() {
    let t = SendTime::from_str("08:30");
    assert_eq!((t.hour(), t.minute()), (8, 30));
    assert!(t.is_time_at(8, 30));
    assert!(!t.is_time_at(8, 31));
    assert!(SendTime::try_from_str("8").is_none());
    assert!(SendTime::try_from_str("x:1").is_none());
    assert!(SendTime::try_from_str("1:y").is_none());
    let extra = SendTime::try_from_str("7:5:9").unwrap();
    assert_eq!((extra.hour(), extra.minute()), (7, 5));
    assert!(!SendTime::from_str("99:99").is_time());
}

#[test]
fn config_reading() {
    let data = ConfigData::parse(
        "factPath = facts.txt\ndataPath=./data\nemailListPath = users\nsendTime = 07:45\nsubject = Fact &1\nserver = smtp.x\nsenderName = Bot\nusername = bot@x\npassword = pw\nfactApi = TRUE\nwebServer = false\nwebUrl = https://x\nwebHost = 0.0.0.0\nwebPort = 99999\nwebhook_main = slack, c, t\n; comment\n",
    )
    .unwrap();
    assert_eq!(data.get_str("FACTPATH"), Some("facts.txt".to_string()));
    let c = Config::from_data(&data).unwrap();
    assert_eq!(c.fact_path, "facts.txt");
    assert_eq!(c.data_path, "./data");
    assert_eq!(c.user_path, "users");
    assert_eq!((c.send_time.hour(), c.send_time.minute()), (7, 45));
    assert!(c.fact_api);
    assert!(!c.web_server);
    assert_eq!(c.web_port, 8080);
    assert_eq!(c.web_ip, "0.0.0.0");
    assert_eq!(c.webhooks.len(), 1);
    assert_eq!(c.web_auth.sender(), "Bot <bot@x>");
    let f = Config::from_config(&data);
    assert_eq!(f.fact_path, "facts.txt");
    assert_eq!(f.web_url, "https://x");
    assert_eq!((f.send_time.hour(), f.send_time.minute()), (7, 45));
    assert_eq!(f.web_port, 8080);
}

#[test]
fn config_missing_and_later_entries() {
    let cfg = entries(&[("factpath", "a"), ("factpath", "b")]);
    assert_eq!(cfg.get_str("factPath"), Some("b".to_string()));
    assert_eq!(Config::from_data(&cfg).err(), Some(SettingError::MissingKey("dataPath".to_string())));
    let bad_time = entries(&[("factpath", "a"), ("datapath", "d"), ("emaillistpath", "u"), ("sendtime", "7")]);
    assert_eq!(Config::from_data(&bad_time).err(), Some(SettingError::InvalidSendTime));
    assert!(ConfigData::parse("no equals sign").is_none());
}

#[test]
fn send_gate_one_send_per_stretch() {
    let mut g = SendGate::new();
    assert!(!g.is_locked());
    assert!(g.tick(true, true));
    assert!(!g.tick(true, true));
    assert!(!g.tick(true, false));
    assert!(!g.is_locked());
    assert!(g.tick(true, true));
    assert!(!g.tick(false, false));
}

#[test]
fn send_gate_over_a_run() {
    let passes = [
        (false, false),
        (true, true),
        (true, true),
        (true, true),
        (false, false),
        (true, true),
        (true, false),
        (true, true),
        (true, true),
    ];
    let expected = [false, true, false, false, false, true, false, true, false];
    let mut g = SendGate::new();
    let mut sent = Vec::new();
    for (due, still_due) in passes {
        let send = g.begin_pass(due);
        g.end_pass(still_due);
        sent.push(send);
    }
    assert_eq!(sent, expected);
}

#[test]
fn epoch_days_and_templates() {
    assert_eq!(epoch_day(0), 0);
    assert_eq!(epoch_day(86399), 0);
    assert_eq!(epoch_day(86400), 1);
    assert_eq!(previous_epoch_day(172800), 1);
    assert_eq!(
        render_email("{{DATE}}: {{FOTD}} ({{BASE_URL}}/unsubscribe)", "2022-01-01", "Fact", "https://x"),
        "2022-01-01: Fact (https://x/unsubscribe)"
    );
    assert_eq!(render_subject("Fact of &1", "today"), "Fact of today");
}

#[test]
fn logger_helpers() {
    assert_eq!(remove_address_port("127.0.0.1:8080"), "127.0.0.1");
    assert_eq!(remove_address_port("localhost"), "localhost");
    assert_eq!(slash_path("a/b"), "/a/b");
    assert_eq!(slash_path("/a"), "/a");
    assert_eq!(slash_path(""), "/");
    assert_eq!(log_line("1.2.3.4:5", "GET", "fact"), "[1.2.3.4] GET /fact");
}

#[test]
fn static_paths() {
    assert_eq!(static_file_path("/"), "static//index.html");
    assert_eq!(static_file_path(""), "static/index.html");
    assert_eq!(static_file_path("style.css"), "static/style.css");
    assert_eq!(static_file_path("about"), "static/about/index.html");
    assert_eq!(static_file_path("docs/../secret"), "static/docs/secret/index.html");
    assert_eq!(static_file_path("a/"), "static/a/index.html");
}

#[test]
fn subscription_fields() {
    assert!(matches!(subscribe_email(None), FieldOutcome::Refused(f) if f.status == 400 && f.text == "Invalid Email"));
    assert!(matches!(subscribe_email(Some(String::new())), FieldOutcome::Refused(f) if f.text == "Email is empty"));
    assert!(matches!(subscribe_email(Some("Me%40X.com".to_string())), FieldOutcome::Accepted(e) if e == "me@x.com"));
    assert!(matches!(subscribe_email(Some("%zz".to_string())), FieldOutcome::Malformed));
    assert!(matches!(confirm_code(None), FieldOutcome::Refused(f) if f.text == "No Code supplied???"));
    assert!(matches!(confirm_code(Some(String::new())), FieldOutcome::Refused(f) if f.text == "Invalid Code"));
    assert!(matches!(confirm_code(Some("AbC".to_string())), FieldOutcome::Accepted(c) if c == "AbC"));
    assert!(matches!(confirmed_email(None), FieldOutcome::Refused(f) if f.text == "Invalid Code - Sorwy"));
    assert!(matches!(confirmed_email(Some("A@B".to_string())), FieldOutcome::Accepted(e) if e == "a@b"));
}

#[test]
fn unsubscribe_field_order() {
    assert!(matches!(unsubscribe_fields(None, None), Err(FieldOutcome::Refused(f)) if f.text == "Invalid Email"));
    assert!(matches!(unsubscribe_fields(Some("a@b".to_string()), None), Err(FieldOutcome::Refused(f)) if f.text == "Invalid Reason"));
    assert!(matches!(unsubscribe_fields(Some("a@b".to_string()), Some(String::new())), Err(FieldOutcome::Refused(f)) if f.text == "Invalid Reason"));
    let ok = unsubscribe_fields(Some("A%40B".to_string()), Some("too%20many".to_string())).ok().unwrap();
    assert_eq!(ok, ("a@b".to_string(), "too many".to_string()));
}

#[test]
fn subscriber_list_edits() {
    assert_eq!(add_subscriber("a@x\r\nb@x\n", "c@x"), Some("a@x\nb@x\nc@x".to_string()));
    assert_eq!(add_subscriber("", "c@x"), Some("c@x".to_string()));
    assert_eq!(add_subscriber("a@x\nc@x", "c@x"), None);
    assert_eq!(remove_subscriber("a@x\r\nb@x\nc@x\n", "b@x"), "a@x\nc@x\n");
}

#[test]
fn fact_api_helpers() {
    assert_eq!(fact_at_day("172800").ok(), Some(2));
    assert_eq!(fact_at_day("x").err().unwrap().text, "Epoch must be a USIZE");
    assert_eq!(fact_range_days("0", "86400").ok(), Some((0, 1)));
    assert_eq!(fact_range_days("a", "1").err().unwrap().text, "Start epoch must be a USIZE");
    assert_eq!(fact_range_days("1", "b").err().unwrap().text, "End epoch must be a USIZE");
    assert_eq!(fact_range_days("86400", "0").err().unwrap().text, "End epoch must be after the start epoch.");
    assert_eq!(history_params(None, None), Some((0, 20, 0)));
    assert_eq!(history_params(Some("3".to_string()), Some("10".to_string())), Some((3, 10, 30)));
    assert_eq!(history_params(Some("x".to_string()), None), None);
    assert!(is_widget_agent("iOS ScriptableWidget/1.0"));
    assert!(!is_widget_agent("Mozilla"));
    assert_eq!(render_fact_page("<p>{{FACT}}</p>", "Cats"), "<p>Cats</p>");
}

#[test]
fn random_codes_and_quotes() {
    let (code, url) = new_confirmation("https://x", false);
    assert_eq!(code.len(), 10);
    assert!(code.chars().all(|c| c.is_ascii_alphanumeric()));
    assert_eq!(url, format!("https://x/subscribe/confirm?code={}", code));
    let (code2, url2) = new_confirmation("https://x", true);
    assert_eq!(url2, format!("https://x/unsubscribe/confirm?code={}", code2));
    let q = random_quote();
    assert!(["Jesus", "Every Parent Ever", "Martin Luther King JR", "Abraham Lincon", "Mufasa"].contains(&q.author));
}

#[test]
fn process_date_days() {
    assert_eq!(process_date("2022-08-24"), 19228);
    assert_eq!(process_date("1970-01-01"), 0);
    assert_eq!(process_date("1969-12-31"), u32::MAX);
    assert_eq!(try_process_date("2022-02-30"), None);
    assert_eq!(try_process_date("2022-08"), None);
    assert_eq!(try_process_date("2022-08-x"), None);
}

#[test]
fn law_examples() {
    assert_eq!(slash_path(&slash_path("x/y")), slash_path("x/y"));
    assert_eq!(fotd_bot::url::decode_url_chars("caf%C3%A9%20%E2%9C%93"), "café ✓");
    assert!(is_subscribed("a@x\nb@x", "b@x"));
    assert!(!is_subscribed("a@x", "b@x"));
    let added = add_subscriber("a@x\n\n", "b@x").unwrap();
    assert!(added.ends_with("b@x"));
    assert_eq!(add_subscriber(&added, "b@x"), None);
}
