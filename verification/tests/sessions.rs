use playwright_rs::protocol::Cookie;
use salvis::session::{
    Session, SessionAction, SessionError, SessionEvent, LOGIN_URL, PROFILE_URL,
};

const SAVED: &str = "[{\"name\":\"sid\",\"value\":\"1\",\"domain\":\".znanium.ru\",\"path\":\"/\",\
                     \"expires\":-1.0,\"httpOnly\":false,\"secure\":true}]";

fn told(action: &SessionAction) -> String {
    match action {
        SessionAction::ReadCookies => "read cookies".to_string(),
        SessionAction::AddCookies { cookies } => {
            let names: Vec<String> =
                cookies.iter().map(|c| format!("{}={}@{}", c.name, c.value, c.domain)).collect();
            format!("add {}", names.join(" "))
        }
        SessionAction::OpenTab => "open".to_string(),
        SessionAction::Goto { url } => format!("goto {}", url),
        SessionAction::ReadUrl => "url?".to_string(),
        SessionAction::Fill { label, value } => format!("fill {}: {}", label, value),
        SessionAction::Click { label } => format!("click {}", label),
        SessionAction::WaitForUrl { url } => format!("wait {}", url),
        SessionAction::FetchCookies => "fetch".to_string(),
        SessionAction::WriteCookies { text } => format!("write {}", text),
        SessionAction::CloseTab => "close".to_string(),
        SessionAction::Finish { result: Ok(()) } => "ok".to_string(),
        SessionAction::Finish { result: Err(SessionError::Outside) } => "failed".to_string(),
        SessionAction::Finish { result: Err(SessionError::BrokenCookies { error }) } => {
            format!("broken at {}:{}", error.line(), error.column())
        }
        SessionAction::Finish { result: Err(SessionError::UnwritableCookies { error }) } => {
            format!("unwritable: {}", error)
        }
    }
}

fn run(events: Vec<SessionEvent>) -> Vec<String> {
    let (mut session, first) = Session::start("user", "secret");
    let mut actions = vec![told(&first)];
    for event in events {
        assert!(session.expects(&event));
        actions.push(told(&session.step(event)));
    }
    actions
}

fn at(url: &str) -> SessionEvent {
    SessionEvent::Url(url.to_string())
}

fn cookies(raw: &str) -> SessionEvent {
    SessionEvent::Cookies(Some(raw.to_string()))
}

fn fetched() -> SessionEvent {
    SessionEvent::Fetched(vec![
        Cookie::new("sid", "2").domain(".znanium.ru").secure(true),
        Cookie::new("\u{43a}\"", "").domain("znanium.ru").expires(12.5),
    ])
}

const LOG_IN: [&str; 8] = [
    "fill Логин или Email: user",
    "fill Пароль: secret",
    "click Вход",
    "wait https://znanium.ru/user/my-profile",
    "fetch",
    "write [{\"name\":\"sid\",\"value\":\"2\",\"domain\":\".znanium.ru\",\"path\":\"/\",\
     \"expires\":-1.0,\"httpOnly\":false,\"secure\":true},\
     {\"name\":\"\u{43a}\\\"\",\"value\":\"\",\"domain\":\"znanium.ru\",\"path\":\"/\",\
     \"expires\":12.5,\"httpOnly\":false,\"secure\":false}]",
    "close",
    "ok",
];

#[test]
fn good_session_is_used() {
    let actions = run(vec![
        cookies(SAVED),
        SessionEvent::Done,
        SessionEvent::Done,
        SessionEvent::Done,
        at(PROFILE_URL),
        SessionEvent::Done,
    ]);
    assert_eq!(
        actions,
        vec![
            "read cookies",
            "add sid=1@.znanium.ru",
            "open",
            "goto https://znanium.ru/user/my-profile",
            "url?",
            "close",
            "ok"
        ]
    );
}

#[test]
fn expired_session_logs_in() {
    let actions = run(vec![
        cookies(SAVED),
        SessionEvent::Done,
        SessionEvent::Done,
        SessionEvent::Done,
        at(LOGIN_URL),
        at(LOGIN_URL),
        SessionEvent::Done,
        SessionEvent::Done,
        SessionEvent::Done,
        SessionEvent::Done,
        fetched(),
        SessionEvent::Done,
        SessionEvent::Done,
    ]);
    assert_eq!(actions[4..6], ["url?", "url?"]);
    assert_eq!(actions[6..], LOG_IN);
}

#[test]
fn missing_session_logs_in() {
    let actions = run(vec![
        SessionEvent::Cookies(None),
        SessionEvent::Done,
        SessionEvent::Done,
        at("https://znanium.ru/site/login"),
        SessionEvent::Done,
        SessionEvent::Done,
        SessionEvent::Done,
        SessionEvent::Done,
        fetched(),
        SessionEvent::Done,
        SessionEvent::Done,
    ]);
    assert_eq!(
        actions[..4],
        ["read cookies", "open", "goto https://znanium.ru/user/my-profile", "url?"]
    );
    assert_eq!(actions[4..], LOG_IN);
}

#[test]
fn other_pages_need_no_log_in() {
    let start = || vec![SessionEvent::Cookies(None), SessionEvent::Done, SessionEvent::Done];
    for url in [PROFILE_URL, "https://znanium.ru/", ""] {
        let mut events = start();
        events.push(at(url));
        events.push(SessionEvent::Done);
        assert_eq!(run(events)[4..], ["close", "ok"]);
    }
    let actions = run(vec![
        cookies("[]"),
        SessionEvent::Done,
        SessionEvent::Done,
        SessionEvent::Done,
        at("https://znanium.ru/"),
        at("https://znanium.ru/"),
        SessionEvent::Done,
    ]);
    assert_eq!(actions[5..], ["url?", "close", "ok"]);
}

#[test]
fn failures_end_the_session() {
    for done in 0..5 {
        let mut events = vec![SessionEvent::Cookies(None), SessionEvent::Done, SessionEvent::Done, at(LOGIN_URL)];
        for _ in 0..done {
            events.push(SessionEvent::Done);
        }
        events.push(SessionEvent::Failed);
        let actions = run(events);
        assert_eq!(actions.last().map(String::as_str), Some("failed"));
        assert!(!actions.iter().any(|action| action.starts_with("write")));
    }
    assert_eq!(run(vec![cookies("[]"), SessionEvent::Failed]).last().map(String::as_str), Some("failed"));
}

#[test]
fn sessions_expect_what_they_wait_for() {
    let (mut session, _) = Session::start("u", "p");
    assert!(session.expects(&SessionEvent::Cookies(None)));
    assert!(!session.expects(&SessionEvent::Done));
    assert!(!session.expects(&SessionEvent::Failed));
    session.step(SessionEvent::Cookies(None));
    assert!(session.expects(&SessionEvent::Done));
    assert!(session.expects(&SessionEvent::Failed));
    assert!(!session.expects(&at(LOGIN_URL)));
    session.step(SessionEvent::Failed);
    assert!(!session.expects(&SessionEvent::Done));
    assert!(!session.expects(&SessionEvent::Failed));
}

#[test]
fn broken_files_end_the_session() {
    assert_eq!(run(vec![cookies("?")]), vec!["read cookies", "broken at 1:1"]);
    assert_eq!(run(vec![cookies("")]), vec!["read cookies", "broken at 1:0"]);
    assert_eq!(run(vec![cookies("[\n{\"name\":\"a\"}]")]), vec!["read cookies", "broken at 2:12"]);
}

#[test]
fn written_sessions_are_read_again() {
    let text = LOG_IN[5].trim_start_matches("write ");
    assert_eq!(run(vec![cookies(text)])[1], "add sid=2@.znanium.ru \u{43a}\"=@znanium.ru");
}

#[test]
fn plain_sessions_are_read_back_as_they_were() {
    let session = || {
        vec![
            Cookie::new("b", "\u{44f}\n\"\\").domain("a").expires(1700000001.0).same_site("Lax"),
            Cookie::new("a", "").domain("b").expires(-1.0).http_only(true),
            Cookie::new("a", "").domain("b").path("/x").expires(100000000000000.0),
            Cookie::new("c", "d").domain("e").expires(0.0),
        ]
    };
    let (mut first, _) = Session::start("user", "secret");
    let mut events = vec![SessionEvent::Cookies(None), SessionEvent::Done, SessionEvent::Done, at(LOGIN_URL)];
    for _ in 0..4 {
        events.push(SessionEvent::Done);
    }
    for event in events {
        first.step(event);
    }
    let text = match first.step(SessionEvent::Fetched(session())) {
        SessionAction::WriteCookies { text } => text,
        _ => panic!(),
    };
    let (mut second, _) = Session::start("user", "secret");
    match second.step(cookies(&text)) {
        SessionAction::AddCookies { cookies } => {
            assert_eq!(format!("{:?}", cookies), format!("{:?}", session()));
        }
        _ => panic!(),
    }
}
