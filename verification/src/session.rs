//! Getting into the account.
//!
//! A saved session is tried first; a file that does not hold one ends the work.
//! Where the site asks for the password, the form
//! is filled in and the new session is saved. What is to be done next is decided
//! here; the browser and the files are worked from outside, which reports back
//! what came of it.
use crate::cookies::{all_plain, cookies_text, cookies_told, cookies_written, parse_cookies};
use playwright_rs::protocol::Cookie;
use vstd::prelude::*;

verus! {

/// The page of the account, which only a visitor who is logged in gets to see.
pub const PROFILE_URL: &'static str = "https://znanium.ru/user/my-profile";

/// The page with the form to log in.
pub const LOGIN_URL: &'static str = "https://znanium.ru/site/login";

/// Why the work did not go well.
pub enum SessionError {
    /// The file of the saved session does not hold one.
    BrokenCookies { error: serde_json::Error },
    /// The session of the browser cannot be written down.
    UnwritableCookies { error: serde_json::Error },
    /// The last thing that was done failed.
    Outside,
}

/// What is to be done next.
pub enum SessionAction {
    /// Read the file of the saved session.
    ReadCookies,
    /// Hand the saved session to the browser.
    AddCookies { cookies: Vec<Cookie> },
    /// Open a tab.
    OpenTab,
    /// Go to a page.
    Goto { url: String },
    /// Tell where the tab is.
    ReadUrl,
    /// Type a text into the field with a label.
    Fill { label: String, value: String },
    /// Press the button with a label.
    Click { label: String },
    /// Wait until the tab is at a page.
    WaitForUrl { url: String },
    /// Tell the session of the browser.
    FetchCookies,
    /// Write the file of the saved session.
    WriteCookies { text: String },
    /// Close the tab.
    CloseTab,
    /// Stop.
    Finish { result: Result<(), SessionError> },
}

/// What a [`SessionAction`] stands for.
pub enum SessionActionView {
    ReadCookies,
    AddCookies { cookies: Seq<Cookie> },
    OpenTab,
    Goto { url: Seq<char> },
    ReadUrl,
    Fill { label: Seq<char>, value: Seq<char> },
    Click { label: Seq<char> },
    WaitForUrl { url: Seq<char> },
    FetchCookies,
    WriteCookies { text: Seq<char> },
    CloseTab,
    Finish { result: Result<(), SessionError> },
}

impl View for SessionAction {
    type V = SessionActionView;

    open spec fn view(&self) -> SessionActionView {
        match *self {
            SessionAction::ReadCookies => SessionActionView::ReadCookies,
            SessionAction::AddCookies { cookies } => SessionActionView::AddCookies {
                cookies: cookies@,
            },
            SessionAction::OpenTab => SessionActionView::OpenTab,
            SessionAction::Goto { url } => SessionActionView::Goto { url: url@ },
            SessionAction::ReadUrl => SessionActionView::ReadUrl,
            SessionAction::Fill { label, value } => SessionActionView::Fill {
                label: label@,
                value: value@,
            },
            SessionAction::Click { label } => SessionActionView::Click { label: label@ },
            SessionAction::WaitForUrl { url } => SessionActionView::WaitForUrl { url: url@ },
            SessionAction::FetchCookies => SessionActionView::FetchCookies,
            SessionAction::WriteCookies { text } => SessionActionView::WriteCookies { text: text@ },
            SessionAction::CloseTab => SessionActionView::CloseTab,
            SessionAction::Finish { result } => SessionActionView::Finish { result },
        }
    }
}

/// What came of an action.
pub enum SessionEvent {
    /// The file of the saved session, if there is one that can be read.
    Cookies(Option<String>),
    /// Where the tab is.
    Url(String),
    /// The session of the browser.
    Fetched(Vec<Cookie>),
    /// It was done.
    Done,
    /// It failed.
    Failed,
}

/// What a [`SessionEvent`] stands for.
pub enum SessionEventView {
    Cookies(Option<Seq<char>>),
    Url(Seq<char>),
    Fetched(Seq<Cookie>),
    Done,
    Failed,
}

impl View for SessionEvent {
    type V = SessionEventView;

    open spec fn view(&self) -> SessionEventView {
        match *self {
            SessionEvent::Cookies(Some(raw)) => SessionEventView::Cookies(Some(raw@)),
            SessionEvent::Cookies(None) => SessionEventView::Cookies(None),
            SessionEvent::Url(url) => SessionEventView::Url(url@),
            SessionEvent::Fetched(cookies) => SessionEventView::Fetched(cookies@),
            SessionEvent::Done => SessionEventView::Done,
            SessionEvent::Failed => SessionEventView::Failed,
        }
    }
}

/// How far the work has got: what is being waited for. `saved` tells whether there
/// was a saved session.
#[derive(Clone, Copy)]
pub enum SessionStage {
    ReadingCookies,
    AddingCookies,
    OpeningTab { saved: bool },
    GoingToProfile { saved: bool },
    CheckingProfile,
    CheckingLogin,
    FillingLogin,
    FillingPassword,
    Clicking,
    WaitingForProfile,
    FetchingCookies,
    WritingCookies,
    ClosingTab,
    Ended,
}

/// The login and the password.
pub struct Credentials {
    pub login: Seq<char>,
    pub password: Seq<char>,
}

/// Whether `event` can come of what is being waited for.
pub open spec fn session_expects(stage: SessionStage, event: SessionEventView) -> bool {
    match stage {
        SessionStage::ReadingCookies => event is Cookies,
        SessionStage::CheckingProfile => event is Url,
        SessionStage::CheckingLogin => event is Url,
        SessionStage::FetchingCookies => event is Fetched || event is Failed,
        SessionStage::Ended => false,
        _ => event is Done || event is Failed,
    }
}

/// The work ends.
pub open spec fn session_ended(result: Result<(), SessionError>) -> (
    SessionStage,
    SessionActionView,
) {
    (SessionStage::Ended, SessionActionView::Finish { result })
}

/// What follows when `event` comes at `stage`.
pub open spec fn session_step(
    credentials: Credentials,
    stage: SessionStage,
    event: SessionEventView,
) -> (SessionStage, SessionActionView) {
    if event is Failed {
        session_ended(Err(SessionError::Outside))
    } else {
        match stage {
            SessionStage::ReadingCookies => match event {
                SessionEventView::Cookies(Some(raw)) => match cookies_told(raw) {
                    Ok(cookies) => (
                        SessionStage::AddingCookies,
                        SessionActionView::AddCookies { cookies },
                    ),
                    Err(error) => session_ended(Err(SessionError::BrokenCookies { error })),
                },
                _ => (SessionStage::OpeningTab { saved: false }, SessionActionView::OpenTab),
            },
            SessionStage::AddingCookies => (
                SessionStage::OpeningTab { saved: true },
                SessionActionView::OpenTab,
            ),
            SessionStage::OpeningTab { saved } => (
                SessionStage::GoingToProfile { saved },
                SessionActionView::Goto { url: PROFILE_URL@ },
            ),
            SessionStage::GoingToProfile { saved } => (
                if saved {
                    SessionStage::CheckingProfile
                } else {
                    SessionStage::CheckingLogin
                },
                SessionActionView::ReadUrl,
            ),
            SessionStage::CheckingProfile => if event == SessionEventView::Url(PROFILE_URL@) {
                (SessionStage::ClosingTab, SessionActionView::CloseTab)
            } else {
                (SessionStage::CheckingLogin, SessionActionView::ReadUrl)
            },
            SessionStage::CheckingLogin => if event == SessionEventView::Url(LOGIN_URL@) {
                (
                    SessionStage::FillingLogin,
                    SessionActionView::Fill {
                        label: "Логин или Email"@,
                        value: credentials.login,
                    },
                )
            } else {
                (SessionStage::ClosingTab, SessionActionView::CloseTab)
            },
            SessionStage::FillingLogin => (
                SessionStage::FillingPassword,
                SessionActionView::Fill { label: "Пароль"@, value: credentials.password },
            ),
            SessionStage::FillingPassword => (
                SessionStage::Clicking,
                SessionActionView::Click { label: "Вход"@ },
            ),
            SessionStage::Clicking => (
                SessionStage::WaitingForProfile,
                SessionActionView::WaitForUrl { url: PROFILE_URL@ },
            ),
            SessionStage::WaitingForProfile => (
                SessionStage::FetchingCookies,
                SessionActionView::FetchCookies,
            ),
            SessionStage::FetchingCookies => match event {
                SessionEventView::Fetched(cookies) => match cookies_written(cookies) {
                    Ok(text) => (
                        SessionStage::WritingCookies,
                        SessionActionView::WriteCookies { text },
                    ),
                    Err(error) => session_ended(Err(SessionError::UnwritableCookies { error })),
                },
                _ => session_ended(Err(SessionError::Outside)),
            },
            SessionStage::WritingCookies => (SessionStage::ClosingTab, SessionActionView::CloseTab),
            SessionStage::ClosingTab => session_ended(Ok(())),
            SessionStage::Ended => session_ended(Err(SessionError::Outside)),
        }
    }
}

/// The work of getting into the account.
pub struct Session {
    login: String,
    password: String,
    stage: SessionStage,
}

fn same_text(a: &String, b: &str) -> (r: bool)
    ensures
        r == (a@ == b@),
{
    *a == b.to_owned()
}

impl Session {
    /// The login and the password that the work is done with.
    pub closed spec fn credentials(self) -> Credentials {
        Credentials { login: self.login@, password: self.password@ }
    }

    /// What is being waited for.
    pub closed spec fn stage(self) -> SessionStage {
        self.stage
    }

    /// The start of the work, and what is to be done first.
    pub fn start(login: &str, password: &str) -> (r: (Session, SessionAction))
        ensures
            r.0.credentials() == (Credentials { login: login@, password: password@ }),
            r.0.stage() == SessionStage::ReadingCookies,
            r.1@ == SessionActionView::ReadCookies,
    {
        (
            Session {
                login: login.to_owned(),
                password: password.to_owned(),
                stage: SessionStage::ReadingCookies,
            },
            SessionAction::ReadCookies,
        )
    }

    /// Whether `event` can come of what is being waited for.
    pub fn expects(&self, event: &SessionEvent) -> (r: bool)
        ensures
            r == session_expects(self.stage(), event@),
    {
        match self.stage {
            SessionStage::ReadingCookies => matches!(event, SessionEvent::Cookies(_)),
            SessionStage::CheckingProfile => matches!(event, SessionEvent::Url(_)),
            SessionStage::CheckingLogin => matches!(event, SessionEvent::Url(_)),
            SessionStage::FetchingCookies => matches!(
                event,
                SessionEvent::Fetched(_) | SessionEvent::Failed
            ),
            SessionStage::Ended => false,
            _ => matches!(event, SessionEvent::Done | SessionEvent::Failed),
        }
    }

    /// Takes what came of the last action and tells what is to be done next. When a
    /// session of plain cookies is written down, the text tells just these cookies,
    /// in the same order: they are what a later run hands to the browser.
    pub fn step(&mut self, event: SessionEvent) -> (r: SessionAction)
        requires
            session_expects(old(self).stage(), event@),
        ensures
            final(self).credentials() == old(self).credentials(),
            (final(self).stage(), r@) == session_step(
                old(self).credentials(),
                old(self).stage(),
                event@,
            ),
            match (event@, r@) {
                (
                    SessionEventView::Fetched(cookies),
                    SessionActionView::WriteCookies { text },
                ) => all_plain(cookies) ==> cookies_told(text) == Ok::<
                    Seq<Cookie>,
                    serde_json::Error,
                >(cookies),
                _ => true,
            },
    {
        let (stage, action) = match (self.stage, event) {
            (_, SessionEvent::Failed) => (
                SessionStage::Ended,
                SessionAction::Finish { result: Err(SessionError::Outside) },
            ),
            (SessionStage::ReadingCookies, SessionEvent::Cookies(Some(raw))) => match parse_cookies(
                raw.as_str(),
            ) {
                Ok(cookies) => (
                    SessionStage::AddingCookies,
                    SessionAction::AddCookies { cookies },
                ),
                Err(error) => (
                    SessionStage::Ended,
                    SessionAction::Finish { result: Err(SessionError::BrokenCookies { error }) },
                ),
            },
            (SessionStage::ReadingCookies, _) => (
                SessionStage::OpeningTab { saved: false },
                SessionAction::OpenTab,
            ),
            (SessionStage::AddingCookies, _) => (
                SessionStage::OpeningTab { saved: true },
                SessionAction::OpenTab,
            ),
            (SessionStage::OpeningTab { saved }, _) => (
                SessionStage::GoingToProfile { saved },
                SessionAction::Goto { url: PROFILE_URL.to_owned() },
            ),
            (SessionStage::GoingToProfile { saved }, _) => (
                if saved {
                    SessionStage::CheckingProfile
                } else {
                    SessionStage::CheckingLogin
                },
                SessionAction::ReadUrl,
            ),
            (SessionStage::CheckingProfile, SessionEvent::Url(url)) => if same_text(
                &url,
                PROFILE_URL,
            ) {
                (SessionStage::ClosingTab, SessionAction::CloseTab)
            } else {
                (SessionStage::CheckingLogin, SessionAction::ReadUrl)
            },
            (SessionStage::CheckingLogin, SessionEvent::Url(url)) => if same_text(
                &url,
                LOGIN_URL,
            ) {
                (
                    SessionStage::FillingLogin,
                    SessionAction::Fill {
                        label: "Логин или Email".to_owned(),
                        value: self.login.clone(),
                    },
                )
            } else {
                (SessionStage::ClosingTab, SessionAction::CloseTab)
            },
            (SessionStage::FillingLogin, _) => (
                SessionStage::FillingPassword,
                SessionAction::Fill { label: "Пароль".to_owned(), value: self.password.clone() },
            ),
            (SessionStage::FillingPassword, _) => (
                SessionStage::Clicking,
                SessionAction::Click { label: "Вход".to_owned() },
            ),
            (SessionStage::Clicking, _) => (
                SessionStage::WaitingForProfile,
                SessionAction::WaitForUrl { url: PROFILE_URL.to_owned() },
            ),
            (SessionStage::WaitingForProfile, _) => (
                SessionStage::FetchingCookies,
                SessionAction::FetchCookies,
            ),
            (SessionStage::FetchingCookies, SessionEvent::Fetched(cookies)) => match cookies_text(
                &cookies,
            ) {
                Ok(text) => (SessionStage::WritingCookies, SessionAction::WriteCookies { text }),
                Err(error) => (
                    SessionStage::Ended,
                    SessionAction::Finish { result: Err(SessionError::UnwritableCookies { error }) },
                ),
            },
            (SessionStage::WritingCookies, _) => (
                SessionStage::ClosingTab,
                SessionAction::CloseTab,
            ),
            (SessionStage::ClosingTab, _) => (
                SessionStage::Ended,
                SessionAction::Finish { result: Ok(()) },
            ),
            (_, _) => (
                SessionStage::Ended,
                SessionAction::Finish { result: Err(SessionError::Outside) },
            ),
        };
        self.stage = stage;
        action
    }
}

/// Where the work stands after `events`, and all that was to be done so far.
pub open spec fn session_run(credentials: Credentials, events: Seq<SessionEventView>) -> (
    SessionStage,
    Seq<SessionActionView>,
)
    decreases events.len(),
{
    if events.len() == 0 {
        (SessionStage::ReadingCookies, seq![SessionActionView::ReadCookies])
    } else {
        let (stage, actions) = session_run(credentials, events.drop_last());
        let (next, action) = session_step(credentials, stage, events.last());
        (next, actions.push(action))
    }
}

/// Whether each of `events` can come of what is being waited for when it comes.
pub open spec fn session_accepts(credentials: Credentials, events: Seq<SessionEventView>) -> bool
    decreases events.len(),
{
    events.len() > 0 ==> {
        &&& session_accepts(credentials, events.drop_last())
        &&& session_expects(session_run(credentials, events.drop_last()).0, events.last())
    }
}

/// How many steps may still come.
pub open spec fn steps_left(stage: SessionStage) -> nat {
    match stage {
        SessionStage::ReadingCookies => 13,
        SessionStage::AddingCookies => 12,
        SessionStage::OpeningTab { .. } => 11,
        SessionStage::GoingToProfile { .. } => 10,
        SessionStage::CheckingProfile => 9,
        SessionStage::CheckingLogin => 8,
        SessionStage::FillingLogin => 7,
        SessionStage::FillingPassword => 6,
        SessionStage::Clicking => 5,
        SessionStage::WaitingForProfile => 4,
        SessionStage::FetchingCookies => 3,
        SessionStage::WritingCookies => 2,
        SessionStage::ClosingTab => 1,
        SessionStage::Ended => 0,
    }
}

/// Every step brings the work nearer to its end, where nothing is waited for any
/// more.
pub proof fn session_comes_to_an_end(
    credentials: Credentials,
    stage: SessionStage,
    event: SessionEventView,
)
    requires
        session_expects(stage, event),
    ensures
        steps_left(session_step(credentials, stage, event).0) < steps_left(stage),
        session_step(credentials, stage, event).0 is Ended <==> session_step(
            credentials,
            stage,
            event,
        ).1 is Finish,
{
}

/// The first failure ends the work, and nothing more is done.
pub proof fn session_stops_at_failure(credentials: Credentials, stage: SessionStage)
    ensures
        session_step(credentials, stage, SessionEventView::Failed) == (
            SessionStage::Ended,
            SessionActionView::Finish { result: Err(SessionError::Outside) },
        ),
{
}

/// A file that does not hold a session ends the work at once, with an error that
/// says so: no tab is opened, and the browser is left alone.
pub proof fn broken_session_is_reported(
    credentials: Credentials,
    raw: Seq<char>,
    error: serde_json::Error,
)
    ensures
        cookies_told(raw) == Err::<Seq<Cookie>, serde_json::Error>(error) ==> session_run(
            credentials,
            seq![SessionEventView::Cookies(Some(raw))],
        ) == (
            SessionStage::Ended,
            seq![
                SessionActionView::ReadCookies,
                SessionActionView::Finish { result: Err(SessionError::BrokenCookies { error }) },
            ],
        ),
{
    let events = seq![SessionEventView::Cookies(Some(raw))];
    assert(events.drop_last() =~= seq![]);
    reveal_with_fuel(session_run, 2);
    assert(session_run(credentials, seq![]).1 =~= seq![SessionActionView::ReadCookies]);
    if cookies_told(raw) == Err::<Seq<Cookie>, serde_json::Error>(error) {
        assert(session_run(credentials, events).1 =~= seq![
            SessionActionView::ReadCookies,
            SessionActionView::Finish { result: Err(SessionError::BrokenCookies { error }) },
        ]);
    }
}

/// Whether the form is being filled in, sent, or what comes of it awaited, and how
/// many steps after the tab was found at the form.
pub open spec fn login_steps(stage: SessionStage) -> Option<nat> {
    match stage {
        SessionStage::FillingLogin => Some(0),
        SessionStage::FillingPassword => Some(1),
        SessionStage::Clicking => Some(2),
        SessionStage::WaitingForProfile => Some(3),
        SessionStage::FetchingCookies => Some(4),
        SessionStage::WritingCookies => Some(5),
        _ => None,
    }
}

proof fn lemma_login(credentials: Credentials, events: Seq<SessionEventView>)
    requires
        session_accepts(credentials, events),
    ensures
        session_run(credentials, events).1.len() == events.len() + 1,
        login_steps(session_run(credentials, events).0) matches Some(k) ==> {
            let actions = session_run(credentials, events).1;
            let start = events.len() - 1 - k;
            &&& start >= 0
            &&& events[start] == SessionEventView::Url(LOGIN_URL@)
            &&& forall|i: int|
                start < i < events.len() && i <= start + 4 ==> #[trigger] events[i] is Done
            &&& k >= 5 ==> (events[start + 5] matches SessionEventView::Fetched(cookies)
                && cookies_written(cookies) == Ok::<Seq<char>, serde_json::Error>(
                (actions[start + 6])->WriteCookies_text,
            ))
            &&& actions[start + 1] == (SessionActionView::Fill {
                label: "Логин или Email"@,
                value: credentials.login,
            })
            &&& k >= 1 ==> actions[start + 2] == (SessionActionView::Fill {
                label: "Пароль"@,
                value: credentials.password,
            })
            &&& k >= 2 ==> actions[start + 3] == (SessionActionView::Click { label: "Вход"@ })
            &&& k >= 3 ==> actions[start + 4] == (SessionActionView::WaitForUrl {
                url: PROFILE_URL@,
            })
            &&& k >= 4 ==> actions[start + 5] == SessionActionView::FetchCookies
        },
    decreases events.len(),
{
    if events.len() > 0 {
        let before = events.drop_last();
        lemma_login(credentials, before);
        let (stage, actions) = session_run(credentials, before);
        let (next, action) = session_step(credentials, stage, events.last());
        assert(session_run(credentials, events) == (next, actions.push(action)));
        if let Some(k) = login_steps(next) {
            let start = events.len() - 1 - k;
            if k > 0 {
                assert(login_steps(stage) == Some((k - 1) as nat));
                assert(before[start] == events[start]);
                assert forall|i: int|
                    start < i < events.len() && i <= start + 4 implies #[trigger] events[i] is Done by {
                    if i < before.len() {
                        assert(before[i] == events[i]);
                    }
                }
            }
        }
    }
}

/// The login and the password are typed in only where the tab was found at the
/// form.
pub proof fn password_goes_to_the_form(credentials: Credentials, events: Seq<SessionEventView>)
    requires
        session_accepts(credentials, events),
        session_run(credentials, events).1.last() is Fill,
    ensures
        exists|i: int|
            events.len() - 2 <= i < events.len() && 0 <= i && #[trigger] events[i]
                == SessionEventView::Url(LOGIN_URL@),
{
    lemma_login(credentials, events);
    if events.len() > 0 {
        lemma_login(credentials, events.drop_last());
        let k = login_steps(session_run(credentials, events).0)->0;
        assert(events[events.len() - 1 - k] == SessionEventView::Url(LOGIN_URL@));
    }
}

/// The session is saved only after the form was found, filled in and sent, and
/// the page of the account was reached, each of these without a failure; and what
/// is written is the session that the browser told then.
pub proof fn saved_after_login(credentials: Credentials, events: Seq<SessionEventView>)
    requires
        session_accepts(credentials, events),
        session_run(credentials, events).1.last() is WriteCookies,
    ensures
        ({
            let actions = session_run(credentials, events).1;
            let n = events.len() as int;
            &&& n >= 6
            &&& events[n - 6] == SessionEventView::Url(LOGIN_URL@)
            &&& events[n - 5] is Done && events[n - 4] is Done && events[n - 3] is Done
                && events[n - 2] is Done
            &&& actions[n - 5] == (SessionActionView::Fill {
                label: "Логин или Email"@,
                value: credentials.login,
            })
            &&& actions[n - 4] == (SessionActionView::Fill {
                label: "Пароль"@,
                value: credentials.password,
            })
            &&& actions[n - 3] == (SessionActionView::Click { label: "Вход"@ })
            &&& actions[n - 2] == (SessionActionView::WaitForUrl { url: PROFILE_URL@ })
            &&& actions[n - 1] == SessionActionView::FetchCookies
            &&& events[n - 1] matches SessionEventView::Fetched(cookies) && cookies_written(cookies)
                == Ok::<Seq<char>, serde_json::Error>((actions[n])->WriteCookies_text)
        }),
{
    lemma_login(credentials, events);
    if events.len() > 0 {
        lemma_login(credentials, events.drop_last());
    }
}

/// One more event.
proof fn lemma_one_more(
    credentials: Credentials,
    events: Seq<SessionEventView>,
    event: SessionEventView,
)
    ensures
        session_run(credentials, events.push(event)) == ({
            let (stage, actions) = session_run(credentials, events);
            let (next, action) = session_step(credentials, stage, event);
            (next, actions.push(action))
        }),
        session_accepts(credentials, events.push(event)) <==> session_accepts(credentials, events)
            && session_expects(session_run(credentials, events).0, event),
{
    assert(events.push(event).drop_last() =~= events);
}

/// The events of a run with a saved session, up to where the tab has gone to the
/// page of the account.
pub open spec fn saved_start(raw: Seq<char>) -> Seq<SessionEventView> {
    Seq::empty().push(SessionEventView::Cookies(Some(raw))).push(SessionEventView::Done).push(
        SessionEventView::Done,
    ).push(SessionEventView::Done)
}

/// What is to be done up to there.
pub open spec fn saved_start_actions(cookies: Seq<Cookie>) -> Seq<SessionActionView> {
    seq![
        SessionActionView::ReadCookies,
        SessionActionView::AddCookies { cookies },
        SessionActionView::OpenTab,
        SessionActionView::Goto { url: PROFILE_URL@ },
        SessionActionView::ReadUrl,
    ]
}

/// The events of a run without a saved session, up to where the tab has gone to
/// the page of the account.
pub open spec fn unsaved_start() -> Seq<SessionEventView> {
    Seq::empty().push(SessionEventView::Cookies(None)).push(SessionEventView::Done).push(
        SessionEventView::Done,
    )
}

/// What is to be done up to there.
pub open spec fn unsaved_start_actions() -> Seq<SessionActionView> {
    seq![
        SessionActionView::ReadCookies,
        SessionActionView::OpenTab,
        SessionActionView::Goto { url: PROFILE_URL@ },
        SessionActionView::ReadUrl,
    ]
}

proof fn lemma_saved_start(credentials: Credentials, raw: Seq<char>, cookies: Seq<Cookie>)
    requires
        cookies_told(raw) == Ok::<Seq<Cookie>, serde_json::Error>(cookies),
    ensures
        session_accepts(credentials, saved_start(raw)),
        session_run(credentials, saved_start(raw)) == (
            SessionStage::CheckingProfile,
            saved_start_actions(cookies),
        ),
{
    let e0: Seq<SessionEventView> = Seq::empty();
    let e1 = e0.push(SessionEventView::Cookies(Some(raw)));
    let e2 = e1.push(SessionEventView::Done);
    let e3 = e2.push(SessionEventView::Done);
    lemma_one_more(credentials, e0, SessionEventView::Cookies(Some(raw)));
    lemma_one_more(credentials, e1, SessionEventView::Done);
    lemma_one_more(credentials, e2, SessionEventView::Done);
    lemma_one_more(credentials, e3, SessionEventView::Done);
    assert(session_run(credentials, saved_start(raw)).1 =~= saved_start_actions(cookies));
}

proof fn lemma_unsaved_start(credentials: Credentials)
    ensures
        session_accepts(credentials, unsaved_start()),
        session_run(credentials, unsaved_start()) == (
            SessionStage::CheckingLogin,
            unsaved_start_actions(),
        ),
{
    let e0: Seq<SessionEventView> = Seq::empty();
    let e1 = e0.push(SessionEventView::Cookies(None));
    let e2 = e1.push(SessionEventView::Done);
    lemma_one_more(credentials, e0, SessionEventView::Cookies(None));
    lemma_one_more(credentials, e1, SessionEventView::Done);
    lemma_one_more(credentials, e2, SessionEventView::Done);
    assert(session_run(credentials, unsaved_start()).1 =~= unsaved_start_actions());
}

/// A saved session that is still good is used as it is: its cookies are handed to
/// the browser, the tab is at the page of the account, is closed, and nobody logs
/// in.
pub proof fn good_session_is_kept(
    credentials: Credentials,
    raw: Seq<char>,
    cookies: Seq<Cookie>,
)
    ensures
        cookies_told(raw) == Ok::<Seq<Cookie>, serde_json::Error>(cookies) ==> {
            let events = saved_start(raw).push(SessionEventView::Url(PROFILE_URL@)).push(
                SessionEventView::Done,
            );
            &&& session_accepts(credentials, events)
            &&& session_run(credentials, events) == (
                SessionStage::Ended,
                saved_start_actions(cookies).push(SessionActionView::CloseTab).push(
                    SessionActionView::Finish { result: Ok(()) },
                ),
            )
        },
{
    if cookies_told(raw) == Ok::<Seq<Cookie>, serde_json::Error>(cookies) {
        lemma_saved_start(credentials, raw, cookies);
        let e = saved_start(raw);
        lemma_one_more(credentials, e, SessionEventView::Url(PROFILE_URL@));
        lemma_one_more(
            credentials,
            e.push(SessionEventView::Url(PROFILE_URL@)),
            SessionEventView::Done,
        );
    }
}

/// The events of a log in that goes well, from the tab at the form on; `session` is
/// the session of the browser after it.
pub open spec fn login_events(
    events: Seq<SessionEventView>,
    session: Seq<Cookie>,
) -> Seq<SessionEventView> {
    events.push(SessionEventView::Url(LOGIN_URL@)).push(SessionEventView::Done).push(
        SessionEventView::Done,
    ).push(SessionEventView::Done).push(SessionEventView::Done).push(
        SessionEventView::Fetched(session),
    ).push(SessionEventView::Done).push(SessionEventView::Done)
}

/// What is to be done to log in, from the tab at the form on, when `text` tells the
/// session of the browser after it.
pub open spec fn login_actions(
    credentials: Credentials,
    actions: Seq<SessionActionView>,
    text: Seq<char>,
) -> Seq<SessionActionView> {
    actions.push(
        SessionActionView::Fill { label: "Логин или Email"@, value: credentials.login },
    ).push(SessionActionView::Fill { label: "Пароль"@, value: credentials.password }).push(
        SessionActionView::Click { label: "Вход"@ },
    ).push(SessionActionView::WaitForUrl { url: PROFILE_URL@ }).push(
        SessionActionView::FetchCookies,
    ).push(SessionActionView::WriteCookies { text }).push(SessionActionView::CloseTab).push(
        SessionActionView::Finish { result: Ok(()) },
    )
}

proof fn lemma_login_events(
    credentials: Credentials,
    events: Seq<SessionEventView>,
    session: Seq<Cookie>,
    text: Seq<char>,
)
    requires
        session_accepts(credentials, events),
        session_run(credentials, events).0 is CheckingLogin,
        cookies_written(session) == Ok::<Seq<char>, serde_json::Error>(text),
    ensures
        session_accepts(credentials, login_events(events, session)),
        session_run(credentials, login_events(events, session)) == (
            SessionStage::Ended,
            login_actions(credentials, session_run(credentials, events).1, text),
        ),
{
    let done = SessionEventView::Done;
    let fetched = SessionEventView::Fetched(session);
    let e1 = events.push(SessionEventView::Url(LOGIN_URL@));
    let e2 = e1.push(done);
    let e3 = e2.push(done);
    let e4 = e3.push(done);
    let e5 = e4.push(done);
    let e6 = e5.push(fetched);
    let e7 = e6.push(done);
    lemma_one_more(credentials, events, SessionEventView::Url(LOGIN_URL@));
    lemma_one_more(credentials, e1, done);
    lemma_one_more(credentials, e2, done);
    lemma_one_more(credentials, e3, done);
    lemma_one_more(credentials, e4, done);
    lemma_one_more(credentials, e5, fetched);
    lemma_one_more(credentials, e6, done);
    lemma_one_more(credentials, e7, done);
}

/// Where a saved session has run out and the site shows the form, the form is
/// filled in with the login and the password and sent, the new session is saved,
/// and the tab is closed.
pub proof fn expired_session_is_renewed(
    credentials: Credentials,
    raw: Seq<char>,
    cookies: Seq<Cookie>,
    url: Seq<char>,
    session: Seq<Cookie>,
    text: Seq<char>,
)
    requires
        url != PROFILE_URL@,
    ensures
        cookies_told(raw) == Ok::<Seq<Cookie>, serde_json::Error>(cookies) && cookies_written(
            session,
        ) == Ok::<Seq<char>, serde_json::Error>(text) ==> {
            let events = login_events(
                saved_start(raw).push(SessionEventView::Url(url)),
                session,
            );
            &&& session_accepts(credentials, events)
            &&& session_run(credentials, events) == (
                SessionStage::Ended,
                login_actions(
                    credentials,
                    saved_start_actions(cookies).push(SessionActionView::ReadUrl),
                    text,
                ),
            )
        },
{
    if cookies_told(raw) == Ok::<Seq<Cookie>, serde_json::Error>(cookies) && cookies_written(
        session,
    ) == Ok::<Seq<char>, serde_json::Error>(text) {
        let checked = saved_start(raw).push(SessionEventView::Url(url));
        lemma_saved_start(credentials, raw, cookies);
        lemma_one_more(credentials, saved_start(raw), SessionEventView::Url(url));
        lemma_login_events(credentials, checked, session, text);
    }
}

/// Without a saved session, where the site shows the form, the form is filled in
/// with the login and the password and sent, the new session is saved, and the
/// tab is closed.
pub proof fn missing_session_is_made(
    credentials: Credentials,
    session: Seq<Cookie>,
    text: Seq<char>,
)
    ensures
        cookies_written(session) == Ok::<Seq<char>, serde_json::Error>(text) ==> {
            let events = login_events(unsaved_start(), session);
            &&& session_accepts(credentials, events)
            &&& session_run(credentials, events) == (
                SessionStage::Ended,
                login_actions(credentials, unsaved_start_actions(), text),
            )
        },
{
    if cookies_written(session) == Ok::<Seq<char>, serde_json::Error>(text) {
        lemma_unsaved_start(credentials);
        lemma_login_events(credentials, unsaved_start(), session, text);
    }
}

/// Where the tab is at neither page it is closed, and the work ends well without a
/// log in.
pub proof fn other_pages_are_left(
    credentials: Credentials,
    raw: Seq<char>,
    cookies: Seq<Cookie>,
    url: Seq<char>,
)
    requires
        url != LOGIN_URL@,
    ensures
        ({
            let done = SessionEventView::Done;
            let at = SessionEventView::Url(url);
            let unsaved = unsaved_start().push(at).push(done);
            let saved = saved_start(raw).push(at).push(at).push(done);
            let end = seq![
                SessionActionView::CloseTab,
                SessionActionView::Finish { result: Ok(()) },
            ];
            &&& session_accepts(credentials, unsaved)
            &&& session_run(credentials, unsaved) == (
                SessionStage::Ended,
                unsaved_start_actions() + end,
            )
            &&& url != PROFILE_URL@ && cookies_told(raw) == Ok::<Seq<Cookie>, serde_json::Error>(
                cookies,
            ) ==> session_accepts(credentials, saved) && session_run(credentials, saved) == (
                SessionStage::Ended,
                saved_start_actions(cookies).push(SessionActionView::ReadUrl) + end,
            )
        }),
{
    let done = SessionEventView::Done;
    let at = SessionEventView::Url(url);
    let end = seq![SessionActionView::CloseTab, SessionActionView::Finish { result: Ok(()) }];
    lemma_unsaved_start(credentials);
    lemma_one_more(credentials, unsaved_start(), at);
    lemma_one_more(credentials, unsaved_start().push(at), done);
    assert(session_run(credentials, unsaved_start().push(at).push(done)).1
        =~= unsaved_start_actions() + end);
    if url != PROFILE_URL@ && cookies_told(raw) == Ok::<Seq<Cookie>, serde_json::Error>(cookies) {
        lemma_saved_start(credentials, raw, cookies);
        lemma_one_more(credentials, saved_start(raw), at);
        lemma_one_more(credentials, saved_start(raw).push(at), at);
        lemma_one_more(credentials, saved_start(raw).push(at).push(at), done);
        assert(session_run(credentials, saved_start(raw).push(at).push(at).push(done)).1
            =~= saved_start_actions(cookies).push(SessionActionView::ReadUrl) + end);
    }
}

/// What is done is what its view says, text by text.
pub proof fn session_actions_stand_for_themselves(action: SessionAction)
    ensures
        match action {
            SessionAction::ReadCookies => action@ == SessionActionView::ReadCookies,
            SessionAction::AddCookies { cookies } => action@ == (SessionActionView::AddCookies {
                cookies: cookies@,
            }),
            SessionAction::OpenTab => action@ == SessionActionView::OpenTab,
            SessionAction::Goto { url } => action@ == (SessionActionView::Goto { url: url@ }),
            SessionAction::ReadUrl => action@ == SessionActionView::ReadUrl,
            SessionAction::Fill { label, value } => action@ == (SessionActionView::Fill {
                label: label@,
                value: value@,
            }),
            SessionAction::Click { label } => action@ == (SessionActionView::Click {
                label: label@,
            }),
            SessionAction::WaitForUrl { url } => action@ == (SessionActionView::WaitForUrl {
                url: url@,
            }),
            SessionAction::FetchCookies => action@ == SessionActionView::FetchCookies,
            SessionAction::WriteCookies { text } => action@ == (SessionActionView::WriteCookies {
                text: text@,
            }),
            SessionAction::CloseTab => action@ == SessionActionView::CloseTab,
            SessionAction::Finish { result } => action@ == (SessionActionView::Finish { result }),
        },
{
}

/// What came is what its view says, text by text.
pub proof fn session_events_stand_for_themselves(event: SessionEvent)
    ensures
        match event {
            SessionEvent::Cookies(Some(raw)) => event@ == SessionEventView::Cookies(Some(raw@)),
            SessionEvent::Cookies(None) => event@ == SessionEventView::Cookies(None),
            SessionEvent::Url(url) => event@ == SessionEventView::Url(url@),
            SessionEvent::Fetched(cookies) => event@ == SessionEventView::Fetched(cookies@),
            SessionEvent::Done => event@ == SessionEventView::Done,
            SessionEvent::Failed => event@ == SessionEventView::Failed,
        },
{
}

/// A run starts with the file of the saved session, and goes on with any event that
/// is waited for: the answer to reading the file or the address, the session of the
/// browser, or that the last thing was done or failed.
pub proof fn sessions_go_on(
    credentials: Credentials,
    events: Seq<SessionEventView>,
    event: SessionEventView,
)
    ensures
        session_run(credentials, Seq::empty()) == (
            SessionStage::ReadingCookies,
            seq![SessionActionView::ReadCookies],
        ),
        session_accepts(credentials, Seq::empty()),
        ({
            let (stage, actions) = session_run(credentials, events);
            let (next, action) = session_step(credentials, stage, event);
            let awaited = match stage {
                SessionStage::ReadingCookies => event is Cookies,
                SessionStage::CheckingProfile => event is Url,
                SessionStage::CheckingLogin => event is Url,
                SessionStage::FetchingCookies => event is Fetched || event is Failed,
                SessionStage::Ended => false,
                _ => event is Done || event is Failed,
            };
            &&& session_run(credentials, events.push(event)) == (next, actions.push(action))
            &&& session_accepts(credentials, events.push(event)) <==> session_accepts(
                credentials,
                events,
            ) && awaited
        }),
{
    lemma_one_more(credentials, events, event);
}

/// The cookies that the file tells are handed to the browser, all of them in their
/// order. Without a file a tab is opened at once; with one that tells none the work
/// ends.
pub proof fn saved_cookies_are_handed_over(credentials: Credentials, raw: Seq<char>)
    ensures
        session_step(
            credentials,
            SessionStage::ReadingCookies,
            SessionEventView::Cookies(Some(raw)),
        ) == (match cookies_told(raw) {
            Ok(cookies) => (
                SessionStage::AddingCookies,
                SessionActionView::AddCookies { cookies },
            ),
            Err(error) => (
                SessionStage::Ended,
                SessionActionView::Finish { result: Err(SessionError::BrokenCookies { error }) },
            ),
        }),
        session_step(
            credentials,
            SessionStage::ReadingCookies,
            SessionEventView::Cookies(None),
        ) == (SessionStage::OpeningTab { saved: false }, SessionActionView::OpenTab),
{
}

/// The page of the account is visited, and where the tab is then decides: at that
/// page with a saved session, or at any page but the form, nobody logs in.
pub proof fn the_site_decides(credentials: Credentials, saved: bool, url: Seq<char>)
    ensures
        ({
            let done = SessionEventView::Done;
            let at = SessionEventView::Url(url);
            let profile = "https://znanium.ru/user/my-profile"@;
            let form = "https://znanium.ru/site/login"@;
            &&& session_step(credentials, SessionStage::AddingCookies, done) == (
                SessionStage::OpeningTab { saved: true },
                SessionActionView::OpenTab,
            )
            &&& session_step(credentials, SessionStage::OpeningTab { saved }, done) == (
                SessionStage::GoingToProfile { saved },
                SessionActionView::Goto { url: profile },
            )
            &&& session_step(credentials, SessionStage::GoingToProfile { saved }, done) == (
                if saved {
                    SessionStage::CheckingProfile
                } else {
                    SessionStage::CheckingLogin
                },
                SessionActionView::ReadUrl,
            )
            &&& session_step(credentials, SessionStage::CheckingProfile, at) == (if url == profile {
                (SessionStage::ClosingTab, SessionActionView::CloseTab)
            } else {
                (SessionStage::CheckingLogin, SessionActionView::ReadUrl)
            })
            &&& session_step(credentials, SessionStage::CheckingLogin, at) == (if url == form {
                (
                    SessionStage::FillingLogin,
                    SessionActionView::Fill {
                        label: "Логин или Email"@,
                        value: credentials.login,
                    },
                )
            } else {
                (SessionStage::ClosingTab, SessionActionView::CloseTab)
            })
        }),
{
}

/// The form is filled in with the whole password and sent, the page of the account is
/// waited for, and the session of the browser is written down and kept.
pub proof fn the_form_is_sent(credentials: Credentials, cookies: Seq<Cookie>)
    ensures
        ({
            let done = SessionEventView::Done;
            &&& session_step(credentials, SessionStage::FillingLogin, done) == (
                SessionStage::FillingPassword,
                SessionActionView::Fill { label: "Пароль"@, value: credentials.password },
            )
            &&& session_step(credentials, SessionStage::FillingPassword, done) == (
                SessionStage::Clicking,
                SessionActionView::Click { label: "Вход"@ },
            )
            &&& session_step(credentials, SessionStage::Clicking, done) == (
                SessionStage::WaitingForProfile,
                SessionActionView::WaitForUrl { url: "https://znanium.ru/user/my-profile"@ },
            )
            &&& session_step(credentials, SessionStage::WaitingForProfile, done) == (
                SessionStage::FetchingCookies,
                SessionActionView::FetchCookies,
            )
            &&& session_step(
                credentials,
                SessionStage::FetchingCookies,
                SessionEventView::Fetched(cookies),
            ) == (match cookies_written(cookies) {
                Ok(text) => (
                    SessionStage::WritingCookies,
                    SessionActionView::WriteCookies { text },
                ),
                Err(error) => (
                    SessionStage::Ended,
                    SessionActionView::Finish {
                        result: Err(SessionError::UnwritableCookies { error }),
                    },
                ),
            })
            &&& session_step(credentials, SessionStage::WritingCookies, done) == (
                SessionStage::ClosingTab,
                SessionActionView::CloseTab,
            )
            &&& session_step(credentials, SessionStage::ClosingTab, done) == (
                SessionStage::Ended,
                SessionActionView::Finish { result: Ok(()) },
            )
        }),
{
}

/// In whatever way a run goes, nothing is typed but the login and the password, each
/// as it was given and under its own label, and no page is gone to or waited for but
/// that of the account.
pub proof fn nothing_else_is_typed(
    credentials: Credentials,
    events: Seq<SessionEventView>,
    i: int,
)
    requires
        0 <= i < session_run(credentials, events).1.len(),
    ensures
        match session_run(credentials, events).1[i] {
            SessionActionView::Fill { label, value } => {
                ||| label == "Логин или Email"@ && value == credentials.login
                ||| label == "Пароль"@ && value == credentials.password
            },
            SessionActionView::Goto { url } => url == "https://znanium.ru/user/my-profile"@,
            SessionActionView::WaitForUrl { url } => url == "https://znanium.ru/user/my-profile"@,
            SessionActionView::Click { label } => label == "Вход"@,
            _ => true,
        },
    decreases events.len(),
{
    if events.len() > 0 {
        let before = events.drop_last();
        let (stage, actions) = session_run(credentials, before);
        let (next, action) = session_step(credentials, stage, events.last());
        assert(session_run(credentials, events).1 == actions.push(action));
        if i < actions.len() {
            nothing_else_is_typed(credentials, before, i);
        }
    }
}

} // verus!
