//! Signing in to the portal.
//!
//! The portal is signed in to through a browser, because its forms are
//! interactive. The browser is driven by the caller; this module decides, from
//! what the browser reports, what it is asked to do next.

use crate::text::{chars_of, contains, contains_text, ends_with, has_suffix, push_str, same_chars, str_views, string_of};
use vstd::prelude::*;

verus! {

/// The credentials of a user of the portal.
#[derive(Clone, Debug)]
pub struct AuthCredentials {
    pub username: String,
    pub pin: String,
}

/// The time given to the form to appear, in milliseconds.
pub const FORM_TIMEOUT_MS: u64 = 15_000;

/// The time given to the session to appear, in milliseconds.
pub const SESSION_TIMEOUT_MS: u64 = 20_000;

/// The pause between two looks at the page, in milliseconds.
pub const POLL_MS: u64 = 500;

/// The pause after the link to the form was clicked, in milliseconds.
pub const LINK_PAUSE_MS: u64 = 1_000;

/// The address of the form.
pub fn login_url() -> (r: &'static str)
    ensures
        r@ == "https://poliformat.upv.es/portal/login"@,
{
    "https://poliformat.upv.es/portal/login"
}

/// The selector of the link that leads to the form.
pub fn login_link_selector() -> (r: &'static str)
    ensures
        r@ == "#loginLink1"@,
{
    "#loginLink1"
}

/// A list of the given selectors.
fn selectors(items: &[&'static str]) -> (r: Vec<String>)
    ensures
        r@.len() == items@.len(),
        forall|i: int| 0 <= i < r@.len() ==> (#[trigger] r@[i])@ == items@[i]@,
{
    let mut out: Vec<String> = Vec::new();
    let mut i: usize = 0;
    while i < items.len()
        invariant
            i <= items.len(),
            out@.len() == i,
            forall|k: int| 0 <= k < i ==> (#[trigger] out@[k])@ == items@[k]@,
        decreases items.len() - i,
    {
        out.push(string_of(&chars_of(items[i])));
        i += 1;
    }
    out
}

/// The selectors of the field for the user name, in the order in which they
/// are tried: the portal has several forms.
pub fn username_selectors() -> (r: Vec<String>)
    ensures
        str_views(r@) == seq!["input[name='dni']"@, "input[name='username']"@, "#username"@],
{
    let r = selectors(&["input[name='dni']", "input[name='username']", "#username"]);
    assert(str_views(r@) =~= seq![
        "input[name='dni']"@,
        "input[name='username']"@,
        "#username"@,
    ]);
    r
}

/// The selectors of the field for the password, in the order in which they
/// are tried.
pub fn password_selectors() -> (r: Vec<String>)
    ensures
        str_views(r@) == seq!["input[name='clau']"@, "input[name='password']"@, "#password"@],
{
    let r = selectors(&["input[name='clau']", "input[name='password']", "#password"]);
    assert(str_views(r@) =~= seq![
        "input[name='clau']"@,
        "input[name='password']"@,
        "#password"@,
    ]);
    r
}

/// The selectors of the button that sends the form, in the order in which
/// they are tried.
pub fn submit_selectors() -> (r: Vec<String>)
    ensures
        str_views(r@) == seq![
            "input[type='submit']"@,
            "button[type='submit']"@,
            ".btn-submit"@,
            "button[name='submit']"@,
        ],
{
    let r = selectors(
        &["input[type='submit']", "button[type='submit']", ".btn-submit", "button[name='submit']"],
    );
    assert(str_views(r@) =~= seq![
        "input[type='submit']"@,
        "button[type='submit']"@,
        ".btn-submit"@,
        "button[name='submit']"@,
    ]);
    r
}

/// The selectors of the elements that only a page of the portal behind the
/// form has.
pub fn success_selectors() -> (r: Vec<String>)
    ensures
        str_views(r@) == seq![
            "#toolMenu"@,
            ".Mrphs-toolsNav"@,
            ".sakai-sitesAndToolsNav"@,
            "#siteNav"@,
            ".portal-neochat"@,
            "#portal"@,
            ".Mrphs-sites"@,
        ],
{
    let r = selectors(
        &[
            "#toolMenu",
            ".Mrphs-toolsNav",
            ".sakai-sitesAndToolsNav",
            "#siteNav",
            ".portal-neochat",
            "#portal",
            ".Mrphs-sites",
        ],
    );
    assert(str_views(r@) =~= seq![
        "#toolMenu"@,
        ".Mrphs-toolsNav"@,
        ".sakai-sitesAndToolsNav"@,
        "#siteNav"@,
        ".portal-neochat"@,
        "#portal"@,
        ".Mrphs-sites"@,
    ]);
    r
}

/// The index of the first selector that was found on the page.
pub open spec fn first_true(found: Seq<bool>, n: int) -> Option<int>
    decreases n,
{
    if n <= 0 {
        None
    } else {
        match first_true(found, n - 1) {
            Some(i) => Some(i),
            None => if found[n - 1] {
                Some(n - 1)
            } else {
                None
            },
        }
    }
}

/// The first selector of a list that was found on the page: `found` tells for
/// each selector of the list whether the page has an element for it.
pub fn first_found(found: &Vec<bool>) -> (r: Option<usize>)
    ensures
        match r {
            Some(i) => first_true(found@, found@.len() as int) == Some(i as int) && i < found@.len()
                && found@[i as int],
            None => first_true(found@, found@.len() as int).is_none(),
        },
{
    let mut i: usize = 0;
    while i < found.len()
        invariant
            i <= found.len(),
            first_true(found@, i as int).is_none(),
        decreases found.len() - i,
    {
        if found[i] {
            proof {
                lemma_first_true_stays(found@, i + 1, found@.len() as int);
            }
            return Some(i);
        }
        i += 1;
    }
    None
}

/// What was found first stays what was found first.
pub proof fn lemma_first_true_stays(found: Seq<bool>, n: int, m: int)
    requires
        n <= m,
        first_true(found, n).is_some(),
    ensures
        first_true(found, m) == first_true(found, n),
    decreases m - n,
{
    if n < m {
        lemma_first_true_stays(found, n, m - 1);
    }
}

/// The address shows a page of the portal behind the form: it names a site
/// or the mobile portal, and it does not name the form.
pub open spec fn shows_session(url: Seq<char>) -> bool {
    (contains_text(url, "/portal/site/"@) || contains_text(url, "/portal/pda/"@)) && !contains_text(
        url,
        "/login"@,
    )
}

/// Whether the address shows a page of the portal behind the form.
pub fn url_indicates_success(url: &str) -> (r: bool)
    ensures
        r == shows_session(url@),
{
    let u = chars_of(url);
    let site = chars_of("/portal/site/");
    let pda = chars_of("/portal/pda/");
    let login = chars_of("/login");
    (contains(&u, &site) || contains(&u, &pda)) && !contains(&u, &login)
}

// ---------------------------------------------------------------------------
// Cookies
// ---------------------------------------------------------------------------

/// A cookie as the browser reports it.
#[derive(Clone, Debug)]
pub struct BrowserCookie {
    pub name: String,
    pub value: String,
    pub domain: String,
}

/// The model of a cookie.
pub struct CookieView {
    pub name: Seq<char>,
    pub value: Seq<char>,
    pub domain: Seq<char>,
}

impl View for BrowserCookie {
    type V = CookieView;

    open spec fn view(&self) -> CookieView {
        CookieView { name: self.name@, value: self.value@, domain: self.domain@ }
    }
}

/// The views of a list of cookies.
pub open spec fn cookie_views(cookies: Seq<BrowserCookie>) -> Seq<CookieView> {
    Seq::new(cookies.len(), |i: int| cookies[i]@)
}

/// The domain lies within the registered domain of the portal.
pub open spec fn within_portal(domain: Seq<char>) -> bool {
    domain == "upv.es"@ || has_suffix(domain, ".upv.es"@)
}

/// The value of the `Cookie` header for the first `n` cookies: those within
/// the domain of the portal, each as `name=value`, joined by `; `.
pub open spec fn header_text(cookies: Seq<CookieView>, n: int) -> Seq<char>
    decreases n,
{
    if n <= 0 {
        Seq::empty()
    } else {
        let before = header_text(cookies, n - 1);
        let c = cookies[n - 1];
        if !within_portal(c.domain) {
            before
        } else if before.len() == 0 {
            c.name + seq!['='] + c.value
        } else {
            before + "; "@ + c.name + seq!['='] + c.value
        }
    }
}

/// Why signing in failed.
#[derive(Clone, Copy, Debug, PartialEq, Eq, Structural)]
pub enum LoginError {
    /// The form did not appear in time.
    FormTimeout,
    /// A field of the form, or its button, was not there.
    FieldMissing,
    /// No page behind the form appeared in time.
    SessionTimeout,
    /// The browser holds no cookie of the portal.
    NoSessionCookies,
}

/// Whether the domain lies within the registered domain of the portal.
pub fn in_portal_domain(domain: &str) -> (r: bool)
    ensures
        r == within_portal(domain@),
{
    let d = chars_of(domain);
    let bare = chars_of("upv.es");
    let dotted = chars_of(".upv.es");
    same_chars(&d, &bare) || ends_with(&d, &dotted)
}

/// The value of the `Cookie` header that carries the session: all cookies
/// within the domain of the portal. There must be one at least.
pub fn cookie_header(cookies: &Vec<BrowserCookie>) -> (r: Result<String, LoginError>)
    ensures
        match r {
            Ok(text) => text@ == header_text(cookie_views(cookies@), cookies@.len() as int)
                && text@.len() > 0,
            Err(e) => header_text(cookie_views(cookies@), cookies@.len() as int).len() == 0 && e
                == LoginError::NoSessionCookies,
        },
{
    let ghost views = cookie_views(cookies@);
    let mut out: Vec<char> = Vec::new();
    let mut i: usize = 0;
    while i < cookies.len()
        invariant
            i <= cookies.len(),
            views == cookie_views(cookies@),
            out@ == header_text(views, i as int),
        decreases cookies.len() - i,
    {
        let c = &cookies[i];
        assert(views[i as int] == c@);
        if in_portal_domain(c.domain.as_str()) {
            let ghost before = out@;
            if out.len() > 0 {
                push_str(&mut out, "; ");
            }
            push_str(&mut out, c.name.as_str());
            out.push('=');
            push_str(&mut out, c.value.as_str());
            proof {
                if before.len() == 0 {
                    assert(out@ =~= c@.name + seq!['='] + c@.value);
                } else {
                    assert(out@ =~= before + "; "@ + c@.name + seq!['='] + c@.value);
                }
            }
        }
        i += 1;
    }
    if out.len() == 0 {
        Err(LoginError::NoSessionCookies)
    } else {
        Ok(string_of(&out))
    }
}

// ---------------------------------------------------------------------------
// The steps of signing in
// ---------------------------------------------------------------------------

/// How far signing in has come.
#[derive(Clone, Copy, Debug, PartialEq, Eq, Structural)]
pub enum LoginState {
    /// Nothing was done yet.
    Start,
    /// The page of the form was asked for; the form is waited for.
    AwaitingForm,
    /// The form is there; the credentials are being typed.
    FillingForm,
    /// The form was sent; a page behind it is waited for.
    AwaitingSession,
    /// A page behind the form is there; the cookies are being read.
    Harvesting,
    /// Signed in.
    Succeeded,
    /// Not signed in.
    Failed,
}

/// What the browser reports.
#[derive(Clone, Debug)]
pub enum LoginEvent {
    /// Signing in is to begin.
    Begin,
    /// A look at the page of the form, `elapsed_ms` after it was asked for:
    /// whether a field for the user name is there, and whether the link that
    /// leads to the form is there.
    FormProbe { elapsed_ms: u64, input_found: bool, login_link_found: bool },
    /// The form was filled: whether a field for the user name and one for
    /// the password were found and typed into, and whether a button was found
    /// and clicked.
    FormFilled { username_typed: bool, password_typed: bool, submitted: bool },
    /// A look at the page after the form was sent, `elapsed_ms` after that:
    /// its address, and whether an element of the portal is there.
    SessionProbe { elapsed_ms: u64, url: String, portal_element_found: bool },
    /// The cookies of the browser.
    Cookies(Vec<BrowserCookie>),
}

/// The model of what the browser reports.
pub enum LoginEventView {
    Begin,
    FormProbe { elapsed_ms: u64, input_found: bool, login_link_found: bool },
    FormFilled { username_typed: bool, password_typed: bool, submitted: bool },
    SessionProbe { elapsed_ms: u64, url: Seq<char>, portal_element_found: bool },
    Cookies(Seq<CookieView>),
}

impl View for LoginEvent {
    type V = LoginEventView;

    open spec fn view(&self) -> LoginEventView {
        match self {
            LoginEvent::Begin => LoginEventView::Begin,
            LoginEvent::FormProbe { elapsed_ms, input_found, login_link_found } => {
                LoginEventView::FormProbe {
                    elapsed_ms: *elapsed_ms,
                    input_found: *input_found,
                    login_link_found: *login_link_found,
                }
            },
            LoginEvent::FormFilled { username_typed, password_typed, submitted } => {
                LoginEventView::FormFilled {
                    username_typed: *username_typed,
                    password_typed: *password_typed,
                    submitted: *submitted,
                }
            },
            LoginEvent::SessionProbe { elapsed_ms, url, portal_element_found } => {
                LoginEventView::SessionProbe {
                    elapsed_ms: *elapsed_ms,
                    url: url@,
                    portal_element_found: *portal_element_found,
                }
            },
            LoginEvent::Cookies(c) => LoginEventView::Cookies(cookie_views(c@)),
        }
    }
}

/// What the browser is asked to do next.
#[derive(Clone, Debug)]
pub enum LoginAction {
    /// Go to the page of the form, then look at it.
    OpenLoginPage,
    /// Pause for so many milliseconds, then look at the page again.
    Wait(u64),
    /// Click the link that leads to the form, pause for so many
    /// milliseconds, then look at the page again.
    ClickLoginLink(u64),
    /// Type the credentials into the first field for the user name and the
    /// first field for the password that the page has, and click the first
    /// button.
    FillForm,
    /// Read the cookies.
    ReadCookies,
    /// Signed in: this is the value of the `Cookie` header.
    Succeed(String),
    /// Not signed in.
    Fail(LoginError),
    /// The report does not belong to this step: nothing is to be done.
    Nothing,
}

/// The model of what the browser is asked to do.
pub enum LoginActionView {
    OpenLoginPage,
    Wait(u64),
    ClickLoginLink(u64),
    FillForm,
    ReadCookies,
    Succeed(Seq<char>),
    Fail(LoginError),
    Nothing,
}

impl View for LoginAction {
    type V = LoginActionView;

    open spec fn view(&self) -> LoginActionView {
        match self {
            LoginAction::OpenLoginPage => LoginActionView::OpenLoginPage,
            LoginAction::Wait(ms) => LoginActionView::Wait(*ms),
            LoginAction::ClickLoginLink(ms) => LoginActionView::ClickLoginLink(*ms),
            LoginAction::FillForm => LoginActionView::FillForm,
            LoginAction::ReadCookies => LoginActionView::ReadCookies,
            LoginAction::Succeed(s) => LoginActionView::Succeed(s@),
            LoginAction::Fail(e) => LoginActionView::Fail(*e),
            LoginAction::Nothing => LoginActionView::Nothing,
        }
    }
}

/// The next step of signing in.
pub open spec fn login_next(state: LoginState, event: LoginEventView) -> (
    LoginState,
    LoginActionView,
) {
    match (state, event) {
        (LoginState::Start, LoginEventView::Begin) => (
            LoginState::AwaitingForm,
            LoginActionView::OpenLoginPage,
        ),
        (
            LoginState::AwaitingForm,
            LoginEventView::FormProbe { elapsed_ms, input_found, login_link_found },
        ) => {
            if input_found {
                (LoginState::FillingForm, LoginActionView::FillForm)
            } else if elapsed_ms >= 15_000 {
                (LoginState::Failed, LoginActionView::Fail(LoginError::FormTimeout))
            } else if login_link_found {
                (LoginState::AwaitingForm, LoginActionView::ClickLoginLink(1_000))
            } else {
                (LoginState::AwaitingForm, LoginActionView::Wait(500))
            }
        },
        (
            LoginState::FillingForm,
            LoginEventView::FormFilled { username_typed, password_typed, submitted },
        ) => {
            if username_typed && password_typed && submitted {
                (LoginState::AwaitingSession, LoginActionView::Wait(0))
            } else {
                (LoginState::Failed, LoginActionView::Fail(LoginError::FieldMissing))
            }
        },
        (
            LoginState::AwaitingSession,
            LoginEventView::SessionProbe { elapsed_ms, url, portal_element_found },
        ) => {
            if shows_session(url) || portal_element_found {
                (LoginState::Harvesting, LoginActionView::ReadCookies)
            } else if elapsed_ms >= 20_000 {
                (LoginState::Failed, LoginActionView::Fail(LoginError::SessionTimeout))
            } else {
                (LoginState::AwaitingSession, LoginActionView::Wait(500))
            }
        },
        (LoginState::Harvesting, LoginEventView::Cookies(cookies)) => {
            let text = header_text(cookies, cookies.len() as int);
            if text.len() > 0 {
                (LoginState::Succeeded, LoginActionView::Succeed(text))
            } else {
                (LoginState::Failed, LoginActionView::Fail(LoginError::NoSessionCookies))
            }
        },
        _ => (state, LoginActionView::Nothing),
    }
}

/// Decides the next step of signing in from what the browser reports.
pub fn login_step(state: LoginState, event: &LoginEvent) -> (r: (LoginState, LoginAction))
    ensures
        r.0 == login_next(state, event@).0,
        r.1@ == login_next(state, event@).1,
{
    match state {
        LoginState::Start => match event {
            LoginEvent::Begin => (LoginState::AwaitingForm, LoginAction::OpenLoginPage),
            _ => (state, LoginAction::Nothing),
        },
        LoginState::AwaitingForm => match event {
            LoginEvent::FormProbe { elapsed_ms, input_found, login_link_found } => {
                if *input_found {
                    (LoginState::FillingForm, LoginAction::FillForm)
                } else if *elapsed_ms >= FORM_TIMEOUT_MS {
                    (LoginState::Failed, LoginAction::Fail(LoginError::FormTimeout))
                } else if *login_link_found {
                    (LoginState::AwaitingForm, LoginAction::ClickLoginLink(LINK_PAUSE_MS))
                } else {
                    (LoginState::AwaitingForm, LoginAction::Wait(POLL_MS))
                }
            },
            _ => (state, LoginAction::Nothing),
        },
        LoginState::FillingForm => match event {
            LoginEvent::FormFilled { username_typed, password_typed, submitted } => {
                if *username_typed && *password_typed && *submitted {
                    (LoginState::AwaitingSession, LoginAction::Wait(0))
                } else {
                    (LoginState::Failed, LoginAction::Fail(LoginError::FieldMissing))
                }
            },
            _ => (state, LoginAction::Nothing),
        },
        LoginState::AwaitingSession => match event {
            LoginEvent::SessionProbe { elapsed_ms, url, portal_element_found } => {
                if url_indicates_success(url.as_str()) || *portal_element_found {
                    (LoginState::Harvesting, LoginAction::ReadCookies)
                } else if *elapsed_ms >= SESSION_TIMEOUT_MS {
                    (LoginState::Failed, LoginAction::Fail(LoginError::SessionTimeout))
                } else {
                    (LoginState::AwaitingSession, LoginAction::Wait(POLL_MS))
                }
            },
            _ => (state, LoginAction::Nothing),
        },
        LoginState::Harvesting => match event {
            LoginEvent::Cookies(cookies) => match cookie_header(cookies) {
                Ok(text) => (LoginState::Succeeded, LoginAction::Succeed(text)),
                Err(e) => (LoginState::Failed, LoginAction::Fail(e)),
            },
            _ => (state, LoginAction::Nothing),
        },
        LoginState::Succeeded => (state, LoginAction::Nothing),
        LoginState::Failed => (state, LoginAction::Nothing),
    }
}

/// Once signing in has succeeded or failed, no report changes that, and
/// nothing more is asked of the browser.
pub proof fn lemma_login_ends(state: LoginState, event: LoginEventView)
    requires
        state == LoginState::Succeeded || state == LoginState::Failed,
    ensures
        login_next(state, event) == (state, LoginActionView::Nothing),
{
}

/// Signing in succeeds only with a value for the `Cookie` header that is
/// not empty, read after a page behind the form was seen.
pub proof fn lemma_login_success(state: LoginState, event: LoginEventView)
    requires
        login_next(state, event).0 == LoginState::Succeeded,
        state != LoginState::Succeeded,
    ensures
        state == LoginState::Harvesting,
        login_next(state, event).1 is Succeed,
        login_next(state, event).1->Succeed_0.len() > 0,
{
}

/// The form is waited for no longer than its time allows: a look at the page
/// after that time either finds the form or fails.
pub proof fn lemma_login_timeouts(state: LoginState, event: LoginEventView)
    ensures
        state == LoginState::AwaitingForm && event is FormProbe && event->FormProbe_elapsed_ms
            >= 15_000 ==> login_next(state, event).0 != LoginState::AwaitingForm,
        state == LoginState::AwaitingSession && event is SessionProbe
            && event->SessionProbe_elapsed_ms >= 20_000 ==> login_next(state, event).0
            != LoginState::AwaitingSession,
{
}

} // verus!
