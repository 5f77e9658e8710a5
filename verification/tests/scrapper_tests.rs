use polirag::scrapper::auth::{
    cookie_header, first_found, in_portal_domain, login_link_selector, login_step, login_url,
    password_selectors, submit_selectors, success_selectors, url_indicates_success,
    username_selectors, AuthCredentials, BrowserCookie, LoginAction, LoginError, LoginEvent,
    LoginState,
};
use polirag::scrapper::processing::{archive_target_dir, exit_code_of, extracted_dir, resources_dir, ChildExit};
use polirag::scrapper::scrape::{
    add_section, clean_subject_name, dashboard_plan, download_poll, find_tool, guide_pages,
    guide_plan, is_in_progress, label_names_tool, navigation_failed, needs_reauth, open_plan,
    reauth_plan, site_name, subject_dir, summary_path, tool_plan, visit_order, DownloadPoll,
    ScrapeAction, Section, ToolKind, ToolLink,
};
use polirag::scrapper::{
    cookie_pairs, dedup_by_id, finish_subjects, import_cookies, last_segment_of, login_required,
    portal_url, session_expired, session_step, sort_by_name, subject_link, subjects_from_links,
    PortalLink, SessionEvent, SessionState, Subject,
};

fn cookie(name: &str, value: &str, domain: &str) -> BrowserCookie {
    BrowserCookie { name: name.to_string(), value: value.to_string(), domain: domain.to_string() }
}

fn subject(id: &str, name: &str) -> Subject {
    Subject { id: id.to_string(), name: name.to_string(), url: format!("https://poliformat.upv.es/portal/site/{}", id) }
}

fn link(href: &str, label: &str) -> PortalLink {
    PortalLink { href: href.to_string(), label: label.to_string() }
}

#[test]
fn session_states() {
    let (out, busy, held) =
        (SessionState::Unauthenticated, SessionState::Authenticating, SessionState::Authenticated);
    assert_eq!(session_step(out, SessionEvent::CredentialsProvided), busy);
    assert_eq!(session_step(busy, SessionEvent::LoginSucceeded), held);
    assert_eq!(session_step(busy, SessionEvent::LoginFailed), out);
    assert_eq!(session_step(held, SessionEvent::SessionExpired), out);
    assert_eq!(session_step(out, SessionEvent::LoginSucceeded), out);
    assert_eq!(session_step(held, SessionEvent::CredentialsProvided), held);
    assert_eq!(session_step(out, SessionEvent::SessionExpired), out);
}

#[test]
fn expiry_is_read_from_the_address() {
    assert_eq!(portal_url(), "https://poliformat.upv.es");
    assert!(!session_expired("https://poliformat.upv.es/portal"));
    assert!(session_expired("https://poliformat.upv.es/portal/login"));
    assert!(session_expired("https://intranet.upv.es/pls/soalu/est_aute.intraalucomp"));
    assert!(session_expired("https://poliformat.upv.es/portal/site/!gateway"));
    assert!(login_required("https://x/xlogin", ""));
    assert!(login_required("https://x/portal", "... Identificación obligatoria ..."));
    assert!(login_required("https://x/portal", "Identificarse"));
    assert!(!login_required("https://x/portal", "Benvingut"));
}

#[test]
fn login_success_address() {
    assert!(url_indicates_success("https://poliformat.upv.es/portal/site/~user"));
    assert!(url_indicates_success("https://poliformat.upv.es/portal/pda/x"));
    assert!(!url_indicates_success("https://poliformat.upv.es/portal/site/x/login"));
    assert!(!url_indicates_success("https://poliformat.upv.es/portal"));
    assert!(!url_indicates_success("https://poliformat.upv.es/portal/login"));
}

#[test]
fn selectors_are_tried_in_order() {
    assert_eq!(login_url(), "https://poliformat.upv.es/portal/login");
    assert_eq!(login_link_selector(), "#loginLink1");
    assert_eq!(username_selectors(), vec!["input[name='dni']", "input[name='username']", "#username"]);
    assert_eq!(password_selectors(), vec!["input[name='clau']", "input[name='password']", "#password"]);
    assert_eq!(submit_selectors().len(), 4);
    assert_eq!(success_selectors().len(), 7);
    assert_eq!(success_selectors()[0], "#toolMenu");
    assert_eq!(first_found(&vec![false, true, true]), Some(1));
    assert_eq!(first_found(&vec![true, false]), Some(0));
    assert_eq!(first_found(&vec![false, false]), None);
    assert_eq!(first_found(&Vec::new()), None);
}

#[test]
fn cookie_header_takes_the_cookies_of_the_portal() {
    let cookies = vec![
        cookie("JSESSIONID", "abc", "poliformat.upv.es"),
        cookie("tracker", "x", "ads.example.com"),
        cookie("sso", "tok=en", ".upv.es"),
        cookie("fake", "y", "notupv.es"),
        cookie("bare", "z", "upv.es"),
    ];
    assert_eq!(cookie_header(&cookies), Ok("JSESSIONID=abc; sso=tok=en; bare=z".to_string()));
    assert_eq!(cookie_header(&vec![cookie("a", "b", "example.com")]), Err(LoginError::NoSessionCookies));
    assert_eq!(cookie_header(&Vec::new()), Err(LoginError::NoSessionCookies));
    assert!(in_portal_domain("www.upv.es"));
    assert!(!in_portal_domain("upv.es.evil.com"));
}

#[test]
fn login_runs_through_its_steps() {
    let (s, a) = login_step(LoginState::Start, &LoginEvent::Begin);
    assert_eq!(s, LoginState::AwaitingForm);
    assert!(matches!(a, LoginAction::OpenLoginPage));
    let probe = |elapsed_ms, input_found, login_link_found| LoginEvent::FormProbe { elapsed_ms, input_found, login_link_found };
    let (s, a) = login_step(LoginState::AwaitingForm, &probe(0, false, false));
    assert_eq!(s, LoginState::AwaitingForm);
    assert!(matches!(a, LoginAction::Wait(500)));
    let (s, a) = login_step(LoginState::AwaitingForm, &probe(500, false, true));
    assert_eq!(s, LoginState::AwaitingForm);
    assert!(matches!(a, LoginAction::ClickLoginLink(1000)));
    let (s, a) = login_step(LoginState::AwaitingForm, &probe(14_999, true, true));
    assert_eq!(s, LoginState::FillingForm);
    assert!(matches!(a, LoginAction::FillForm));
    let filled = LoginEvent::FormFilled { username_typed: true, password_typed: true, submitted: true };
    let (s, a) = login_step(LoginState::FillingForm, &filled);
    assert_eq!(s, LoginState::AwaitingSession);
    assert!(matches!(a, LoginAction::Wait(0)));
    let session = |elapsed_ms, url: &str, portal_element_found| LoginEvent::SessionProbe {
        elapsed_ms,
        url: url.to_string(),
        portal_element_found,
    };
    let (s, a) = login_step(LoginState::AwaitingSession, &session(100, "https://x/portal/login", false));
    assert_eq!(s, LoginState::AwaitingSession);
    assert!(matches!(a, LoginAction::Wait(500)));
    let (s, a) = login_step(LoginState::AwaitingSession, &session(600, "https://x/portal/site/home", false));
    assert_eq!(s, LoginState::Harvesting);
    assert!(matches!(a, LoginAction::ReadCookies));
    let (s, _) = login_step(LoginState::AwaitingSession, &session(600, "https://x/other", true));
    assert_eq!(s, LoginState::Harvesting);
    let (s, a) = login_step(LoginState::Harvesting, &LoginEvent::Cookies(vec![cookie("J", "1", "poliformat.upv.es")]));
    assert_eq!(s, LoginState::Succeeded);
    assert!(matches!(a, LoginAction::Succeed(h) if h == "J=1"));
}

#[test]
fn login_fails_in_every_way() {
    let (s, a) = login_step(
        LoginState::AwaitingForm,
        &LoginEvent::FormProbe { elapsed_ms: 15_000, input_found: false, login_link_found: true },
    );
    assert_eq!(s, LoginState::Failed);
    assert!(matches!(a, LoginAction::Fail(LoginError::FormTimeout)));
    let (s, a) = login_step(
        LoginState::FillingForm,
        &LoginEvent::FormFilled { username_typed: true, password_typed: false, submitted: true },
    );
    assert_eq!(s, LoginState::Failed);
    assert!(matches!(a, LoginAction::Fail(LoginError::FieldMissing)));
    let (s, a) = login_step(
        LoginState::AwaitingSession,
        &LoginEvent::SessionProbe { elapsed_ms: 20_000, url: "https://x/login".to_string(), portal_element_found: false },
    );
    assert_eq!(s, LoginState::Failed);
    assert!(matches!(a, LoginAction::Fail(LoginError::SessionTimeout)));
    let (s, a) = login_step(LoginState::Harvesting, &LoginEvent::Cookies(Vec::new()));
    assert_eq!(s, LoginState::Failed);
    assert!(matches!(a, LoginAction::Fail(LoginError::NoSessionCookies)));
    for state in [LoginState::Succeeded, LoginState::Failed] {
        let (s, a) = login_step(state, &LoginEvent::Begin);
        assert_eq!(s, state);
        assert!(matches!(a, LoginAction::Nothing));
    }
    let (s, a) = login_step(LoginState::Start, &LoginEvent::Cookies(Vec::new()));
    assert_eq!(s, LoginState::Start);
    assert!(matches!(a, LoginAction::Nothing));
    let _ = AuthCredentials { username: "u".to_string(), pin: "p".to_string() };
}

#[test]
fn cookies_are_imported_for_host_and_domain() {
    assert_eq!(
        cookie_pairs("JSESSIONID=abc; sso=tok=en;junk ; =v;k="),
        vec![
            ("JSESSIONID".to_string(), "abc".to_string()),
            ("sso".to_string(), "tok=en".to_string()),
            ("".to_string(), "v".to_string()),
            ("k".to_string(), "".to_string()),
        ]
    );
    assert!(cookie_pairs("").is_empty());
    assert_eq!(
        import_cookies("JSESSIONID=abc; x=1"),
        vec![
            "JSESSIONID=abc; Secure; Path=/; Domain=poliformat.upv.es",
            "JSESSIONID=abc; Secure; Path=/; Domain=upv.es",
            "x=1; Secure; Path=/; Domain=poliformat.upv.es",
            "x=1; Secure; Path=/; Domain=upv.es",
        ]
    );
    assert!(import_cookies("no pairs here").is_empty());
}

#[test]
fn subjects_are_the_links_to_sites() {
    assert!(subject_link(&link("https://p/portal/site/GRA_1_2025", " Algebra ")));
    assert!(!subject_link(&link("https://p/portal/site/!gateway", "Gateway")));
    assert!(!subject_link(&link("https://p/portal/site/GRA_1_2025/tool/abc", "Tool")));
    assert!(!subject_link(&link("https://p/portal/site/~user", "My Workspace")));
    assert!(!subject_link(&link("https://p/portal/site/GRA_1_2025", "  ")));
    assert!(!subject_link(&link("https://p/portal/help", "Help")));
    for label in ["Home", "Inici", "Castellano", "English", "Valencià", " Home "] {
        assert!(!subject_link(&link("https://p/portal/site/GRA_1_2025", label)), "{}", label);
    }
    assert_eq!(last_segment_of("https://p/portal/site/GRA_1_2025"), "GRA_1_2025");
    assert_eq!(last_segment_of("plain"), "plain");
    assert_eq!(last_segment_of("trailing/"), "");
    let links = vec![
        link("https://p/portal/site/B", "Biology"),
        link("https://p/portal/site/A", "Home"),
        link("https://p/portal/site/A", " Algebra"),
        link("https://p/portal/site/B", "Biology again"),
        link("https://p/portal/site/A", "Algebra (dup)"),
        link("https://p/other", "Other"),
    ];
    let subjects = subjects_from_links(&links);
    assert_eq!(subjects.len(), 2);
    assert_eq!((subjects[0].id.as_str(), subjects[0].name.as_str()), ("B", "Biology"));
    assert_eq!((subjects[1].id.as_str(), subjects[1].name.as_str()), ("A", "Algebra"));
    assert_eq!(subjects[1].url, "https://p/portal/site/A");
}

#[test]
fn subjects_are_sorted_by_name_and_deduplicated() {
    let list = vec![subject("3", "Chemistry"), subject("1", "Algebra"), subject("2", "Biology"), subject("9", "Algebra")];
    let sorted = sort_by_name(list.clone());
    assert_eq!(sorted.iter().map(|s| s.id.as_str()).collect::<Vec<_>>(), vec!["1", "9", "2", "3"]);
    let mut std_sorted = list.clone();
    std_sorted.sort_by(|a, b| a.name.cmp(&b.name));
    assert_eq!(
        sorted.iter().map(|s| s.id.clone()).collect::<Vec<_>>(),
        std_sorted.iter().map(|s| s.id.clone()).collect::<Vec<_>>()
    );
    let repeated = vec![subject("1", "a"), subject("1", "b"), subject("2", "c"), subject("1", "d"), subject("1", "e")];
    let kept = dedup_by_id(&repeated);
    assert_eq!(kept.iter().map(|s| s.name.as_str()).collect::<Vec<_>>(), vec!["a", "c", "d"]);
    let finished = finish_subjects(vec![subject("2", "Zoology"), subject("1", "Algebra"), subject("1", "Algebra")]);
    assert_eq!(finished.iter().map(|s| s.id.as_str()).collect::<Vec<_>>(), vec!["1", "2"]);
    assert!(finish_subjects(Vec::new()).is_empty());
}

#[test]
fn names_and_places_of_a_subject() {
    assert_eq!(clean_subject_name(" Maths: I/II "), "Maths I-II");
    assert_eq!(subject_dir("/data", "Maths: I/II"), "/data/Maths I-II");
    assert_eq!(summary_path("/data/Maths"), "/data/Maths/summary.md");
    assert_eq!(resources_dir("/data/Maths"), "/data/Maths/resources");
    assert_eq!(extracted_dir("/data/Maths"), "/data/Maths/resources/extracted");
    assert_eq!(archive_target_dir("/data/Maths", "bundle.v2.zip"), "/data/Maths/resources/extracted/bundle.v2");
    assert_eq!(navigation_failed(), "Navigation Failed");
    assert_eq!(exit_code_of(ChildExit::Extracted), 0);
    assert_eq!(exit_code_of(ChildExit::Failed), 1);
    assert_eq!(exit_code_of(ChildExit::Crashed), 2);
}

#[test]
fn tools_are_found_by_their_labels() {
    assert!(label_names_tool(ToolKind::Announcements, "anuncis"));
    assert!(label_names_tool(ToolKind::Announcements, "avisos del curso"));
    assert!(label_names_tool(ToolKind::Lessons, "lliçons"));
    assert!(label_names_tool(ToolKind::Lessons, "contenidos"));
    assert!(label_names_tool(ToolKind::Resources, "recursos"));
    assert!(label_names_tool(ToolKind::TeachingGuide, "guia docent"));
    assert!(!label_names_tool(ToolKind::Resources, "anuncis"));
    assert_eq!(site_name("https://p/portal/site/GRA_1/tool/x"), Some("GRA_1".to_string()));
    assert_eq!(site_name("https://p/portal/site/GRA_1"), Some("GRA_1".to_string()));
    assert_eq!(site_name("https://p/portal/site//x"), None);
    assert_eq!(site_name("https://p/portal"), None);
    let t = |label: &str, href: &str, guide_mark| ToolLink { label: label.to_string(), href: href.to_string(), guide_mark };
    let links = vec![
        t("Anuncis", "https://p/portal/site/GRA_1/tool/a1", false),
        t("RECURSOS", "https://p/portal/site/GRA_1/tool/r1", false),
        t("Recursos", "https://p/portal/site/OTHER/tool/r2", false),
        t("Avisos", "https://p/portal/site/GRA_1/tool/a2", false),
        t("Syllabus", "https://p/external/guide", true),
    ];
    let page = "https://p/portal/site/GRA_1";
    assert_eq!(find_tool(ToolKind::Announcements, page, &links), Some("https://p/portal/site/GRA_1/tool/a2".to_string()));
    assert_eq!(find_tool(ToolKind::Resources, page, &links), Some("https://p/portal/site/GRA_1/tool/r1".to_string()));
    assert_eq!(find_tool(ToolKind::TeachingGuide, page, &links), Some("https://p/external/guide".to_string()));
    assert_eq!(find_tool(ToolKind::Lessons, page, &links), None);
}

#[test]
fn teaching_guide_addresses() {
    let s = Subject { id: "GRA_11673_2025_DTU".to_string(), name: "Maths I/II".to_string(), url: String::new() };
    let g = guide_pages(&s).unwrap();
    assert_eq!(
        g.print_url,
        "https://www.upv.es/pls/soalu/sic_gdoc.get_content?P_ASI=11673&P_IDIOMA=c&P_VISTA=poliformat&P_TIT=&P_CACA=2025"
    );
    assert_eq!(g.description_url, format!("{}&P_CONTENT=descripcion", g.print_url));
    assert_eq!(
        g.professors_url,
        "https://www.upv.es/pls/soalu/sic_asi.Profesores?P_OCW=&P_ASI=11673&P_CACA=2025&P_IDIOMA=c&P_VISTA=poliformat"
    );
    assert_eq!(g.file_name, "Maths I-II (Guia Docent).pdf");
    let two = Subject { id: "GRA_42".to_string(), name: "x".to_string(), url: String::new() };
    assert!(guide_pages(&two).unwrap().print_url.ends_with("P_ASI=42&P_IDIOMA=c&P_VISTA=poliformat&P_TIT=&P_CACA=2025"));
    let one = Subject { id: "plain".to_string(), name: "x".to_string(), url: String::new() };
    assert!(guide_pages(&one).is_none());
    let empty = Subject { id: "GRA__2025".to_string(), name: "x".to_string(), url: String::new() };
    assert!(guide_pages(&empty).is_none());
    assert_eq!(guide_plan(&g).len(), 12);
    assert!(matches!(&guide_plan(&g)[3], ScrapeAction::PrintPdf(n) if n == "Maths I-II (Guia Docent).pdf"));
}

#[test]
fn summary_sections() {
    let mut summary = String::new();
    let long = "x".repeat(3500);
    add_section(&mut summary, Section::Dashboard, &long);
    assert_eq!(summary, format!("--- DASHBOARD ---\n{}\n", "x".repeat(3000)));
    let mut summary = String::new();
    add_section(&mut summary, Section::Dashboard, "short");
    add_section(&mut summary, Section::Announcements, "news");
    add_section(&mut summary, Section::Lessons, "");
    add_section(&mut summary, Section::Guide, "");
    add_section(&mut summary, Section::Guide, "guide");
    add_section(&mut summary, Section::GuideDescription, "desc");
    add_section(&mut summary, Section::Professors, "");
    add_section(&mut summary, Section::Professors, "prof");
    assert_eq!(
        summary,
        "--- DASHBOARD ---\nshort\n\n--- ANUNCIS ---\nnews\n\n--- LLIÇONS ---\n\n\n--- GUIA DOCENT ---\nguide\n\n--- GUIA DOCENT DESCRIPTION ---\ndesc\n\n--- PROFESSORS ---\nprof\n"
    );
}

#[test]
fn scrape_plans() {
    let s = subject("GRA_1", "Algebra");
    let open = open_plan(&s);
    assert_eq!(open.len(), 2);
    assert!(matches!(&open[0], ScrapeAction::Navigate(u) if u == &s.url));
    assert!(matches!(open[1], ScrapeAction::Pause(2000)));
    assert!(needs_reauth("https://x/portal/login", "", true));
    assert!(!needs_reauth("https://x/portal/login", "", false));
    assert!(!needs_reauth("https://x/portal/site/a", "fine", true));
    let renew = reauth_plan(&s);
    assert_eq!(renew.len(), 9);
    assert!(matches!(&renew[0], ScrapeAction::Navigate(u) if u == "https://poliformat.upv.es/portal/login"));
    assert!(matches!(&renew[2], ScrapeAction::AwaitElement(_, 15000)));
    assert!(matches!(&renew[7], ScrapeAction::Navigate(u) if u == &s.url));
    let dash = dashboard_plan();
    assert!(matches!(&dash[2], ScrapeAction::Read(sel, Section::Dashboard) if sel.is_empty()));
    let res = tool_plan(ToolKind::Resources, "https://p/r");
    assert_eq!(res.len(), 8);
    assert!(matches!(&res[2], ScrapeAction::ClickById(id) if id == "selectall"));
    assert!(matches!(&res[4], ScrapeAction::ClickById(id) if id == "zipdownload-button"));
    assert!(matches!(res[7], ScrapeAction::AwaitDownloads));
    let ann = tool_plan(ToolKind::Announcements, "https://p/a");
    assert!(matches!(&ann[2], ScrapeAction::Read(sel, Section::Announcements) if sel == ".portletBody"));
    assert_eq!(tool_plan(ToolKind::Lessons, "https://p/l").len(), 3);
    assert!(matches!(tool_plan(ToolKind::TeachingGuide, "https://p/g")[2], ScrapeAction::ReadGuide));
    assert_eq!(
        visit_order(),
        vec![ToolKind::Announcements, ToolKind::Lessons, ToolKind::Resources, ToolKind::TeachingGuide]
    );
}

#[test]
fn downloads_are_waited_for() {
    assert!(is_in_progress("bundle.zip.crdownload"));
    assert!(is_in_progress("BUNDLE.ZIP.CRDOWNLOAD"));
    assert!(is_in_progress("x.TMP"));
    assert!(is_in_progress("y.part"));
    assert!(!is_in_progress("bundle.zip"));
    let names = |v: &[&str]| v.iter().map(|s| s.to_string()).collect::<Vec<String>>();
    assert_eq!(download_poll(0, &names(&["a.zip", "b.Part"])), DownloadPoll::Wait(2000));
    assert_eq!(download_poll(120_000, &names(&["b.part"])), DownloadPoll::Wait(2000));
    assert_eq!(download_poll(120_001, &names(&["b.part"])), DownloadPoll::TimedOut);
    assert_eq!(download_poll(10, &names(&["a.zip"])), DownloadPoll::Complete { arrived: true });
    assert_eq!(download_poll(10, &names(&[])), DownloadPoll::Complete { arrived: false });
}
