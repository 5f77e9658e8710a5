//! The deep scrape of one subject: what the browser is asked to do, in which
//! order, and how what it reads becomes the summary of the subject.
//!
//! Subjects are scraped one after the other, each in a tab of its own: the
//! directory that downloads go to is a setting of the whole browser.

use crate::scrapper::processing::{child_path, join_path};
use crate::scrapper::{asks_login, login_required, Subject};
use crate::text::{char_views, chars_of, contains, contains_text, ends_with, find, first_chars, first_occurrence, has_suffix, lowercase, pieces, push_all, push_str, remove_char, replace_char, replaced, slice, split_on, str_views, string_of, take_chars, trim, trimmed, without_char};
use vstd::prelude::*;

verus! {

// ---------------------------------------------------------------------------
// Names and places
// ---------------------------------------------------------------------------

/// The name of the directory of a subject: its name with `/` turned into
/// `-`, without `:`, trimmed.
pub open spec fn clean_name(name: Seq<char>) -> Seq<char> {
    trimmed(without_char(replaced(name, '/', '-'), ':'))
}

/// The name of the directory of a subject.
pub fn clean_subject_name(name: &str) -> (r: String)
    ensures
        r@ == clean_name(name@),
{
    let n = chars_of(name);
    string_of(&trim(&remove_char(&replace_char(&n, '/', '-'), ':')))
}

/// The directory of a subject below the directory of scraped data.
pub fn subject_dir(data_dir: &str, subject_name: &str) -> (r: String)
    ensures
        r@ == child_path(data_dir@, clean_name(subject_name@)),
{
    let name = clean_subject_name(subject_name);
    join_path(data_dir, name.as_str())
}

/// The file that holds the summary of a subject.
pub fn summary_path(subject_dir: &str) -> (r: String)
    ensures
        r@ == child_path(subject_dir@, "summary.md"@),
{
    join_path(subject_dir, "summary.md")
}

/// What is returned in place of a directory for a subject whose page could
/// not be reached.
pub fn navigation_failed() -> (r: &'static str)
    ensures
        r@ == "Navigation Failed"@,
{
    "Navigation Failed"
}

// ---------------------------------------------------------------------------
// The tools of a subject
// ---------------------------------------------------------------------------

/// The areas of a subject that are scraped.
#[derive(Clone, Copy, Debug, PartialEq, Eq, Structural)]
pub enum ToolKind {
    Announcements,
    Lessons,
    Resources,
    TeachingGuide,
}

/// The label, in lowercase, names the tool.
pub open spec fn names_tool(kind: ToolKind, label: Seq<char>) -> bool {
    match kind {
        ToolKind::Announcements => contains_text(label, "anuncis"@) || contains_text(
            label,
            "avisos"@,
        ) || contains_text(label, "announcements"@),
        ToolKind::Lessons => contains_text(label, "lliçons"@) || contains_text(
            label,
            "lecciones"@,
        ) || contains_text(label, "lessonbuilder"@) || contains_text(label, "contenidos"@),
        ToolKind::Resources => contains_text(label, "recursos"@) || contains_text(
            label,
            "resources"@,
        ),
        ToolKind::TeachingGuide => contains_text(label, "guia"@),
    }
}

/// Whether the label, written in lowercase, names the tool.
pub fn label_names_tool(kind: ToolKind, label_lower: &str) -> (r: bool)
    ensures
        r == names_tool(kind, label_lower@),
{
    let l = chars_of(label_lower);
    match kind {
        ToolKind::Announcements => contains(&l, &chars_of("anuncis")) || contains(
            &l,
            &chars_of("avisos"),
        ) || contains(&l, &chars_of("announcements")),
        ToolKind::Lessons => contains(&l, &chars_of("lliçons")) || contains(
            &l,
            &chars_of("lecciones"),
        ) || contains(&l, &chars_of("lessonbuilder")) || contains(&l, &chars_of("contenidos")),
        ToolKind::Resources => contains(&l, &chars_of("recursos")) || contains(
            &l,
            &chars_of("resources"),
        ),
        ToolKind::TeachingGuide => contains(&l, &chars_of("guia")),
    }
}

/// The site that an address belongs to: what stands between `/site/` and
/// the next `/`, if that is not empty.
pub open spec fn site_of(url: Seq<char>) -> Option<Seq<char>> {
    match first_occurrence(url, "/site/"@, 0) {
        Some(at) => {
            let rest = url.subrange(at + 6, url.len() as int);
            let name = match crate::text::first_index_of(rest, '/') {
                Some(end) => rest.subrange(0, end),
                None => rest,
            };
            if name.len() > 0 {
                Some(name)
            } else {
                None
            }
        },
        None => None,
    }
}

/// The site that an address belongs to.
pub fn site_name(url: &str) -> (r: Option<String>)
    ensures
        crate::text::opt_view(r) == site_of(url@),
{
    let u = chars_of(url);
    let mark = chars_of("/site/");
    proof {
        reveal_strlit("/site/");
    }
    match find(&u, &mark) {
        Some(at) => {
            let rest = slice(&u, at + 6, u.len());
            let name = match crate::text::find_char(&rest, '/') {
                Some(end) => slice(&rest, 0, end),
                None => rest,
            };
            if name.len() > 0 {
                Some(string_of(&name))
            } else {
                None
            }
        },
        None => None,
    }
}

/// A link of the navigation of a subject.
#[derive(Clone, Debug)]
pub struct ToolLink {
    /// The text of the link, or its title where it has no text.
    pub label: String,
    /// Where the link leads.
    pub href: String,
    /// Whether the link carries the mark of the teaching guide.
    pub guide_mark: bool,
}

/// The model of a link of the navigation.
pub struct ToolLinkView {
    pub label: Seq<char>,
    pub href: Seq<char>,
    pub guide_mark: bool,
}

impl View for ToolLink {
    type V = ToolLinkView;

    open spec fn view(&self) -> ToolLinkView {
        ToolLinkView { label: self.label@, href: self.href@, guide_mark: self.guide_mark }
    }
}

/// The views of a list of links.
pub open spec fn tool_link_views(links: Seq<ToolLink>) -> Seq<ToolLinkView> {
    Seq::new(links.len(), |i: int| links[i]@)
}

/// The link leads out of the site of the page: both name a site, and not the
/// same.
pub open spec fn leaves_site(page_url: Seq<char>, href: Seq<char>) -> bool {
    site_of(page_url).is_some() && site_of(href).is_some() && site_of(page_url) != site_of(href)
}

/// The link stands for the tool: it stays in the site, and its label names
/// the tool or, for the teaching guide, it carries the mark of the guide.
pub open spec fn link_is(kind: ToolKind, page_url: Seq<char>, link: ToolLinkView) -> bool {
    &&& !leaves_site(page_url, link.href)
    &&& (names_tool(kind, lowercase(link.label)) || (kind == ToolKind::TeachingGuide
        && link.guide_mark))
}

/// Where the tool is found by the first `n` links: where the last of them
/// that stands for it leads.
pub open spec fn tool_href(
    kind: ToolKind,
    page_url: Seq<char>,
    links: Seq<ToolLinkView>,
    n: int,
) -> Option<Seq<char>>
    decreases n,
{
    if n <= 0 {
        None
    } else if link_is(kind, page_url, links[n - 1]) {
        Some(links[n - 1].href)
    } else {
        tool_href(kind, page_url, links, n - 1)
    }
}

/// Where the tool of a subject is found, by the links of its navigation.
pub fn find_tool(kind: ToolKind, page_url: &str, links: &Vec<ToolLink>) -> (r: Option<String>)
    ensures
        crate::text::opt_view(r) == tool_href(
            kind,
            page_url@,
            tool_link_views(links@),
            links@.len() as int,
        ),
{
    let ghost l = tool_link_views(links@);
    let here = site_name(page_url);
    let mut i: usize = links.len();
    while i > 0
        invariant
            i <= links.len(),
            l == tool_link_views(links@),
            crate::text::opt_view(here) == site_of(page_url@),
            tool_href(kind, page_url@, l, links@.len() as int) == tool_href(
                kind,
                page_url@,
                l,
                i as int,
            ),
        decreases i,
    {
        i -= 1;
        let link = &links[i];
        assert(l[i as int] == link@);
        let there = site_name(link.href.as_str());
        let leaves = match (&here, &there) {
            (Some(a), Some(b)) => !a.as_str().eq(b.as_str()),
            _ => false,
        };
        if !leaves {
            let lower = link.label.as_str().to_lowercase();
            let named = label_names_tool(kind, lower.as_str());
            let marked = match kind {
                ToolKind::TeachingGuide => link.guide_mark,
                _ => false,
            };
            if named || marked {
                return Some(link.href.clone());
            }
        }
    }
    None
}

// ---------------------------------------------------------------------------
// The teaching guide
// ---------------------------------------------------------------------------

/// The number of a subject in the catalogue of the university: the second
/// part of its id, the parts divided by `_`; empty where the id has one part.
pub open spec fn catalogue_number(subject_id: Seq<char>) -> Seq<char> {
    let parts = pieces(subject_id, '_');
    if parts.len() >= 2 {
        parts[1]
    } else {
        Seq::empty()
    }
}

/// The academic year of a subject: the third part of its id; 2025 where the
/// id has fewer parts.
pub open spec fn academic_year(subject_id: Seq<char>) -> Seq<char> {
    let parts = pieces(subject_id, '_');
    if parts.len() >= 3 {
        parts[2]
    } else {
        "2025"@
    }
}

/// The address of the teaching guide, for printing.
pub open spec fn guide_url(number: Seq<char>, year: Seq<char>) -> Seq<char> {
    "https://www.upv.es/pls/soalu/sic_gdoc.get_content?P_ASI="@ + number
        + "&P_IDIOMA=c&P_VISTA=poliformat&P_TIT=&P_CACA="@ + year
}

/// The address of the description in the teaching guide.
pub open spec fn guide_description_url(number: Seq<char>, year: Seq<char>) -> Seq<char> {
    guide_url(number, year) + "&P_CONTENT=descripcion"@
}

/// The address of the list of professors.
pub open spec fn professors_url(number: Seq<char>, year: Seq<char>) -> Seq<char> {
    "https://www.upv.es/pls/soalu/sic_asi.Profesores?P_OCW=&P_ASI="@ + number + "&P_CACA="@ + year
        + "&P_IDIOMA=c&P_VISTA=poliformat"@
}

/// The name of the file that the teaching guide is printed to.
pub open spec fn guide_file_name(subject_name: Seq<char>) -> Seq<char> {
    replaced(subject_name, '/', '-') + " (Guia Docent).pdf"@
}

/// The addresses of the teaching guide of a subject.
#[derive(Clone, Debug)]
pub struct GuidePages {
    pub print_url: String,
    pub description_url: String,
    pub professors_url: String,
    pub file_name: String,
}

/// The addresses of the teaching guide of a subject; none where the id of
/// the subject holds no catalogue number.
pub fn guide_pages(subject: &Subject) -> (r: Option<GuidePages>)
    ensures
        match r {
            Some(g) => {
                let number = catalogue_number(subject@.id);
                let year = academic_year(subject@.id);
                &&& number.len() > 0
                &&& g.print_url@ == guide_url(number, year)
                &&& g.description_url@ == guide_description_url(number, year)
                &&& g.professors_url@ == professors_url(number, year)
                &&& g.file_name@ == guide_file_name(subject@.name)
            },
            None => catalogue_number(subject@.id).len() == 0,
        },
{
    let parts = split_on(&chars_of(subject.id.as_str()), '_');
    assert(char_views(parts@)[0] == parts@[0]@);
    if parts.len() < 2 || parts[1].len() == 0 {
        proof {
            if parts@.len() >= 2 {
                assert(char_views(parts@)[1] == parts@[1]@);
            }
        }
        return None;
    }
    assert(char_views(parts@)[1] == parts@[1]@);
    let number = &parts[1];
    let year: Vec<char> = if parts.len() >= 3 {
        assert(char_views(parts@)[2] == parts@[2]@);
        slice(&parts[2], 0, parts[2].len())
    } else {
        chars_of("2025")
    };
    proof {
        if parts@.len() >= 3 {
            assert(parts@[2]@.subrange(0, parts@[2]@.len() as int) =~= parts@[2]@);
        }
    }
    let mut print: Vec<char> = Vec::new();
    push_str(&mut print, "https://www.upv.es/pls/soalu/sic_gdoc.get_content?P_ASI=");
    push_all(&mut print, number);
    push_str(&mut print, "&P_IDIOMA=c&P_VISTA=poliformat&P_TIT=&P_CACA=");
    push_all(&mut print, &year);
    let mut description: Vec<char> = slice(&print, 0, print.len());
    assert(print@.subrange(0, print@.len() as int) =~= print@);
    push_str(&mut description, "&P_CONTENT=descripcion");
    let mut professors: Vec<char> = Vec::new();
    push_str(&mut professors, "https://www.upv.es/pls/soalu/sic_asi.Profesores?P_OCW=&P_ASI=");
    push_all(&mut professors, number);
    push_str(&mut professors, "&P_CACA=");
    push_all(&mut professors, &year);
    push_str(&mut professors, "&P_IDIOMA=c&P_VISTA=poliformat");
    let mut file: Vec<char> = replace_char(&chars_of(subject.name.as_str()), '/', '-');
    push_str(&mut file, " (Guia Docent).pdf");
    Some(
        GuidePages {
            print_url: string_of(&print),
            description_url: string_of(&description),
            professors_url: string_of(&professors),
            file_name: string_of(&file),
        },
    )
}

// ---------------------------------------------------------------------------
// The summary
// ---------------------------------------------------------------------------

/// The parts of the summary of a subject.
#[derive(Clone, Copy, Debug, PartialEq, Eq, Structural)]
pub enum Section {
    Dashboard,
    Announcements,
    Lessons,
    Guide,
    GuideDescription,
    Professors,
}

/// The number of characters of the dashboard that the summary takes.
pub const DASHBOARD_CHARS: usize = 3000;

/// What a part adds to the summary: its heading and the text read for it. Of
/// the dashboard only the first 3000 characters are taken; a part of the
/// teaching guide for which nothing was read adds nothing.
pub open spec fn section_text(section: Section, text: Seq<char>) -> Seq<char> {
    match section {
        Section::Dashboard => "--- DASHBOARD ---\n"@ + first_chars(text, 3000) + seq!['\n'],
        Section::Announcements => "\n--- ANUNCIS ---\n"@ + text + seq!['\n'],
        Section::Lessons => "\n--- LLIÇONS ---\n"@ + text + seq!['\n'],
        Section::Guide => if text.len() == 0 {
            Seq::empty()
        } else {
            "\n--- GUIA DOCENT ---\n"@ + text + seq!['\n']
        },
        Section::GuideDescription => if text.len() == 0 {
            Seq::empty()
        } else {
            "\n--- GUIA DOCENT DESCRIPTION ---\n"@ + text + seq!['\n']
        },
        Section::Professors => if text.len() == 0 {
            Seq::empty()
        } else {
            "\n--- PROFESSORS ---\n"@ + text + seq!['\n']
        },
    }
}

/// Adds a part to the summary of a subject.
pub fn add_section(summary: &mut String, section: Section, text: &str)
    ensures
        final(summary)@ == old(summary)@ + section_text(section, text@),
{
    let mut out = chars_of(summary.as_str());
    let t = chars_of(text);
    let ghost before = out@;
    match section {
        Section::Dashboard => {
            push_str(&mut out, "--- DASHBOARD ---\n");
            push_all(&mut out, &take_chars(&t, DASHBOARD_CHARS));
            out.push('\n');
        },
        Section::Announcements => {
            push_str(&mut out, "\n--- ANUNCIS ---\n");
            push_all(&mut out, &t);
            out.push('\n');
        },
        Section::Lessons => {
            push_str(&mut out, "\n--- LLIÇONS ---\n");
            push_all(&mut out, &t);
            out.push('\n');
        },
        Section::Guide => {
            if t.len() > 0 {
                push_str(&mut out, "\n--- GUIA DOCENT ---\n");
                push_all(&mut out, &t);
                out.push('\n');
            }
        },
        Section::GuideDescription => {
            if t.len() > 0 {
                push_str(&mut out, "\n--- GUIA DOCENT DESCRIPTION ---\n");
                push_all(&mut out, &t);
                out.push('\n');
            }
        },
        Section::Professors => {
            if t.len() > 0 {
                push_str(&mut out, "\n--- PROFESSORS ---\n");
                push_all(&mut out, &t);
                out.push('\n');
            }
        },
    }
    assert(out@ =~= before + section_text(section, text@));
    *summary = string_of(&out);
}

// ---------------------------------------------------------------------------
// What the browser is asked to do
// ---------------------------------------------------------------------------

/// One thing that the browser is asked to do in the tab of a subject.
#[derive(Clone, Debug)]
pub enum ScrapeAction {
    /// Go to the address.
    Navigate(String),
    /// Wait until the page has loaded.
    AwaitNavigation,
    /// Pause for so many milliseconds.
    Pause(u64),
    /// Wait until the page has an element for the selector, for at most so
    /// many milliseconds.
    AwaitElement(String, u64),
    /// Type the user name into the element for the selector.
    TypeUsername(String),
    /// Type the password into the element for the selector.
    TypePassword(String),
    /// Click the element for the selector, if the page has one.
    Click(String),
    /// Click the element with the id, if the page has one.
    ClickById(String),
    /// Read the text of the element for the selector, or of the whole page
    /// where the selector is empty or the page has no such element, for a
    /// part of the summary.
    Read(String, Section),
    /// Read the text of the teaching guide, which may stand in a frame.
    ReadGuide,
    /// Wait until the downloads are complete.
    AwaitDownloads,
    /// Print the page to a file of this name among the downloads.
    PrintPdf(String),
}

/// The model of what the browser is asked to do.
pub enum ScrapeActionView {
    Navigate(Seq<char>),
    AwaitNavigation,
    Pause(u64),
    AwaitElement(Seq<char>, u64),
    TypeUsername(Seq<char>),
    TypePassword(Seq<char>),
    Click(Seq<char>),
    ClickById(Seq<char>),
    Read(Seq<char>, Section),
    ReadGuide,
    AwaitDownloads,
    PrintPdf(Seq<char>),
}

impl View for ScrapeAction {
    type V = ScrapeActionView;

    open spec fn view(&self) -> ScrapeActionView {
        match self {
            ScrapeAction::Navigate(u) => ScrapeActionView::Navigate(u@),
            ScrapeAction::AwaitNavigation => ScrapeActionView::AwaitNavigation,
            ScrapeAction::Pause(ms) => ScrapeActionView::Pause(*ms),
            ScrapeAction::AwaitElement(s, ms) => ScrapeActionView::AwaitElement(s@, *ms),
            ScrapeAction::TypeUsername(s) => ScrapeActionView::TypeUsername(s@),
            ScrapeAction::TypePassword(s) => ScrapeActionView::TypePassword(s@),
            ScrapeAction::Click(s) => ScrapeActionView::Click(s@),
            ScrapeAction::ClickById(s) => ScrapeActionView::ClickById(s@),
            ScrapeAction::Read(s, section) => ScrapeActionView::Read(s@, *section),
            ScrapeAction::ReadGuide => ScrapeActionView::ReadGuide,
            ScrapeAction::AwaitDownloads => ScrapeActionView::AwaitDownloads,
            ScrapeAction::PrintPdf(n) => ScrapeActionView::PrintPdf(n@),
        }
    }
}

/// The views of a list of actions.
pub open spec fn action_views(actions: Seq<ScrapeAction>) -> Seq<ScrapeActionView> {
    Seq::new(actions.len(), |i: int| actions[i]@)
}

/// A string with the characters of a literal.
fn text(s: &str) -> (r: String)
    ensures
        r@ == s@,
{
    string_of(&chars_of(s))
}

/// How the page of a subject is opened: go there, and give it two seconds.
pub open spec fn opening(url: Seq<char>) -> Seq<ScrapeActionView> {
    seq![ScrapeActionView::Navigate(url), ScrapeActionView::Pause(2000)]
}

/// How the page of a subject is opened.
pub fn open_plan(subject: &Subject) -> (r: Vec<ScrapeAction>)
    ensures
        action_views(r@) == opening(subject@.url),
{
    let mut out: Vec<ScrapeAction> = Vec::new();
    out.push(ScrapeAction::Navigate(subject.url.clone()));
    out.push(ScrapeAction::Pause(2000));
    assert(action_views(out@) =~= opening(subject@.url));
    out
}

/// Whether the session is renewed in the tab before the subject is scraped:
/// the page asks the user to sign in, and there are credentials.
pub fn needs_reauth(url: &str, body: &str, has_credentials: bool) -> (r: bool)
    ensures
        r == (has_credentials && asks_login(url@, body@)),
{
    has_credentials && login_required(url, body)
}

/// How the session is renewed in the tab of a subject: the form is opened
/// and waited for, the credentials are typed and sent, the portal is waited
/// for, and the page of the subject is opened again.
pub open spec fn renewing(url: Seq<char>) -> Seq<ScrapeActionView> {
    seq![
        ScrapeActionView::Navigate("https://poliformat.upv.es/portal/login"@),
        ScrapeActionView::Pause(3000),
        ScrapeActionView::AwaitElement(
            "#username, input[name='dni'], input[name='username']"@,
            15000,
        ),
        ScrapeActionView::TypeUsername("#username, input[name='dni'], input[name='username']"@),
        ScrapeActionView::TypePassword("#password, input[name='clau'], input[name='password']"@),
        ScrapeActionView::Click(".btn-submit, input[type='submit'], button[type='submit']"@),
        ScrapeActionView::AwaitElement("#toolMenu, .Mrphs-toolsNav"@, 20000),
        ScrapeActionView::Navigate(url),
        ScrapeActionView::Pause(2000),
    ]
}

/// How the session is renewed in the tab of a subject.
pub fn reauth_plan(subject: &Subject) -> (r: Vec<ScrapeAction>)
    ensures
        action_views(r@) == renewing(subject@.url),
{
    let mut out: Vec<ScrapeAction> = Vec::new();
    out.push(ScrapeAction::Navigate(text("https://poliformat.upv.es/portal/login")));
    out.push(ScrapeAction::Pause(3000));
    out.push(
        ScrapeAction::AwaitElement(
            text("#username, input[name='dni'], input[name='username']"),
            15000,
        ),
    );
    out.push(ScrapeAction::TypeUsername(text("#username, input[name='dni'], input[name='username']")));
    out.push(
        ScrapeAction::TypePassword(text("#password, input[name='clau'], input[name='password']")),
    );
    out.push(ScrapeAction::Click(text(".btn-submit, input[type='submit'], button[type='submit']")));
    out.push(ScrapeAction::AwaitElement(text("#toolMenu, .Mrphs-toolsNav"), 20000));
    out.push(ScrapeAction::Navigate(subject.url.clone()));
    out.push(ScrapeAction::Pause(2000));
    assert(action_views(out@) =~= renewing(subject@.url));
    out
}

/// How the dashboard of a subject is read: the navigation is waited for,
/// then the text of the page is read.
pub open spec fn settling() -> Seq<ScrapeActionView> {
    seq![
        ScrapeActionView::AwaitElement("#toolMenu"@, 10000),
        ScrapeActionView::Pause(2000),
        ScrapeActionView::Read(Seq::empty(), Section::Dashboard),
    ]
}

/// How the dashboard of a subject is read.
pub fn dashboard_plan() -> (r: Vec<ScrapeAction>)
    ensures
        action_views(r@) == settling(),
{
    let mut out: Vec<ScrapeAction> = Vec::new();
    out.push(ScrapeAction::AwaitElement(text("#toolMenu"), 10000));
    out.push(ScrapeAction::Pause(2000));
    out.push(ScrapeAction::Read(String::new(), Section::Dashboard));
    assert(action_views(out@) =~= settling());
    out
}

/// How a tool of a subject is visited. The announcements and the lessons are
/// read. In the resources everything is selected and asked for as an archive,
/// and the downloads are waited for. The teaching guide is read.
pub open spec fn visiting(kind: ToolKind, href: Seq<char>) -> Seq<ScrapeActionView> {
    match kind {
        ToolKind::Announcements => seq![
            ScrapeActionView::Navigate(href),
            ScrapeActionView::Pause(3000),
            ScrapeActionView::Read(".portletBody"@, Section::Announcements),
        ],
        ToolKind::Lessons => seq![
            ScrapeActionView::Navigate(href),
            ScrapeActionView::Pause(3000),
            ScrapeActionView::Read(Seq::empty(), Section::Lessons),
        ],
        ToolKind::Resources => seq![
            ScrapeActionView::Navigate(href),
            ScrapeActionView::Pause(3000),
            ScrapeActionView::ClickById("selectall"@),
            ScrapeActionView::Pause(500),
            ScrapeActionView::ClickById("zipdownload-button"@),
            ScrapeActionView::Pause(2000),
            ScrapeActionView::ClickById("zipDownloadButton"@),
            ScrapeActionView::AwaitDownloads,
        ],
        ToolKind::TeachingGuide => seq![
            ScrapeActionView::Navigate(href),
            ScrapeActionView::Pause(4000),
            ScrapeActionView::ReadGuide,
        ],
    }
}

/// How a tool of a subject is visited.
pub fn tool_plan(kind: ToolKind, href: &str) -> (r: Vec<ScrapeAction>)
    ensures
        action_views(r@) == visiting(kind, href@),
{
    let mut out: Vec<ScrapeAction> = Vec::new();
    out.push(ScrapeAction::Navigate(text(href)));
    match kind {
        ToolKind::Announcements => {
            out.push(ScrapeAction::Pause(3000));
            out.push(ScrapeAction::Read(text(".portletBody"), Section::Announcements));
        },
        ToolKind::Lessons => {
            out.push(ScrapeAction::Pause(3000));
            out.push(ScrapeAction::Read(String::new(), Section::Lessons));
        },
        ToolKind::Resources => {
            out.push(ScrapeAction::Pause(3000));
            out.push(ScrapeAction::ClickById(text("selectall")));
            out.push(ScrapeAction::Pause(500));
            out.push(ScrapeAction::ClickById(text("zipdownload-button")));
            out.push(ScrapeAction::Pause(2000));
            out.push(ScrapeAction::ClickById(text("zipDownloadButton")));
            out.push(ScrapeAction::AwaitDownloads);
        },
        ToolKind::TeachingGuide => {
            out.push(ScrapeAction::Pause(4000));
            out.push(ScrapeAction::ReadGuide);
        },
    }
    assert(action_views(out@) =~= visiting(kind, href@));
    out
}

/// How the teaching guide is printed and its description and the list of
/// professors are read, once the guide itself was read.
pub open spec fn printing(
    print_url: Seq<char>,
    description_url: Seq<char>,
    professors_url: Seq<char>,
    file_name: Seq<char>,
) -> Seq<ScrapeActionView> {
    seq![
        ScrapeActionView::Navigate(print_url),
        ScrapeActionView::AwaitNavigation,
        ScrapeActionView::Pause(3000),
        ScrapeActionView::PrintPdf(file_name),
        ScrapeActionView::Navigate(description_url),
        ScrapeActionView::AwaitNavigation,
        ScrapeActionView::Pause(2000),
        ScrapeActionView::Read("#contenido"@, Section::GuideDescription),
        ScrapeActionView::Navigate(professors_url),
        ScrapeActionView::AwaitNavigation,
        ScrapeActionView::Pause(2000),
        ScrapeActionView::Read("#contenido"@, Section::Professors),
    ]
}

/// How the teaching guide is printed and its description and the list of
/// professors are read.
pub fn guide_plan(pages: &GuidePages) -> (r: Vec<ScrapeAction>)
    ensures
        action_views(r@) == printing(
            pages.print_url@,
            pages.description_url@,
            pages.professors_url@,
            pages.file_name@,
        ),
{
    let mut out: Vec<ScrapeAction> = Vec::new();
    out.push(ScrapeAction::Navigate(pages.print_url.clone()));
    out.push(ScrapeAction::AwaitNavigation);
    out.push(ScrapeAction::Pause(3000));
    out.push(ScrapeAction::PrintPdf(pages.file_name.clone()));
    out.push(ScrapeAction::Navigate(pages.description_url.clone()));
    out.push(ScrapeAction::AwaitNavigation);
    out.push(ScrapeAction::Pause(2000));
    out.push(ScrapeAction::Read(text("#contenido"), Section::GuideDescription));
    out.push(ScrapeAction::Navigate(pages.professors_url.clone()));
    out.push(ScrapeAction::AwaitNavigation);
    out.push(ScrapeAction::Pause(2000));
    out.push(ScrapeAction::Read(text("#contenido"), Section::Professors));
    assert(action_views(out@) =~= printing(
        pages.print_url@,
        pages.description_url@,
        pages.professors_url@,
        pages.file_name@,
    ));
    out
}

/// The order in which the tools of a subject are visited.
pub fn visit_order() -> (r: Vec<ToolKind>)
    ensures
        r@ == seq![
            ToolKind::Announcements,
            ToolKind::Lessons,
            ToolKind::Resources,
            ToolKind::TeachingGuide,
        ],
{
    let mut out: Vec<ToolKind> = Vec::new();
    out.push(ToolKind::Announcements);
    out.push(ToolKind::Lessons);
    out.push(ToolKind::Resources);
    out.push(ToolKind::TeachingGuide);
    assert(out@ =~= seq![
        ToolKind::Announcements,
        ToolKind::Lessons,
        ToolKind::Resources,
        ToolKind::TeachingGuide,
    ]);
    out
}

// ---------------------------------------------------------------------------
// Downloads
// ---------------------------------------------------------------------------

/// The time given to a download to begin, in milliseconds.
pub const DOWNLOAD_GRACE_MS: u64 = 5_000;

/// The time given to the downloads to complete, in milliseconds.
pub const DOWNLOAD_TIMEOUT_MS: u64 = 120_000;

/// The pause between two looks at the directory, in milliseconds.
pub const DOWNLOAD_POLL_MS: u64 = 2_000;

/// The file is a download under way, by its name.
pub open spec fn in_progress(name: Seq<char>) -> bool {
    has_suffix(lowercase(name), ".crdownload"@) || has_suffix(lowercase(name), ".tmp"@)
        || has_suffix(lowercase(name), ".part"@)
}

/// A file among the first `n` is a download under way.
pub open spec fn any_in_progress(names: Seq<Seq<char>>, n: int) -> bool
    decreases n,
{
    if n <= 0 {
        false
    } else {
        any_in_progress(names, n - 1) || in_progress(names[n - 1])
    }
}

/// Whether the file is a download under way.
pub fn is_in_progress(name: &str) -> (r: bool)
    ensures
        r == in_progress(name@),
{
    let lower = chars_of(name.to_lowercase().as_str());
    ends_with(&lower, &chars_of(".crdownload")) || ends_with(&lower, &chars_of(".tmp")) || ends_with(
        &lower,
        &chars_of(".part"),
    )
}

/// What a look at the directory of the downloads leads to.
#[derive(Clone, Copy, Debug, PartialEq, Eq, Structural)]
pub enum DownloadPoll {
    /// The time is up; the scrape goes on with what is there.
    TimedOut,
    /// No download is under way; `arrived` tells whether any file is there.
    Complete { arrived: bool },
    /// A download is under way: pause for so many milliseconds and look
    /// again.
    Wait(u64),
}

/// What a look at the directory leads to, `elapsed_ms` after the downloads
/// were asked for, with the names of the files that are there.
pub fn download_poll(elapsed_ms: u64, names: &Vec<String>) -> (r: DownloadPoll)
    ensures
        r == if elapsed_ms > 120_000 {
            DownloadPoll::TimedOut
        } else if any_in_progress(str_views(names@), names@.len() as int) {
            DownloadPoll::Wait(2_000)
        } else {
            DownloadPoll::Complete { arrived: names@.len() > 0 }
        },
{
    if elapsed_ms > DOWNLOAD_TIMEOUT_MS {
        return DownloadPoll::TimedOut;
    }
    let ghost n = str_views(names@);
    let mut i: usize = 0;
    while i < names.len()
        invariant
            i <= names.len(),
            elapsed_ms <= 120_000,
            n == str_views(names@),
            !any_in_progress(n, i as int),
        decreases names.len() - i,
    {
        assert(n[i as int] == names@[i as int]@);
        if is_in_progress(names[i].as_str()) {
            proof {
                assert(any_in_progress(n, i + 1));
                lemma_in_progress_stays(n, i + 1, names@.len() as int);
            }
            return DownloadPoll::Wait(DOWNLOAD_POLL_MS);
        }
        i += 1;
    }
    DownloadPoll::Complete { arrived: names.len() > 0 }
}

/// A download under way among some files is under way among more.
pub proof fn lemma_in_progress_stays(names: Seq<Seq<char>>, n: int, m: int)
    requires
        n <= m,
        any_in_progress(names, n),
    ensures
        any_in_progress(names, m),
    decreases m - n,
{
    if n < m {
        lemma_in_progress_stays(names, n, m - 1);
    }
}

} // verus!
