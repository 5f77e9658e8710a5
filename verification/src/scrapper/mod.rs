//! The portal client: what is decided between two browser or network calls.
//!
//! The browser and the network are driven by the caller. This module holds the
//! rules: when a session counts as expired, which links of the portal are
//! subjects, what is asked of the browser for each subject, how the scraped
//! text is put together, and when the downloads are taken to be complete.

pub mod auth;
pub mod processing;
pub mod scrape;


use crate::text::{char_views, chars_of, comes_before, contains, contains_text, find_char, first_index_of, last_index_of, pieces, precedes, rfind_char, same_chars, slice, split_on, str_views, string_of, trim, trimmed};
use vstd::prelude::*;

verus! {

/// A course as the portal lists it. The id is the last segment of its
/// address.
#[derive(Clone, Debug)]
pub struct Subject {
    pub id: String,
    pub name: String,
    pub url: String,
}

/// The model of a subject.
pub struct SubjectView {
    pub id: Seq<char>,
    pub name: Seq<char>,
    pub url: Seq<char>,
}

impl View for Subject {
    type V = SubjectView;

    open spec fn view(&self) -> SubjectView {
        SubjectView { id: self.id@, name: self.name@, url: self.url@ }
    }
}

/// The views of a list of subjects.
pub open spec fn subject_views(subjects: Seq<Subject>) -> Seq<SubjectView> {
    Seq::new(subjects.len(), |i: int| subjects[i]@)
}

impl Subject {
    /// A copy of the subject.
    pub fn duplicate(&self) -> (r: Self)
        ensures
            r@ == self@,
    {
        Subject { id: self.id.clone(), name: self.name.clone(), url: self.url.clone() }
    }
}

// ---------------------------------------------------------------------------
// The session
// ---------------------------------------------------------------------------

/// The address of the portal.
pub fn portal_url() -> (r: &'static str)
    ensures
        r@ == "https://poliformat.upv.es"@,
{
    "https://poliformat.upv.es"
}

/// Whether the client holds a session of the portal.
#[derive(Clone, Copy, Debug, PartialEq, Eq, Structural)]
pub enum SessionState {
    Unauthenticated,
    Authenticating,
    Authenticated,
}

/// What happens to a session.
#[derive(Clone, Copy, Debug, PartialEq, Eq, Structural)]
pub enum SessionEvent {
    /// Credentials were provided, and signing in has begun.
    CredentialsProvided,
    /// Signing in succeeded.
    LoginSucceeded,
    /// Signing in failed.
    LoginFailed,
    /// The portal answered with its form: the session has expired.
    SessionExpired,
}

/// The state of the session after an event; an event that does not belong to
/// the state leaves it as it is.
pub open spec fn session_next(state: SessionState, event: SessionEvent) -> SessionState {
    match (state, event) {
        (SessionState::Unauthenticated, SessionEvent::CredentialsProvided) => {
            SessionState::Authenticating
        },
        (SessionState::Authenticating, SessionEvent::LoginSucceeded) => SessionState::Authenticated,
        (SessionState::Authenticating, SessionEvent::LoginFailed) => SessionState::Unauthenticated,
        (SessionState::Authenticated, SessionEvent::SessionExpired) => {
            SessionState::Unauthenticated
        },
        _ => state,
    }
}

/// The state of the session after an event.
pub fn session_step(state: SessionState, event: SessionEvent) -> (r: SessionState)
    ensures
        r == session_next(state, event),
{
    match (state, event) {
        (SessionState::Unauthenticated, SessionEvent::CredentialsProvided) => {
            SessionState::Authenticating
        },
        (SessionState::Authenticating, SessionEvent::LoginSucceeded) => SessionState::Authenticated,
        (SessionState::Authenticating, SessionEvent::LoginFailed) => SessionState::Unauthenticated,
        (SessionState::Authenticated, SessionEvent::SessionExpired) => {
            SessionState::Unauthenticated
        },
        _ => state,
    }
}

/// A session is held only after signing in succeeded.
pub proof fn lemma_session_needs_login(state: SessionState, event: SessionEvent)
    requires
        state != SessionState::Authenticated,
        session_next(state, event) == SessionState::Authenticated,
    ensures
        state == SessionState::Authenticating,
        event == SessionEvent::LoginSucceeded,
{
}

/// The address that the portal answered from shows that the session has
/// expired: it names the form, the authentication service or the gateway.
pub open spec fn shows_expiry(url: Seq<char>) -> bool {
    contains_text(url, "login"@) || contains_text(url, "est_aute"@) || contains_text(
        url,
        "gateway"@,
    )
}

/// Whether the session has expired, by the address that the portal answered
/// from.
pub fn session_expired(url: &str) -> (r: bool)
    ensures
        r == shows_expiry(url@),
{
    let u = chars_of(url);
    contains(&u, &chars_of("login")) || contains(&u, &chars_of("est_aute")) || contains(
        &u,
        &chars_of("gateway"),
    )
}

/// The page asks the user to sign in: its address names the form or the
/// gateway, or its text says so.
pub open spec fn asks_login(url: Seq<char>, body: Seq<char>) -> bool {
    ||| contains_text(url, "login"@)
    ||| contains_text(url, "gateway"@)
    ||| contains_text(url, "xlogin"@)
    ||| contains_text(body, "Identificación obligatoria"@)
    ||| contains_text(body, "Identificarse"@)
}

/// Whether the page asks the user to sign in.
pub fn login_required(url: &str, body: &str) -> (r: bool)
    ensures
        r == asks_login(url@, body@),
{
    let u = chars_of(url);
    let b = chars_of(body);
    contains(&u, &chars_of("login")) || contains(&u, &chars_of("gateway")) || contains(
        &u,
        &chars_of("xlogin"),
    ) || contains(&b, &chars_of("Identificación obligatoria")) || contains(
        &b,
        &chars_of("Identificarse"),
    )
}

// ---------------------------------------------------------------------------
// Importing cookies
// ---------------------------------------------------------------------------

/// The line of a `Set-Cookie` header for a cookie.
pub open spec fn cookie_line(
    name: Seq<char>,
    value: Seq<char>,
    domain: Seq<char>,
    path: Seq<char>,
    secure: bool,
) -> Seq<char> {
    name + seq!['='] + value + (if secure {
        "; Secure"@
    } else {
        Seq::empty()
    }) + "; Path="@ + path + "; Domain="@ + (if has_prefix_dot(domain) {
        domain.subrange(1, domain.len() as int)
    } else {
        domain
    })
}

/// The domain begins with a dot.
pub open spec fn has_prefix_dot(domain: Seq<char>) -> bool {
    domain.len() > 0 && domain[0] == '.'
}

/// Trusted: a cookie built with `cookie::Cookie::build` from a name and a
/// value, with domain, path and the secure flag set, and written with
/// `to_string`. The crate writes name and value, then `; Secure` where the
/// flag is set, then the path, then the domain without a dot at its start.
#[verifier::external_body]
fn set_cookie_line(name: &str, value: &str, domain: &str, path: &str, secure: bool) -> (r: String)
    ensures
        r@ == cookie_line(name@, value@, domain@, path@, secure),
{
    cookie::Cookie::build((name, value)).domain(domain).path(path).secure(secure).build().to_string()
}

/// The name and the value of a piece of a `Cookie` header: what stands
/// before and after its first `=`, the piece trimmed first; nothing for a
/// piece without `=`.
pub open spec fn pair_of(piece: Seq<char>) -> Option<(Seq<char>, Seq<char>)> {
    let p = trimmed(piece);
    match first_index_of(p, '=') {
        Some(i) => Some((p.subrange(0, i), p.subrange(i + 1, p.len() as int))),
        None => None,
    }
}

/// The pairs of the first `n` pieces.
pub open spec fn pairs_of(parts: Seq<Seq<char>>, n: int) -> Seq<(Seq<char>, Seq<char>)>
    decreases n,
{
    if n <= 0 {
        Seq::empty()
    } else {
        match pair_of(parts[n - 1]) {
            Some(p) => pairs_of(parts, n - 1).push(p),
            None => pairs_of(parts, n - 1),
        }
    }
}

/// The pairs of name and value that a `Cookie` header holds.
pub open spec fn header_pairs(header: Seq<char>) -> Seq<(Seq<char>, Seq<char>)> {
    pairs_of(pieces(header, ';'), pieces(header, ';').len() as int)
}

/// The views of a list of pairs.
pub open spec fn pair_views(v: Seq<(String, String)>) -> Seq<(Seq<char>, Seq<char>)> {
    Seq::new(v.len(), |i: int| (v[i].0@, v[i].1@))
}

/// The pairs of name and value that a `Cookie` header holds.
pub fn cookie_pairs(header: &str) -> (r: Vec<(String, String)>)
    ensures
        pair_views(r@) == header_pairs(header@),
{
    let parts = split_on(&chars_of(header), ';');
    let ghost p = char_views(parts@);
    let mut out: Vec<(String, String)> = Vec::new();
    let mut i: usize = 0;
    assert(pair_views(out@) =~= Seq::<(Seq<char>, Seq<char>)>::empty());
    while i < parts.len()
        invariant
            i <= parts.len(),
            p == char_views(parts@),
            pair_views(out@) == pairs_of(p, i as int),
        decreases parts.len() - i,
    {
        let piece = trim(&parts[i]);
        assert(p[i as int] == parts@[i as int]@);
        let ghost before = pair_views(out@);
        match find_char(&piece, '=') {
            Some(at) => {
                let k = slice(&piece, 0, at);
                let v = slice(&piece, at + 1, piece.len());
                out.push((string_of(&k), string_of(&v)));
                assert(pair_views(out@) =~= before.push((k@, v@)));
            },
            None => {},
        }
        i += 1;
    }
    out
}

/// The lines by which the cookies of a `Cookie` header are put into the jar
/// of the client: each cookie once for the host of the portal and once for
/// its registered domain, for every path, secure.
pub open spec fn import_lines(pairs: Seq<(Seq<char>, Seq<char>)>, n: int) -> Seq<Seq<char>>
    decreases n,
{
    if n <= 0 {
        Seq::empty()
    } else {
        import_lines(pairs, n - 1).push(
            cookie_line(pairs[n - 1].0, pairs[n - 1].1, "poliformat.upv.es"@, "/"@, true),
        ).push(cookie_line(pairs[n - 1].0, pairs[n - 1].1, "upv.es"@, "/"@, true))
    }
}

/// The lines by which the cookies of a `Cookie` header are put into the jar
/// of the client.
pub fn import_cookies(header: &str) -> (r: Vec<String>)
    ensures
        str_views(r@) == import_lines(header_pairs(header@), header_pairs(header@).len() as int),
{
    let pairs = cookie_pairs(header);
    let ghost p = pair_views(pairs@);
    let mut out: Vec<String> = Vec::new();
    let mut i: usize = 0;
    assert(str_views(out@) =~= Seq::<Seq<char>>::empty());
    while i < pairs.len()
        invariant
            i <= pairs.len(),
            p == pair_views(pairs@),
            str_views(out@) == import_lines(p, i as int),
        decreases pairs.len() - i,
    {
        let ghost before = str_views(out@);
        assert(p[i as int] == (pairs@[i as int].0@, pairs@[i as int].1@));
        let host = set_cookie_line(
            pairs[i].0.as_str(),
            pairs[i].1.as_str(),
            "poliformat.upv.es",
            "/",
            true,
        );
        let wide = set_cookie_line(pairs[i].0.as_str(), pairs[i].1.as_str(), "upv.es", "/", true);
        let ghost h = host@;
        let ghost w = wide@;
        out.push(host);
        out.push(wide);
        assert(str_views(out@) =~= before.push(h).push(w));
        i += 1;
    }
    out
}

// ---------------------------------------------------------------------------
// The list of subjects
// ---------------------------------------------------------------------------

/// A link as the page of the portal holds it.
#[derive(Clone, Debug)]
pub struct PortalLink {
    pub href: String,
    pub label: String,
}

/// The model of a link.
pub struct LinkView {
    pub href: Seq<char>,
    pub label: Seq<char>,
}

impl View for PortalLink {
    type V = LinkView;

    open spec fn view(&self) -> LinkView {
        LinkView { href: self.href@, label: self.label@ }
    }
}

/// The views of a list of links.
pub open spec fn link_views(links: Seq<PortalLink>) -> Seq<LinkView> {
    Seq::new(links.len(), |i: int| links[i]@)
}

/// The label belongs to the navigation of the portal, not to a subject.
pub open spec fn is_navigation_label(label: Seq<char>) -> bool {
    ||| label == "Home"@
    ||| label == "Inici"@
    ||| label == "Castellano"@
    ||| label == "English"@
    ||| label == "Valencià"@
}

/// The link leads to a subject: its address names a site, and neither the
/// gateway nor a tool nor a personal workspace, and its label, trimmed, is
/// not empty and does not belong to the navigation.
pub open spec fn is_subject_link(link: LinkView) -> bool {
    &&& contains_text(link.href, "/portal/site/"@)
    &&& !contains_text(link.href, "!gateway"@)
    &&& !contains_text(link.href, "/tool/"@)
    &&& !contains_text(link.href, "~"@)
    &&& trimmed(link.label).len() > 0
    &&& !is_navigation_label(trimmed(link.label))
}

/// The last segment of an address: what follows its last `/`.
pub open spec fn last_segment(url: Seq<char>) -> Seq<char> {
    match last_index_of(url, '/') {
        Some(i) => url.subrange(i + 1, url.len() as int),
        None => url,
    }
}

/// A subject with this address is among the subjects.
pub open spec fn has_url(subjects: Seq<SubjectView>, url: Seq<char>) -> bool {
    exists|k: int| 0 <= k < subjects.len() && (#[trigger] subjects[k]).url == url
}

/// The subjects among the first `n` links: a link to a subject counts the
/// first time its address occurs.
pub open spec fn listed(links: Seq<LinkView>, n: int) -> Seq<SubjectView>
    decreases n,
{
    if n <= 0 {
        Seq::empty()
    } else {
        let before = listed(links, n - 1);
        let l = links[n - 1];
        if is_subject_link(l) && !has_url(before, l.href) {
            before.push(
                SubjectView { id: last_segment(l.href), name: trimmed(l.label), url: l.href },
            )
        } else {
            before
        }
    }
}

/// Whether the label belongs to the navigation of the portal.
fn navigation_label(label: &Vec<char>) -> (r: bool)
    ensures
        r == is_navigation_label(label@),
{
    same_chars(label, &chars_of("Home")) || same_chars(label, &chars_of("Inici")) || same_chars(
        label,
        &chars_of("Castellano"),
    ) || same_chars(label, &chars_of("English")) || same_chars(label, &chars_of("Valencià"))
}

/// Whether the link leads to a subject.
pub fn subject_link(link: &PortalLink) -> (r: bool)
    ensures
        r == is_subject_link(link@),
{
    let href = chars_of(link.href.as_str());
    let label = trim(&chars_of(link.label.as_str()));
    contains(&href, &chars_of("/portal/site/")) && !contains(&href, &chars_of("!gateway"))
        && !contains(&href, &chars_of("/tool/")) && !contains(&href, &chars_of("~")) && label.len()
        > 0 && !navigation_label(&label)
}

/// The last segment of an address.
pub fn last_segment_of(url: &str) -> (r: String)
    ensures
        r@ == last_segment(url@),
{
    let u = chars_of(url);
    match rfind_char(&u, '/') {
        Some(i) => string_of(&slice(&u, i + 1, u.len())),
        None => string_of(&u),
    }
}

/// Whether a subject with this address is among the subjects.
fn url_among(subjects: &Vec<Subject>, url: &str) -> (r: bool)
    ensures
        r == has_url(subject_views(subjects@), url@),
{
    let mut i: usize = 0;
    while i < subjects.len()
        invariant
            i <= subjects.len(),
            forall|k: int| 0 <= k < i ==> (#[trigger] subject_views(subjects@)[k]).url != url@,
        decreases subjects.len() - i,
    {
        if subjects[i].url.as_str().eq(url) {
            assert(subject_views(subjects@)[i as int].url == url@);
            return true;
        }
        i += 1;
    }
    false
}

/// The subjects among the links of the page that lists all sites.
pub fn subjects_from_links(links: &Vec<PortalLink>) -> (r: Vec<Subject>)
    ensures
        subject_views(r@) == listed(link_views(links@), links@.len() as int),
{
    let ghost l = link_views(links@);
    let mut out: Vec<Subject> = Vec::new();
    let mut i: usize = 0;
    assert(subject_views(out@) =~= Seq::<SubjectView>::empty());
    while i < links.len()
        invariant
            i <= links.len(),
            l == link_views(links@),
            subject_views(out@) == listed(l, i as int),
        decreases links.len() - i,
    {
        let link = &links[i];
        assert(l[i as int] == link@);
        let ghost before = subject_views(out@);
        if subject_link(link) && !url_among(&out, link.href.as_str()) {
            let s = Subject {
                id: last_segment_of(link.href.as_str()),
                name: string_of(&trim(&chars_of(link.label.as_str()))),
                url: link.href.clone(),
            };
            let ghost sv = s@;
            out.push(s);
            assert(subject_views(out@) =~= before.push(sv));
        }
        i += 1;
    }
    out
}

/// The index of the subject whose name comes first in the dictionary; the
/// first of them where several have the same name.
pub open spec fn first_by_name(s: Seq<SubjectView>) -> int
    decreases s.len(),
{
    if s.len() <= 1 {
        0
    } else {
        let b = first_by_name(s.drop_last());
        if precedes(s.last().name, s[b].name) {
            s.len() - 1
        } else {
            b
        }
    }
}

/// The first by name is one of the subjects, and the name of no subject
/// comes before its name.
pub proof fn lemma_first_by_name(s: Seq<SubjectView>)
    requires
        s.len() > 0,
    ensures
        0 <= first_by_name(s) < s.len(),
        forall|j: int|
            0 <= j < s.len() ==> !precedes((#[trigger] s[j]).name, s[first_by_name(s)].name),
    decreases s.len(),
{
    if s.len() > 1 {
        let init = s.drop_last();
        lemma_first_by_name(init);
        let b = first_by_name(init);
        let last = s.last();
        assert(init[b] == s[b]);
        assert forall|j: int| 0 <= j < s.len() implies !precedes(
            (#[trigger] s[j]).name,
            s[first_by_name(s)].name,
        ) by {
            if precedes(last.name, s[b].name) {
                if j < init.len() {
                    assert(init[j] == s[j]);
                    if precedes(s[j].name, last.name) {
                        crate::text::lemma_precedes_transitive(s[j].name, last.name, s[b].name);
                    }
                } else {
                    crate::text::lemma_precedes_irreflexive(last.name);
                }
            } else {
                if j < init.len() {
                    assert(init[j] == s[j]);
                }
            }
        }
    } else {
        crate::text::lemma_precedes_irreflexive(s[0].name);
    }
}

/// Whatever holds of every subject holds of every subject in the order of
/// the names.
pub proof fn lemma_by_name_keeps(s: Seq<SubjectView>, p: spec_fn(SubjectView) -> bool)
    requires
        forall|i: int| 0 <= i < s.len() ==> p(#[trigger] s[i]),
    ensures
        by_name(s).len() == s.len(),
        forall|i: int| 0 <= i < by_name(s).len() ==> p(#[trigger] by_name(s)[i]),
    decreases s.len(),
{
    if s.len() > 0 {
        lemma_first_by_name(s);
        let b = first_by_name(s);
        let rest = s.remove(b);
        assert forall|i: int| 0 <= i < rest.len() implies p(#[trigger] rest[i]) by {
            if i < b {
                assert(rest[i] == s[i]);
            } else {
                assert(rest[i] == s[i + 1]);
            }
        }
        lemma_by_name_keeps(rest, p);
        assert(p(s[b]));
        assert forall|i: int| 0 <= i < by_name(s).len() implies p(#[trigger] by_name(s)[i]) by {
            if i > 0 {
                assert(by_name(s)[i] == by_name(rest)[i - 1]);
            }
        }
    }
}

/// The subjects come in the order of their names: the name of no subject
/// comes before the name of a subject before it.
pub proof fn lemma_by_name_sorted(s: Seq<SubjectView>)
    ensures
        forall|i: int, j: int|
            0 <= i < j < by_name(s).len() ==> !precedes(by_name(s)[j].name, by_name(s)[i].name),
    decreases s.len(),
{
    if s.len() > 0 {
        lemma_first_by_name(s);
        let b = first_by_name(s);
        let rest = s.remove(b);
        let least = s[b].name;
        lemma_by_name_sorted(rest);
        let not_before = |x: SubjectView| !precedes(x.name, least);
        assert forall|i: int| 0 <= i < rest.len() implies not_before(#[trigger] rest[i]) by {
            if i < b {
                assert(rest[i] == s[i]);
            } else {
                assert(rest[i] == s[i + 1]);
            }
        }
        lemma_by_name_keeps(rest, not_before);
        assert forall|i: int, j: int| 0 <= i < j < by_name(s).len() implies !precedes(
            by_name(s)[j].name,
            by_name(s)[i].name,
        ) by {
            assert(by_name(s)[j] == by_name(rest)[j - 1]);
            if i == 0 {
                assert(not_before(by_name(rest)[j - 1]));
            } else {
                assert(by_name(s)[i] == by_name(rest)[i - 1]);
            }
        }
    }
}

/// The subjects in the order of their names; subjects of the same name keep
/// the order they came in.
pub open spec fn by_name(s: Seq<SubjectView>) -> Seq<SubjectView>
    decreases s.len(),
    via by_name_decreases
{
    if s.len() == 0 {
        Seq::empty()
    } else {
        seq![s[first_by_name(s)]] + by_name(s.remove(first_by_name(s)))
    }
}

#[via_fn]
proof fn by_name_decreases(s: Seq<SubjectView>) {
    if s.len() > 0 {
        lemma_first_by_name(s);
    }
}

/// The subjects without those whose id is that of the subject kept just
/// before them.
pub open spec fn without_repeats(s: Seq<SubjectView>) -> Seq<SubjectView>
    decreases s.len(),
{
    if s.len() == 0 {
        Seq::empty()
    } else {
        let kept = without_repeats(s.drop_last());
        if kept.len() > 0 && kept.last().id == s.last().id {
            kept
        } else {
            kept.push(s.last())
        }
    }
}

/// Takes the subject whose name comes first out of the pool.
fn take_first_by_name(pool: &mut Vec<Subject>) -> (first: Subject)
    requires
        old(pool)@.len() > 0,
    ensures
        first@ == subject_views(old(pool)@)[first_by_name(subject_views(old(pool)@))],
        subject_views(final(pool)@) == subject_views(old(pool)@).remove(
            first_by_name(subject_views(old(pool)@)),
        ),
{
    let ghost views = subject_views(pool@);
    let mut b: usize = 0;
    let mut i: usize = 1;
    while i < pool.len()
        invariant
            1 <= i <= pool.len(),
            0 <= b < i,
            pool@ == old(pool)@,
            views == subject_views(pool@),
            b == first_by_name(views.subrange(0, i as int)),
        decreases pool.len() - i,
    {
        assert(views.subrange(0, i + 1).drop_last() =~= views.subrange(0, i as int));
        assert(views.subrange(0, i + 1).last() == pool@[i as int]@);
        assert(views.subrange(0, i + 1)[b as int] == pool@[b as int]@);
        let here = chars_of(pool[i].name.as_str());
        let best = chars_of(pool[b].name.as_str());
        if comes_before(&here, &best) {
            b = i;
        }
        i += 1;
    }
    assert(views.subrange(0, pool.len() as int) =~= views);
    let first = pool.remove(b);
    assert(subject_views(pool@) =~= views.remove(b as int));
    first
}

/// Sorts the subjects by name.
pub fn sort_by_name(subjects: Vec<Subject>) -> (r: Vec<Subject>)
    ensures
        subject_views(r@) == by_name(subject_views(subjects@)),
{
    let ghost all = subject_views(subjects@);
    let mut pool = subjects;
    let mut out: Vec<Subject> = Vec::new();
    assert(subject_views(out@) + by_name(subject_views(pool@)) =~= by_name(all));
    while pool.len() > 0
        invariant
            subject_views(out@) + by_name(subject_views(pool@)) == by_name(all),
        decreases pool@.len(),
    {
        let ghost before = subject_views(out@);
        let ghost rest = subject_views(pool@);
        proof {
            lemma_first_by_name(rest);
        }
        let first = take_first_by_name(&mut pool);
        let ghost fv = first@;
        out.push(first);
        assert(subject_views(out@) =~= before.push(fv));
        assert(before + (seq![fv] + by_name(subject_views(pool@))) =~= before.push(fv) + by_name(
            subject_views(pool@),
        ));
    }
    assert(subject_views(out@) + Seq::<SubjectView>::empty() =~= subject_views(out@));
    out
}

/// Drops every subject whose id is that of the subject kept just before it.
pub fn dedup_by_id(subjects: &Vec<Subject>) -> (r: Vec<Subject>)
    ensures
        subject_views(r@) == without_repeats(subject_views(subjects@)),
{
    let ghost all = subject_views(subjects@);
    let mut out: Vec<Subject> = Vec::new();
    let mut i: usize = 0;
    assert(all.subrange(0, 0) =~= Seq::<SubjectView>::empty());
    assert(subject_views(out@) =~= Seq::<SubjectView>::empty());
    while i < subjects.len()
        invariant
            i <= subjects.len(),
            all == subject_views(subjects@),
            subject_views(out@) == without_repeats(all.subrange(0, i as int)),
        decreases subjects.len() - i,
    {
        assert(all.subrange(0, i + 1).drop_last() =~= all.subrange(0, i as int));
        assert(all.subrange(0, i + 1).last() == subjects@[i as int]@);
        let ghost before = subject_views(out@);
        let repeat = out.len() > 0 && out[out.len() - 1].id.as_str().eq(subjects[i].id.as_str());
        proof {
            if out@.len() > 0 {
                assert(before.last() == out@[out@.len() - 1]@);
            }
        }
        if !repeat {
            out.push(subjects[i].duplicate());
            assert(subject_views(out@) =~= before.push(subjects@[i as int]@));
        }
        i += 1;
    }
    assert(all.subrange(0, subjects.len() as int) =~= all);
    out
}

/// The list of subjects as the client hands it out: by name, and without
/// neighbours of the same id.
pub fn finish_subjects(subjects: Vec<Subject>) -> (r: Vec<Subject>)
    ensures
        subject_views(r@) == without_repeats(by_name(subject_views(subjects@))),
{
    let sorted = sort_by_name(subjects);
    dedup_by_id(&sorted)
}

} // verus!
