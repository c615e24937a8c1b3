//! The cookie jar: the store of the `cookie_store` crate behind contracts
//! over what it holds, and the operations of the cookie pane on it.

use crate::adapters::{host_of_url, path_of_url, url_host, url_path, url_serialization};
use crate::error::{CyberAPIError, ErrorKind};
use crate::text::{matches_at, same_text, starts_with, texts_of};
use vstd::prelude::*;
use vstd::string::StringExecFns;

verus! {

/// The cookie jar of the `cookie_store` crate, kept as it is.
#[verifier::external_type_specification]
#[verifier::external_body]
pub struct ExCookieStore(cookie_store::CookieStore);

/// What the jar keeps of a cookie, as far as the contracts read it.
pub struct CookieRecord {
    pub value: Seq<char>,
    /// The cookie counts for the host that set it and for no other.
    pub host_only: bool,
    pub secure: bool,
    pub http_only: bool,
    /// The cookie has no expiry: it lasts as long as the session.
    pub session: bool,
}

/// What a store holds: the record of each cookie, found by its domain,
/// path and name as the store files it (expired cookies too).
pub uninterp spec fn store_entries(store: cookie_store::CookieStore) -> Map<
    (Seq<char>, Seq<char>, Seq<char>),
    CookieRecord,
>;

/// The instants at which the cookies of a store end, in seconds since the
/// Unix epoch, each at the place of its cookie; a session cookie has none.
pub uninterp spec fn store_expiries(store: cookie_store::CookieStore) -> Map<
    (Seq<char>, Seq<char>, Seq<char>),
    int,
>;

/// Whether a store was made with a list of public suffixes to refuse.
pub uninterp spec fn store_has_suffix_list(store: cookie_store::CookieStore) -> bool;

/// The place (domain, path, name) and the record that `cookie_store` reads
/// from a `Set-Cookie` text received from `url`. It means something only
/// where the store took the cookie.
pub uninterp spec fn set_cookie_entry(cookie: Seq<char>, url: Seq<char>) -> (
    (Seq<char>, Seq<char>, Seq<char>),
    CookieRecord,
);

/// Whether `cookie_store` counts a cookie that has not expired as one to
/// send to `url`: a cookie filed under `domain` and `path`, host-only or
/// not, with or without the `Secure` and `HttpOnly` flags.
pub uninterp spec fn cookie_applies(
    domain: Seq<char>,
    path: Seq<char>,
    host_only: bool,
    secure: bool,
    http_only: bool,
    url: Seq<char>,
) -> bool;

/// The cookies that `cookie_store` reads from a stored document, line by
/// line, each with the place under which the store files it; nothing where
/// the document is not one of a jar. Which of them a jar holds after it was
/// loaded depends on the time.
pub uninterp spec fn document_cookies(document: Seq<u8>) -> Option<
    Seq<((Seq<char>, Seq<char>, Seq<char>), CookieRecord)>,
>;

/// A jar that holds nothing.
pub open spec fn no_entries() -> Map<(Seq<char>, Seq<char>, Seq<char>), CookieRecord> {
    Map::empty()
}

/// No cookie has an expiry.
pub open spec fn no_expiries() -> Map<(Seq<char>, Seq<char>, Seq<char>), int> {
    Map::empty()
}

/// The cookie at `place` ends at the same instant before and after, or at
/// none.
pub open spec fn same_expiry(
    before: Map<(Seq<char>, Seq<char>, Seq<char>), int>,
    after: Map<(Seq<char>, Seq<char>, Seq<char>), int>,
    place: (Seq<char>, Seq<char>, Seq<char>),
) -> bool {
    before.contains_key(place) == after.contains_key(place) && (before.contains_key(place)
        ==> before[place] == after[place])
}

/// What the jar did with a cookie that it took.
#[derive(Clone, Copy, Debug, PartialEq, Eq, Structural)]
pub enum StoreAction {
    /// The cookie is new in the jar.
    Inserted,
    /// The cookie had expired and marked the one in the jar as expired.
    ExpiredExisting,
    /// The cookie took the place of one in the jar.
    UpdatedExisting,
}

/// The entries of a jar after it took the `Set-Cookie` text `cookie` from
/// `url` with the given outcome.
pub open spec fn entries_after(
    before: Map<(Seq<char>, Seq<char>, Seq<char>), CookieRecord>,
    cookie: Seq<char>,
    url: Seq<char>,
    action: StoreAction,
) -> Map<(Seq<char>, Seq<char>, Seq<char>), CookieRecord> {
    let place = set_cookie_entry(cookie, url).0;
    match action {
        StoreAction::ExpiredExisting => before.insert(
            place,
            CookieRecord { session: false, ..before[place] },
        ),
        _ => before.insert(place, set_cookie_entry(cookie, url).1),
    }
}

/// The instants `after` can follow on the instants `before` when the jar
/// takes the `Set-Cookie` text `cookie` from `url` with the given outcome:
/// no other cookie's instant changes; a cookie that was expired ends at
/// the epoch; a cookie that was filed has an instant unless it is a
/// session cookie. Which instant, the cookie's text and the time decide.
pub open spec fn expiries_after(
    before: Map<(Seq<char>, Seq<char>, Seq<char>), int>,
    after: Map<(Seq<char>, Seq<char>, Seq<char>), int>,
    cookie: Seq<char>,
    url: Seq<char>,
    action: StoreAction,
) -> bool {
    let place = set_cookie_entry(cookie, url).0;
    &&& after.remove(place) == before.remove(place)
    &&& action == StoreAction::ExpiredExisting ==> after.contains_key(place) && after[place] == 0
    &&& action != StoreAction::ExpiredExisting ==> after.contains_key(place) == !set_cookie_entry(
        cookie,
        url,
    ).1.session
}

/// One of the first `n` cookies has the place `place`.
pub open spec fn touches(
    cookies: Seq<Seq<char>>,
    url: Seq<char>,
    n: int,
    place: (Seq<char>, Seq<char>, Seq<char>),
) -> bool {
    exists|i: int| 0 <= i < n && i < cookies.len() && set_cookie_entry(#[trigger] cookies[i], url).0
        == place
}

/// Every cookie whose place none of the first `n` cookies has ends after
/// as it did before.
pub open spec fn expiries_kept(
    before: Map<(Seq<char>, Seq<char>, Seq<char>), int>,
    after: Map<(Seq<char>, Seq<char>, Seq<char>), int>,
    cookies: Seq<Seq<char>>,
    url: Seq<char>,
    n: int,
) -> bool {
    forall|k: (Seq<char>, Seq<char>, Seq<char>)|
        !touches(cookies, url, n, k) ==> #[trigger] same_expiry(before, after, k)
}

/// A cookie as the jar lists it.
#[derive(Debug, Clone)]
pub struct StoredCookie {
    pub domain: String,
    pub path: String,
    pub name: String,
    pub value: String,
    /// The cookie counts for the host that set it and for no other.
    pub host_only: bool,
    pub secure: bool,
    pub http_only: bool,
    /// Seconds since the Unix epoch at which the cookie ends; none for a
    /// session cookie.
    pub expires: Option<i64>,
}

impl StoredCookie {
    pub open spec fn key(&self) -> (Seq<char>, Seq<char>, Seq<char>) {
        (self.domain@, self.path@, self.name@)
    }

    pub open spec fn record(&self) -> CookieRecord {
        CookieRecord {
            value: self.value@,
            host_only: self.host_only,
            secure: self.secure,
            http_only: self.http_only,
            session: self.expires.is_none(),
        }
    }
}

/// The listing gives each cookie the instant at which it ends.
pub open spec fn lists_expiries(
    expiries: Map<(Seq<char>, Seq<char>, Seq<char>), int>,
    listing: Seq<StoredCookie>,
) -> bool {
    forall|i: int|
        0 <= i < listing.len() ==> match (#[trigger] listing[i]).expires {
            Some(at) => expiries.contains_key(listing[i].key()) && expiries[listing[i].key()]
                == at,
            None => !expiries.contains_key(listing[i].key()),
        }
}

/// `listing` shows each entry of `entries` once, and nothing else.
pub open spec fn lists(
    entries: Map<(Seq<char>, Seq<char>, Seq<char>), CookieRecord>,
    listing: Seq<StoredCookie>,
) -> bool {
    &&& forall|i: int|
        0 <= i < listing.len() ==> entries.contains_key(#[trigger] listing[i].key())
            && entries[listing[i].key()] == listing[i].record()
    &&& forall|i: int, j: int|
        0 <= i < j < listing.len() ==> #[trigger] listing[i].key() != #[trigger] listing[j].key()
    &&& forall|k: (Seq<char>, Seq<char>, Seq<char>)|
        entries.contains_key(k) ==> exists|i: int|
            0 <= i < listing.len() && #[trigger] listing[i].key() == k
}

/// The jar counts the cookie at `place` as one to send to `url`, unless it
/// has expired.
pub open spec fn applies(place: (Seq<char>, Seq<char>, Seq<char>), record: CookieRecord, url: Seq<
    char,
>) -> bool {
    cookie_applies(place.0, place.1, record.host_only, record.secure, record.http_only, url)
}

/// The host `host` is the domain `domain` itself or, for a cookie that is
/// not host-only, lies below it.
pub open spec fn host_in_domain(domain: Seq<char>, host_only: bool, host: Seq<char>) -> bool {
    host == domain || (!host_only && host.len() > domain.len() && host.subrange(
        host.len() - domain.len(),
        host.len() as int,
    ) == domain && host[host.len() - domain.len() - 1] == '.')
}

/// The path `request` is the cookie path `path` itself or lies below it:
/// it begins with `path`, and goes on after a `/`.
pub open spec fn path_below(path: Seq<char>, request: Seq<char>) -> bool {
    request == path || (path.is_prefix_of(request) && request.len() > path.len() && ((path.len()
        > 0 && path.last() == '/') || request[path.len() as int] == '/'))
}

/// A request to `host` for `request` is in the scope of the cookie at
/// `place`: the host is the cookie's domain or, unless the cookie is
/// host-only, a subdomain of it, and the path is the cookie's or below it.
pub open spec fn in_scope(
    place: (Seq<char>, Seq<char>, Seq<char>),
    record: CookieRecord,
    host: Option<Seq<char>>,
    request: Seq<char>,
) -> bool {
    host.is_some() && host_in_domain(place.0, record.host_only, host.unwrap()) && path_below(
        place.1,
        request,
    )
}

/// `pair` is the name and value of an entry of `entries` that applies to
/// `url`, a URL with the host `host` and the path `request`, which are in
/// the entry's scope.
pub open spec fn holds_pair(
    entries: Map<(Seq<char>, Seq<char>, Seq<char>), CookieRecord>,
    url: Seq<char>,
    host: Option<Seq<char>>,
    request: Seq<char>,
    pair: (String, String),
) -> bool {
    exists|k: (Seq<char>, Seq<char>, Seq<char>)| #[trigger]
        entries.contains_key(k) && k.2 == pair.0@ && entries[k].value == pair.1@ && applies(
            k,
            entries[k],
            url,
        ) && in_scope(k, entries[k], host, request)
}

/// `pairs` holds the name `name` with the value `value`.
pub open spec fn sends(pairs: Seq<(String, String)>, name: Seq<char>, value: Seq<char>) -> bool {
    exists|i: int| 0 <= i < pairs.len() && (#[trigger] pairs[i]).0@ == name && pairs[i].1@ == value
}

/// `pairs` are cookies to send to `url` from a jar that holds `entries`:
/// each is an entry that applies to `url`, which only an entry does in
/// whose scope the URL's host and path are; and no session cookie that
/// applies is missing. Whether a cookie with an expiry is among them
/// depends on the time.
pub open spec fn drawn_from(
    entries: Map<(Seq<char>, Seq<char>, Seq<char>), CookieRecord>,
    url: Seq<char>,
    pairs: Seq<(String, String)>,
) -> bool {
    &&& forall|i: int|
        0 <= i < pairs.len() ==> holds_pair(
            entries,
            url,
            url_host(url),
            url_path(url),
            #[trigger] pairs[i],
        )
    &&& forall|k: (Seq<char>, Seq<char>, Seq<char>)| #[trigger]
        entries.contains_key(k) && entries[k].session && applies(k, entries[k], url) ==> sends(
            pairs,
            k.2,
            entries[k].value,
        )
}

/// A jar with the entries `entries` can come of loading a document that
/// holds `cookies`: each entry is a cookie of the document, filed at its
/// place, and every session cookie of the document has its place filled.
/// Of a cookie with an expiry the time decides whether it is taken.
pub open spec fn loaded_from(
    entries: Map<(Seq<char>, Seq<char>, Seq<char>), CookieRecord>,
    cookies: Seq<((Seq<char>, Seq<char>, Seq<char>), CookieRecord)>,
) -> bool {
    &&& forall|k: (Seq<char>, Seq<char>, Seq<char>)| #[trigger]
        entries.contains_key(k) ==> exists|i: int|
            0 <= i < cookies.len() && #[trigger] cookies[i] == (k, entries[k])
    &&& forall|i: int|
        0 <= i < cookies.len() && (#[trigger] cookies[i]).1.session ==> entries.contains_key(
            cookies[i].0,
        )
}

/// The line `line` of a document can be what is written of the entry
/// `entry`: both have an expiry, they agree on whether the cookie is
/// host-only and on its `HttpOnly` flag, and a secure entry is written as
/// a secure cookie. (The line of an entry may read back as secure where
/// the entry is not, and with a value that has lost a pair of quotes.)
pub open spec fn written_as(entry: CookieRecord, line: CookieRecord) -> bool {
    &&& !entry.session
    &&& !line.session
    &&& entry.host_only == line.host_only
    &&& entry.http_only == line.http_only
    &&& entry.secure ==> line.secure
}

/// `cookies` can be what a document written of a jar with the entries
/// `entries` holds: each stands at the place of an entry that outlasts the
/// session and is written of it, and no place comes twice.
pub open spec fn written_from(
    entries: Map<(Seq<char>, Seq<char>, Seq<char>), CookieRecord>,
    cookies: Seq<((Seq<char>, Seq<char>, Seq<char>), CookieRecord)>,
) -> bool {
    &&& forall|i: int|
        0 <= i < cookies.len() ==> entries.contains_key((#[trigger] cookies[i]).0) && written_as(
            entries[cookies[i].0],
            cookies[i].1,
        )
    &&& forall|i: int, j: int|
        0 <= i < j < cookies.len() ==> (#[trigger] cookies[i]).0 != (#[trigger] cookies[j]).0
}

/// An outcome that the jar can give for the `Set-Cookie` text `cookie`
/// from `url`: only a cookie with an expiry can expire the one in the jar.
pub open spec fn fits(cookie: Seq<char>, url: Seq<char>, action: StoreAction) -> bool {
    action == StoreAction::ExpiredExisting ==> !set_cookie_entry(cookie, url).1.session
}

/// Every cookie of the jar ends with the session.
pub open spec fn holds_session_cookies_only(
    entries: Map<(Seq<char>, Seq<char>, Seq<char>), CookieRecord>,
) -> bool {
    forall|k: (Seq<char>, Seq<char>, Seq<char>)| #[trigger]
        entries.contains_key(k) ==> entries[k].session
}

/// `CookieStore::default`: a store without cookies and without a list of
/// public suffixes.
#[verifier::external_body]
fn store_new() -> (store: cookie_store::CookieStore)
    ensures
        store_entries(store) == no_entries(),
        store_expiries(store) == no_expiries(),
        !store_has_suffix_list(store),
{
    cookie_store::CookieStore::default()
}

/// `CookieStore::parse` on the URL that `url` parses to; the URL parser's
/// error where it does not parse. A store without a suffix list refuses a
/// cookie before it changes anything; it files a cookie that it takes under
/// the cookie's domain, path and name, where `Inserted` says that nothing
/// was filed there; and a cookie that expires one in the jar, which only
/// a cookie that has expired itself does, changes only that one's expiry,
/// which it sets to the epoch. The instants of all other cookies stay. The
/// crate does not export the type of its outcome, so the three outcomes
/// are told apart by their `Debug` names.
#[verifier::external_body]
fn store_parse(store: &mut cookie_store::CookieStore, cookie: &str, url: &str) -> (r: Result<
    Result<StoreAction, cookie_store::CookieError>,
    url::ParseError,
>)
    requires
        !store_has_suffix_list(*old(store)),
    ensures
        !store_has_suffix_list(*final(store)),
        r.is_err() == url_serialization(url@).is_none(),
        match r {
            Ok(Ok(action)) => {
                &&& store_entries(*final(store)) == entries_after(
                    store_entries(*old(store)),
                    cookie@,
                    url@,
                    action,
                )
                &&& (action == StoreAction::Inserted) == !store_entries(*old(store)).contains_key(
                    set_cookie_entry(cookie@, url@).0,
                )
                &&& action == StoreAction::ExpiredExisting ==> !set_cookie_entry(
                    cookie@,
                    url@,
                ).1.session
                &&& expiries_after(
                    store_expiries(*old(store)),
                    store_expiries(*final(store)),
                    cookie@,
                    url@,
                    action,
                )
            },
            _ => store_entries(*final(store)) == store_entries(*old(store)) && store_expiries(
                *final(store),
            ) == store_expiries(*old(store)),
        },
    no_unwind
{
    let request_url = url::Url::parse(url)?;
    Ok(
        store.parse(cookie, &request_url).map(
            |action|
                match format!("{:?}", action).as_str() {
                    "Inserted" => StoreAction::Inserted,
                    "ExpiredExisting" => StoreAction::ExpiredExisting,
                    _ => StoreAction::UpdatedExisting,
                },
        ),
    )
}

/// `CookieStore::remove`: takes out what is filed under the three texts and
/// says whether anything was.
#[verifier::external_body]
fn store_remove(store: &mut cookie_store::CookieStore, domain: &str, path: &str, name: &str) -> (r:
    bool)
    ensures
        store_has_suffix_list(*final(store)) == store_has_suffix_list(*old(store)),
        store_entries(*final(store)) == store_entries(*old(store)).remove(
            (domain@, path@, name@),
        ),
        r == store_entries(*old(store)).contains_key((domain@, path@, name@)),
        store_expiries(*final(store)) == store_expiries(*old(store)).remove(
            (domain@, path@, name@),
        ),
    no_unwind
{
    store.remove(domain, path, name).is_some()
}

/// `CookieStore::clear`: empties the store.
#[verifier::external_body]
fn store_clear(store: &mut cookie_store::CookieStore)
    ensures
        store_has_suffix_list(*final(store)) == store_has_suffix_list(*old(store)),
        store_entries(*final(store)) == no_entries(),
        store_expiries(*final(store)) == no_expiries(),
    no_unwind
{
    store.clear()
}

/// `CookieStore::get_request_values` on the URL that `url` parses to: names
/// and values of the cookies in the store that have not expired and that
/// the store counts as ones to send to the URL. It counts a cookie so only
/// where the URL's host is the cookie's domain or, for a cookie that is
/// not host-only, ends with a dot and the domain, and where the URL's path
/// is the cookie's path or begins with it and goes on after a `/`. A session cookie never
/// expires, so it is among them whenever it applies; of a cookie with an
/// expiry nothing is promised, and the order is left open: these depend on
/// the clock and on how the store walks its maps.
#[verifier::external_body]
fn store_request_values(store: &cookie_store::CookieStore, url: &str) -> (r: Result<
    Vec<(String, String)>,
    url::ParseError,
>)
    ensures
        r.is_err() == url_serialization(url@).is_none(),
        match r {
            Ok(pairs) => {
                &&& forall|i: int|
                    0 <= i < pairs@.len() ==> holds_pair(
                        store_entries(*store),
                        url@,
                        url_host(url@),
                        url_path(url@),
                        #[trigger] pairs@[i],
                    )
                &&& forall|k: (Seq<char>, Seq<char>, Seq<char>)| #[trigger]
                    store_entries(*store).contains_key(k) && store_entries(*store)[k].session
                        && cookie_applies(
                        k.0,
                        k.1,
                        store_entries(*store)[k].host_only,
                        store_entries(*store)[k].secure,
                        store_entries(*store)[k].http_only,
                        url@,
                    ) ==> sends(pairs@, k.2, store_entries(*store)[k].value)
            },
            Err(_) => true,
        },
{
    let request_url = url::Url::parse(url)?;
    Ok(
        store.get_request_values(&request_url).map(
            |(name, value)| (name.to_string(), value.to_string()),
        ).collect(),
    )
}

/// `CookieStore::iter_any`: every cookie in the store once, expired ones
/// too, each with the instant at which it ends, in an order that is left
/// open.
#[verifier::external_body]
fn store_list(store: &cookie_store::CookieStore) -> (listing: Vec<StoredCookie>)
    ensures
        lists(store_entries(*store), listing@),
        lists_expiries(store_expiries(*store), listing@),
{
    store.iter_any().map(|c| StoredCookie {
        domain: String::from(&c.domain),
        path: String::from(&c.path),
        name: c.name().to_string(),
        value: c.value().to_string(),
        host_only: matches!(c.domain, cookie_store::CookieDomain::HostOnly(_)),
        secure: c.secure().unwrap_or(false),
        http_only: c.http_only().unwrap_or(false),
        expires: match c.expires {
            cookie_store::CookieExpiration::AtUtc(at) => Some(at.unix_timestamp()),
            cookie_store::CookieExpiration::SessionEnd => None,
        },
    }).collect()
}

/// `CookieStore::load_json` on a document held in memory. It reads the
/// document line by line and fails at the first line that is no cookie,
/// whatever the time. It files each cookie that it has read and that has
/// not expired by now, a later one in the place of an earlier one: so each
/// entry is a cookie of the document, and a session cookie, which never
/// expires, has its place filled. An empty document has no line and gives
/// an empty store. The store has no list of public suffixes. The error is
/// handed on as its message.
#[verifier::external_body]
fn store_from_json(document: &[u8]) -> (r: Result<cookie_store::CookieStore, String>)
    ensures
        r.is_ok() == document_cookies(document@).is_some(),
        match r {
            Ok(store) => !store_has_suffix_list(store) && loaded_from(
                store_entries(store),
                document_cookies(document@).unwrap(),
            ),
            Err(_) => true,
        },
        document@.len() == 0 ==> r.is_ok() && store_entries(r.unwrap()) == no_entries(),
{
    cookie_store::CookieStore::load_json(document).map_err(|e| e.to_string())
}

/// `CookieStore::save_json` into memory: one line for each cookie that
/// lasts beyond the session and has not expired by now. Where no cookie
/// lasts beyond the session, nothing is written and nothing can fail. Of
/// any other store the time decides what is written, down to nothing.
/// What is written can be loaded again: a line holds the cookie's place as
/// it is filed, its expiry, and the cookie written out as a `Set-Cookie`
/// text, which reads back with the same name and `HttpOnly` flag, with
/// `Secure` where the cookie had it, and with its value but for a pair
/// of quotes around it. The error is handed on as its message.
#[verifier::external_body]
fn store_to_json(store: &cookie_store::CookieStore) -> (r: Result<Vec<u8>, String>)
    ensures
        holds_session_cookies_only(store_entries(*store)) ==> r.is_ok() && r.unwrap()@.len() == 0,
        match r {
            Ok(document) => document_cookies(document@).is_some() && written_from(
                store_entries(*store),
                document_cookies(document@).unwrap(),
            ),
            Err(_) => true,
        },
{
    let mut document = Vec::new();
    store.save_json(&mut document).map(|_| document).map_err(|e| e.to_string())
}

/// Whether `host` is the domain `domain` itself or, for a cookie that is
/// not host-only, lies below it.
pub fn host_is_in_domain(domain: &str, host_only: bool, host: &str) -> (b: bool)
    ensures
        b == host_in_domain(domain@, host_only, host@),
{
    if same_text(host, domain) {
        return true;
    }
    if host_only {
        return false;
    }
    let n: usize = host.unicode_len();
    let m: usize = domain.unicode_len();
    if n <= m {
        return false;
    }
    matches_at(host, domain, n - m) && host.get_char(n - m - 1) == '.'
}

/// Whether the path `request` is the cookie path `path` itself or lies
/// below it.
pub fn path_is_below(path: &str, request: &str) -> (b: bool)
    ensures
        b == path_below(path@, request@),
{
    if same_text(request, path) {
        return true;
    }
    let n: usize = request.unicode_len();
    let m: usize = path.unicode_len();
    if n <= m || !starts_with(request, path) {
        return false;
    }
    (m > 0 && path.get_char(m - 1) == '/') || request.get_char(m) == '/'
}

impl StoredCookie {
    /// Whether a request to `url` is in the scope of the cookie: whether
    /// its host is the cookie's domain or, unless the cookie is host-only,
    /// a subdomain of it, and its path is the cookie's or below it. The
    /// jar sends a cookie to no URL that is not in its scope.
    pub fn in_scope_of(&self, url: &str) -> (r: Result<bool, CyberAPIError>)
        ensures
            r.is_err() == url_serialization(url@).is_none(),
            match r {
                Ok(b) => b == in_scope(self.key(), self.record(), url_host(url@), url_path(url@)),
                Err(e) => e@.category == "urlParse"@ && e@.kind == ErrorKind::InvalidUrl,
            },
    {
        let host = match host_of_url(url) {
            Ok(host) => host,
            Err(error) => {
                return Err(CyberAPIError::from_url_parse(error));
            },
        };
        let request = match path_of_url(url) {
            Ok(request) => request,
            Err(error) => {
                return Err(CyberAPIError::from_url_parse(error));
            },
        };
        match host {
            None => Ok(false),
            Some(host) => Ok(
                host_is_in_domain(self.domain.as_str(), self.host_only, host.as_str())
                    && path_is_below(self.path.as_str(), request.as_str()),
            ),
        }
    }
}

/// A cookie as the user enters it.
#[derive(Debug, Clone)]
pub struct Cookie {
    pub name: String,
    pub value: String,
    pub path: String,
    pub domain: String,
    pub expires: String,
}

/// The mathematical content of a cookie entered by the user.
pub struct CookieModel {
    pub name: Seq<char>,
    pub value: Seq<char>,
    pub path: Seq<char>,
    pub domain: Seq<char>,
    pub expires: Seq<char>,
}

impl View for Cookie {
    type V = CookieModel;

    open spec fn view(&self) -> CookieModel {
        CookieModel {
            name: self.name@,
            value: self.value@,
            path: self.path@,
            domain: self.domain@,
            expires: self.expires@,
        }
    }
}

impl CookieModel {
    /// `;` and an attribute, or nothing where the attribute is empty.
    pub open spec fn attribute(label: Seq<char>, value: Seq<char>) -> Seq<char> {
        if value.len() == 0 {
            Seq::empty()
        } else {
            ";"@ + label + value
        }
    }

    /// The `Set-Cookie` text of the cookie.
    pub open spec fn set_cookie_text(self) -> Seq<char> {
        self.name + "="@ + self.value + Self::attribute("Path="@, self.path) + Self::attribute(
            "Domain="@,
            self.domain,
        ) + Self::attribute("Expires="@, self.expires)
    }

    /// The URL from which the cookie counts as received.
    pub open spec fn url_text(self) -> Seq<char> {
        "http://"@ + self.domain + if self.path.len() == 0 {
            "/"@
        } else {
            self.path
        }
    }
}

/// Appends `;`, the label and the value to `out`, unless the value is empty.
fn push_attribute(out: &mut String, label: &str, value: &str)
    ensures
        final(out)@ == old(out)@ + CookieModel::attribute(label@, value@),
{
    if value.unicode_len() != 0 {
        let ghost start = out@;
        out.append(";");
        out.append(label);
        out.append(value);
        proof {
            assert(out@ =~= start + (";"@ + label@ + value@));
        }
    } else {
        proof {
            assert(out@ =~= out@ + Seq::<char>::empty());
        }
    }
}

impl Cookie {
    pub fn to_set_cookie_string(&self) -> (text: String)
        ensures
            text@ == self@.set_cookie_text(),
    {
        let mut out = String::new();
        out.append(self.name.as_str());
        out.append("=");
        out.append(self.value.as_str());
        proof {
            assert(out@ =~= self.name@ + "="@ + self.value@);
        }
        push_attribute(&mut out, "Path=", self.path.as_str());
        push_attribute(&mut out, "Domain=", self.domain.as_str());
        push_attribute(&mut out, "Expires=", self.expires.as_str());
        out
    }

    pub fn get_url(&self) -> (url: String)
        ensures
            url@ == self@.url_text(),
    {
        let mut out = String::from_str("http://");
        out.append(self.domain.as_str());
        if self.path.as_str().unicode_len() == 0 {
            out.append("/");
        } else {
            out.append(self.path.as_str());
        }
        out
    }
}

/// The cookie jar: cookies found by domain, path and name, at most one
/// under each.
#[derive(Debug)]
pub struct CookieJar {
    store: cookie_store::CookieStore,
}

impl View for CookieJar {
    type V = Map<(Seq<char>, Seq<char>, Seq<char>), CookieRecord>;

    closed spec fn view(&self) -> Self::V {
        store_entries(self.store)
    }
}

impl CookieJar {
    /// The instants at which the cookies of the jar end, in seconds since
    /// the Unix epoch, each at the place of its cookie.
    pub closed spec fn expiries(&self) -> Map<(Seq<char>, Seq<char>, Seq<char>), int> {
        store_expiries(self.store)
    }

    /// A jar is made here, without a list of public suffixes to refuse.
    #[verifier::type_invariant]
    spec fn made_here(self) -> bool {
        !store_has_suffix_list(self.store)
    }

    /// An empty jar.
    pub fn new() -> (jar: CookieJar)
        ensures
            jar@ == no_entries(),
            jar.expiries() == no_expiries(),
    {
        CookieJar { store: store_new() }
    }

    /// Reads a jar from its stored document. It succeeds on a document of
    /// a jar and on no other. The jar holds cookies of the document, each
    /// at its place, among them one at the place of every session cookie;
    /// a cookie that has expired in the meantime is dropped. An empty
    /// document is an empty jar.
    pub fn load(document: &[u8]) -> (r: Result<CookieJar, CyberAPIError>)
        ensures
            r.is_ok() == document_cookies(document@).is_some(),
            match r {
                Ok(jar) => loaded_from(jar@, document_cookies(document@).unwrap()),
                Err(e) => e@.category == "cookieStore"@ && e@.kind
                    == ErrorKind::CookiePersistenceError,
            },
            document@.len() == 0 ==> r.is_ok() && r.unwrap()@ == no_entries(),
    {
        match store_from_json(document) {
            Ok(store) => Ok(CookieJar { store }),
            Err(message) => Err(
                CyberAPIError::new(ErrorKind::CookiePersistenceError, "cookieStore", message),
            ),
        }
    }

    /// The document to store: a line for each cookie that outlasts the
    /// session and has not expired by now. A jar without such a cookie
    /// gives the empty document, and that cannot fail; of any other jar the
    /// time decides which lines are written. The document can be loaded
    /// again, and each cookie in it stands at the place of a cookie of the
    /// jar that outlasts the session.
    pub fn document(&self) -> (r: Result<Vec<u8>, CyberAPIError>)
        ensures
            holds_session_cookies_only(self@) ==> r.is_ok() && r.unwrap()@.len() == 0,
            match r {
                Ok(document) => document_cookies(document@).is_some() && written_from(
                    self@,
                    document_cookies(document@).unwrap(),
                ),
                Err(e) => e@.category == "cookieStore"@ && e@.kind
                    == ErrorKind::CookiePersistenceError,
            },
    {
        match store_to_json(&self.store) {
            Ok(document) => Ok(document),
            Err(message) => Err(
                CyberAPIError::new(ErrorKind::CookiePersistenceError, "cookieStore", message),
            ),
        }
    }

    /// Takes a `Set-Cookie` text received from `url` into the jar. A text
    /// `url` that is no URL is an error; of any other the store decides
    /// whether it takes the cookie.
    pub fn parse(&mut self, cookie: &str, url: &str) -> (r: Result<StoreAction, CyberAPIError>)
        ensures
            url_serialization(url@).is_none() ==> r.is_err(),
            match r {
                Ok(action) => {
                    &&& final(self)@ == entries_after(old(self)@, cookie@, url@, action)
                    &&& (action == StoreAction::Inserted) == !old(self)@.contains_key(
                        set_cookie_entry(cookie@, url@).0,
                    )
                    &&& fits(cookie@, url@, action)
                    &&& expiries_after(
                        old(self).expiries(),
                        final(self).expiries(),
                        cookie@,
                        url@,
                        action,
                    )
                },
                Err(e) => {
                    &&& final(self)@ == old(self)@
                    &&& final(self).expiries() == old(self).expiries()
                    &&& e@.kind == (if url_serialization(url@).is_none() {
                        ErrorKind::InvalidUrl
                    } else {
                        ErrorKind::CookiePersistenceError
                    })
                    &&& e@.category == (if url_serialization(url@).is_none() {
                        "urlParse"@
                    } else {
                        "cookieStore"@
                    })
                },
            },
    {
        proof {
            use_type_invariant(&*self);
        }
        match store_parse(&mut self.store, cookie, url) {
            Ok(Ok(action)) => Ok(action),
            Ok(Err(refusal)) => Err(CyberAPIError::from_cookie_store(refusal)),
            Err(error) => Err(CyberAPIError::from_url_parse(error)),
        }
    }

    /// Takes out the cookie filed under `domain`, `path` and `name`, and
    /// says whether there was one.
    pub fn remove(&mut self, domain: &str, path: &str, name: &str) -> (removed: bool)
        ensures
            final(self)@ == old(self)@.remove((domain@, path@, name@)),
            final(self).expiries() == old(self).expiries().remove((domain@, path@, name@)),
            removed == old(self)@.contains_key((domain@, path@, name@)),
    {
        proof {
            use_type_invariant(&*self);
        }
        store_remove(&mut self.store, domain, path, name)
    }

    /// Empties the jar.
    pub fn clear(&mut self)
        ensures
            final(self)@ == no_entries(),
            final(self).expiries() == no_expiries(),
    {
        proof {
            use_type_invariant(&*self);
        }
        store_clear(&mut self.store)
    }

    /// The store itself, to read from.
    pub fn as_store(&self) -> (store: &cookie_store::CookieStore)
        ensures
            store_entries(*store) == self@,
            store_expiries(*store) == self.expiries(),
            !store_has_suffix_list(*store),
    {
        proof {
            use_type_invariant(self);
        }
        &self.store
    }

    /// Every cookie in the jar, once, with the instant at which it ends.
    pub fn list(&self) -> (listing: Vec<StoredCookie>)
        ensures
            lists(self@, listing@),
            lists_expiries(self.expiries(), listing@),
    {
        store_list(&self.store)
    }

    /// Names and values of the cookies to send to `url`: cookies of the jar
    /// that apply to `url`, among them every session cookie that does.
    pub fn get(&self, url: &str) -> (r: Result<Vec<(String, String)>, CyberAPIError>)
        ensures
            r.is_err() == url_serialization(url@).is_none(),
            match r {
                Ok(pairs) => drawn_from(self@, url@, pairs@),
                Err(e) => e@.category == "urlParse"@ && e@.kind == ErrorKind::InvalidUrl,
            },
    {
        match store_request_values(&self.store, url) {
            Ok(pairs) => Ok(pairs),
            Err(error) => Err(CyberAPIError::from_url_parse(error)),
        }
    }
}

/// The entries of a jar after it took the first `actions.len()` of the
/// `Set-Cookie` texts `cookies` from `url`, one after the other, with the
/// given outcomes.
pub open spec fn entries_after_all(
    before: Map<(Seq<char>, Seq<char>, Seq<char>), CookieRecord>,
    cookies: Seq<Seq<char>>,
    url: Seq<char>,
    actions: Seq<StoreAction>,
) -> Map<(Seq<char>, Seq<char>, Seq<char>), CookieRecord>
    decreases actions.len(),
{
    if actions.len() == 0 || cookies.len() < actions.len() {
        before
    } else {
        entries_after(
            entries_after_all(before, cookies, url, actions.drop_last()),
            cookies[actions.len() - 1],
            url,
            actions.last(),
        )
    }
}

/// Each of the outcomes is one that the jar can give for its cookie.
pub open spec fn all_fit(cookies: Seq<Seq<char>>, url: Seq<char>, actions: Seq<StoreAction>)
    -> bool {
    forall|i: int|
        0 <= i < actions.len() && i < cookies.len() ==> fits(cookies[i], url, #[trigger] actions[i])
}

/// Each of the outcomes says whether the place of its cookie was free when
/// the cookie was taken, after the cookies before it: `Inserted` where it
/// was, and no other outcome.
pub open spec fn all_placed(
    before: Map<(Seq<char>, Seq<char>, Seq<char>), CookieRecord>,
    cookies: Seq<Seq<char>>,
    url: Seq<char>,
    actions: Seq<StoreAction>,
) -> bool {
    forall|i: int|
        0 <= i < actions.len() && i < cookies.len() ==> (#[trigger] actions[i]
            == StoreAction::Inserted) == !entries_after_all(
            before,
            cookies,
            url,
            actions.take(i),
        ).contains_key(set_cookie_entry(cookies[i], url).0)
}

/// Removes the cookie that `c` names by domain, path and name. A cookie
/// without a name names nothing: the jar stays as it is and `false` says
/// that there is nothing to store anew.
pub fn delete_cookie_from_store(jar: &mut CookieJar, c: Cookie) -> (r: Result<bool, CyberAPIError>)
    ensures
        r.is_ok(),
        r.unwrap() == (c@.name.len() != 0),
        final(jar)@ == (if c@.name.len() == 0 {
            old(jar)@
        } else {
            old(jar)@.remove((c@.domain, c@.path, c@.name))
        }),
        final(jar).expiries() == (if c@.name.len() == 0 {
            old(jar).expiries()
        } else {
            old(jar).expiries().remove((c@.domain, c@.path, c@.name))
        }),
{
    if c.name.as_str().unicode_len() == 0 {
        return Ok(false);
    }
    jar.remove(c.domain.as_str(), c.path.as_str(), c.name.as_str());
    Ok(true)
}

/// Takes the `Set-Cookie` texts of a response from `url` into the jar, in
/// their order, and stops at the first that the jar refuses. With no text
/// there is nothing to refuse; with a text and a `url` that is no URL the
/// first is refused. The outcomes are the jar's; the result lists them.
pub fn save_cookie_store(jar: &mut CookieJar, set_cookies: Vec<String>, url: &str) -> (r: Result<
    Vec<StoreAction>,
    CyberAPIError,
>)
    ensures
        set_cookies@.len() == 0 ==> r.is_ok(),
        set_cookies@.len() > 0 && url_serialization(url@).is_none() ==> r.is_err(),
        expiries_kept(
            old(jar).expiries(),
            final(jar).expiries(),
            texts_of(set_cookies@),
            url@,
            set_cookies@.len() as int,
        ),
        match r {
            Ok(actions) => {
                &&& actions@.len() == set_cookies@.len()
                &&& final(jar)@ == entries_after_all(
                    old(jar)@,
                    texts_of(set_cookies@),
                    url@,
                    actions@,
                )
                &&& all_fit(texts_of(set_cookies@), url@, actions@)
                &&& all_placed(old(jar)@, texts_of(set_cookies@), url@, actions@)
            },
            Err(e) => {
                &&& set_cookies@.len() > 0
                &&& exists|taken: Seq<StoreAction>|
                    taken.len() < set_cookies@.len() && final(jar)@ == #[trigger] entries_after_all(
                        old(jar)@,
                        texts_of(set_cookies@),
                        url@,
                        taken,
                    )
                &&& e@.kind == (if url_serialization(url@).is_none() {
                    ErrorKind::InvalidUrl
                } else {
                    ErrorKind::CookiePersistenceError
                })
            },
        },
{
    let mut actions: Vec<StoreAction> = Vec::new();
    let mut i: usize = 0;
    while i < set_cookies.len()
        invariant
            i <= set_cookies@.len(),
            actions@.len() == i,
            jar@ == entries_after_all(old(jar)@, texts_of(set_cookies@), url@, actions@),
            all_fit(texts_of(set_cookies@), url@, actions@),
            all_placed(old(jar)@, texts_of(set_cookies@), url@, actions@),
            expiries_kept(
                old(jar).expiries(),
                jar.expiries(),
                texts_of(set_cookies@),
                url@,
                set_cookies@.len() as int,
            ),
            i > 0 ==> url_serialization(url@).is_some(),
        decreases set_cookies@.len() - i,
    {
        let ghost before = actions@;
        let ghost earlier = jar.expiries();
        match jar.parse(set_cookies[i].as_str(), url) {
            Ok(action) => {
                actions.push(action);
                proof {
                    assert(actions@.drop_last() =~= before);
                    assert(texts_of(set_cookies@)[i as int] == set_cookies@[i as int]@);
                    assert forall|j: int| 0 <= j < actions@.len() implies actions@.take(j)
                        == before.take(j) by {
                        assert(actions@.take(j) =~= before.take(j));
                    }
                    assert(before.take(i as int) =~= before);
                    let texts = texts_of(set_cookies@);
                    let place = set_cookie_entry(texts[i as int], url@).0;
                    let later = jar.expiries();
                    assert forall|k: (Seq<char>, Seq<char>, Seq<char>)|
                        !touches(
                            texts,
                            url@,
                            set_cookies@.len() as int,
                            k,
                        ) implies #[trigger] same_expiry(old(jar).expiries(), later, k) by {
                        assert(same_expiry(old(jar).expiries(), earlier, k));
                        assert(set_cookie_entry(texts[i as int], url@).0 != k);
                        assert(later.remove(place).contains_key(k) == later.contains_key(k));
                        assert(earlier.remove(place).contains_key(k) == earlier.contains_key(k));
                        if later.contains_key(k) {
                            assert(later.remove(place)[k] == later[k]);
                            assert(earlier.remove(place)[k] == earlier[k]);
                        }
                    }
                }
            },
            Err(error) => {
                return Err(error);
            },
        }
        i = i + 1;
    }
    Ok(actions)
}

/// Every cookie in the jar, once, expired ones too.
pub fn list_cookie(jar: &CookieJar) -> (r: Result<Vec<StoredCookie>, CyberAPIError>)
    ensures
        r.is_ok(),
        lists(jar@, r.unwrap()@),
        lists_expiries(jar.expiries(), r.unwrap()@),
{
    Ok(jar.list())
}

/// Puts a cookie entered by the user into the jar, as if a response from
/// the cookie's own URL had set it. A cookie whose URL is no URL is an
/// error and leaves the jar as it is; of any other the store decides.
pub fn add_cookie(jar: &mut CookieJar, c: Cookie) -> (r: Result<StoreAction, CyberAPIError>)
    ensures
        url_serialization(c@.url_text()).is_none() ==> r.is_err(),
        match r {
            Ok(action) => {
                &&& final(jar)@ == entries_after(
                    old(jar)@,
                    c@.set_cookie_text(),
                    c@.url_text(),
                    action,
                )
                &&& (action == StoreAction::Inserted) == !old(jar)@.contains_key(
                    set_cookie_entry(c@.set_cookie_text(), c@.url_text()).0,
                )
                &&& fits(c@.set_cookie_text(), c@.url_text(), action)
                &&& expiries_after(
                    old(jar).expiries(),
                    final(jar).expiries(),
                    c@.set_cookie_text(),
                    c@.url_text(),
                    action,
                )
            },
            Err(e) => {
                &&& final(jar)@ == old(jar)@
                &&& final(jar).expiries() == old(jar).expiries()
                &&& e@.kind == (if url_serialization(c@.url_text()).is_none() {
                    ErrorKind::InvalidUrl
                } else {
                    ErrorKind::CookiePersistenceError
                })
                &&& e@.category == (if url_serialization(c@.url_text()).is_none() {
                    "urlParse"@
                } else {
                    "cookieStore"@
                })
            },
        },
{
    let url = c.get_url();
    let cookie_str = c.to_set_cookie_string();
    jar.parse(cookie_str.as_str(), url.as_str())
}

/// Empties the jar.
pub fn clear_cookie(jar: &mut CookieJar)
    ensures
        final(jar)@ == no_entries(),
        final(jar).expiries() == no_expiries(),
{
    jar.clear()
}

/// A cookie that the jar took and did not merely use to expire another is
/// in the jar afterwards, under its place and with its value.
pub proof fn lemma_taken_cookie_is_held(
    before: Map<(Seq<char>, Seq<char>, Seq<char>), CookieRecord>,
    cookie: Seq<char>,
    url: Seq<char>,
    action: StoreAction,
)
    requires
        action != StoreAction::ExpiredExisting,
    ensures
        entries_after(before, cookie, url, action).contains_key(set_cookie_entry(cookie, url).0),
        entries_after(before, cookie, url, action)[set_cookie_entry(cookie, url).0]
            == set_cookie_entry(cookie, url).1,
{
}

/// After a cookie was put into the jar, a listing of the jar shows exactly
/// one cookie at its place, and that one holds its value.
pub proof fn lemma_upsert_listed_once(
    before: Map<(Seq<char>, Seq<char>, Seq<char>), CookieRecord>,
    c: CookieModel,
    action: StoreAction,
    listing: Seq<StoredCookie>,
)
    requires
        action != StoreAction::ExpiredExisting,
        lists(entries_after(before, c.set_cookie_text(), c.url_text(), action), listing),
    ensures
        exists|i: int|
            {
                &&& 0 <= i < listing.len()
                &&& #[trigger] listing[i].key() == set_cookie_entry(
                    c.set_cookie_text(),
                    c.url_text(),
                ).0
                &&& listing[i].record() == set_cookie_entry(c.set_cookie_text(), c.url_text()).1
                &&& forall|j: int|
                    0 <= j < listing.len() && j != i ==> #[trigger] listing[j].key()
                        != listing[i].key()
            },
{
    let after = entries_after(before, c.set_cookie_text(), c.url_text(), action);
    let key = set_cookie_entry(c.set_cookie_text(), c.url_text()).0;
    assert(after.contains_key(key));
    let i = choose|i: int| 0 <= i < listing.len() && #[trigger] listing[i].key() == key;
    assert forall|j: int| 0 <= j < listing.len() && j != i implies #[trigger] listing[j].key()
        != listing[i].key() by {
        if j < i {
            assert(listing[j].key() != listing[i].key());
        } else {
            assert(listing[i].key() != listing[j].key());
        }
    }
}

/// After a session cookie was put into the jar, whatever the jar answered,
/// a listing of the jar shows exactly one cookie at its place, and that
/// one is the cookie as it was read.
pub proof fn lemma_session_upsert_listed_once(
    before: Map<(Seq<char>, Seq<char>, Seq<char>), CookieRecord>,
    c: CookieModel,
    action: StoreAction,
    listing: Seq<StoredCookie>,
)
    requires
        fits(c.set_cookie_text(), c.url_text(), action),
        set_cookie_entry(c.set_cookie_text(), c.url_text()).1.session,
        lists(entries_after(before, c.set_cookie_text(), c.url_text(), action), listing),
    ensures
        exists|i: int|
            {
                &&& 0 <= i < listing.len()
                &&& #[trigger] listing[i].key() == set_cookie_entry(
                    c.set_cookie_text(),
                    c.url_text(),
                ).0
                &&& listing[i].record() == set_cookie_entry(c.set_cookie_text(), c.url_text()).1
                &&& forall|j: int|
                    0 <= j < listing.len() && j != i ==> #[trigger] listing[j].key()
                        != listing[i].key()
            },
{
    lemma_upsert_listed_once(before, c, action, listing);
}

/// A cookie of the jar is a session cookie exactly where it ends at no
/// instant.
pub proof fn lemma_session_cookies_have_no_expiry(
    entries: Map<(Seq<char>, Seq<char>, Seq<char>), CookieRecord>,
    expiries: Map<(Seq<char>, Seq<char>, Seq<char>), int>,
    listing: Seq<StoredCookie>,
    place: (Seq<char>, Seq<char>, Seq<char>),
)
    requires
        lists(entries, listing),
        lists_expiries(expiries, listing),
        entries.contains_key(place),
    ensures
        entries[place].session == !expiries.contains_key(place),
{
    let i = choose|i: int| 0 <= i < listing.len() && #[trigger] listing[i].key() == place;
    assert(entries[listing[i].key()] == listing[i].record());
}

/// Every cookie that the jar sends to a URL is a cookie of the jar in
/// whose scope the URL is.
pub proof fn lemma_sent_cookie_is_in_scope(
    entries: Map<(Seq<char>, Seq<char>, Seq<char>), CookieRecord>,
    url: Seq<char>,
    pairs: Seq<(String, String)>,
    i: int,
)
    requires
        drawn_from(entries, url, pairs),
        0 <= i < pairs.len(),
    ensures
        exists|k: (Seq<char>, Seq<char>, Seq<char>)| #[trigger]
            entries.contains_key(k) && k.2 == pairs[i].0@ && entries[k].value == pairs[i].1@
                && in_scope(k, entries[k], url_host(url), url_path(url)),
{
    assert(holds_pair(entries, url, url_host(url), url_path(url), pairs[i]));
}

/// A session cookie that the jar holds is among the cookies that the jar
/// sends to every URL to which it applies, whatever the time.
pub proof fn lemma_held_session_cookie_is_sent(
    entries: Map<(Seq<char>, Seq<char>, Seq<char>), CookieRecord>,
    place: (Seq<char>, Seq<char>, Seq<char>),
    url: Seq<char>,
    pairs: Seq<(String, String)>,
)
    requires
        entries.contains_key(place),
        entries[place].session,
        applies(place, entries[place], url),
        drawn_from(entries, url, pairs),
    ensures
        sends(pairs, place.2, entries[place].value),
{
}

/// A session cookie that the jar took is in the jar afterwards, at its
/// place and as it was read.
pub proof fn lemma_taken_session_cookie_is_held(
    before: Map<(Seq<char>, Seq<char>, Seq<char>), CookieRecord>,
    cookie: Seq<char>,
    from: Seq<char>,
    action: StoreAction,
)
    requires
        fits(cookie, from, action),
        set_cookie_entry(cookie, from).1.session,
    ensures
        entries_after(before, cookie, from, action).contains_key(set_cookie_entry(cookie, from).0),
        entries_after(before, cookie, from, action)[set_cookie_entry(cookie, from).0]
            == set_cookie_entry(cookie, from).1,
{
}

/// A session cookie that the jar took is among the cookies that the jar
/// sends to every URL to which it applies, whatever the time.
pub proof fn lemma_session_cookie_is_sent(
    before: Map<(Seq<char>, Seq<char>, Seq<char>), CookieRecord>,
    cookie: Seq<char>,
    from: Seq<char>,
    action: StoreAction,
    url: Seq<char>,
    pairs: Seq<(String, String)>,
)
    requires
        fits(cookie, from, action),
        set_cookie_entry(cookie, from).1.session,
        applies(set_cookie_entry(cookie, from).0, set_cookie_entry(cookie, from).1, url),
        drawn_from(entries_after(before, cookie, from, action), url, pairs),
    ensures
        sends(pairs, set_cookie_entry(cookie, from).0.2, set_cookie_entry(cookie, from).1.value),
{
    lemma_taken_session_cookie_is_held(before, cookie, from, action);
    lemma_held_session_cookie_is_sent(
        entries_after(before, cookie, from, action),
        set_cookie_entry(cookie, from).0,
        url,
        pairs,
    );
}

/// Taking a cookie removes none: every place that was filled stays filled,
/// and every place but the cookie's keeps its cookie.
pub proof fn lemma_taking_keeps_cookies(
    before: Map<(Seq<char>, Seq<char>, Seq<char>), CookieRecord>,
    cookie: Seq<char>,
    from: Seq<char>,
    action: StoreAction,
    place: (Seq<char>, Seq<char>, Seq<char>),
)
    requires
        before.contains_key(place),
    ensures
        entries_after(before, cookie, from, action).contains_key(place),
        place != set_cookie_entry(cookie, from).0 ==> entries_after(
            before,
            cookie,
            from,
            action,
        )[place] == before[place],
{
}

/// A session cookie among the cookies of a response that the jar took is
/// in the jar afterwards, at its place and as it was read, unless a later
/// cookie of the response has its place.
pub proof fn lemma_session_cookie_of_response_is_held(
    before: Map<(Seq<char>, Seq<char>, Seq<char>), CookieRecord>,
    cookies: Seq<Seq<char>>,
    from: Seq<char>,
    actions: Seq<StoreAction>,
    i: int,
)
    requires
        0 <= i < actions.len() <= cookies.len(),
        all_fit(cookies, from, actions),
        set_cookie_entry(cookies[i], from).1.session,
        forall|j: int|
            i < j < actions.len() ==> set_cookie_entry(#[trigger] cookies[j], from).0
                != set_cookie_entry(cookies[i], from).0,
    ensures
        entries_after_all(before, cookies, from, actions).contains_key(
            set_cookie_entry(cookies[i], from).0,
        ),
        entries_after_all(before, cookies, from, actions)[set_cookie_entry(cookies[i], from).0]
            == set_cookie_entry(cookies[i], from).1,
    decreases actions.len(),
{
    let n = actions.len() as int;
    let shorter = actions.drop_last();
    let earlier = entries_after_all(before, cookies, from, shorter);
    assert(entries_after_all(before, cookies, from, actions) == entries_after(
        earlier,
        cookies[n - 1],
        from,
        actions.last(),
    ));
    if i == n - 1 {
        assert(fits(cookies[i], from, actions[i]));
        lemma_taken_session_cookie_is_held(earlier, cookies[i], from, actions[i]);
    } else {
        assert forall|j: int| 0 <= j < shorter.len() && j < cookies.len() implies fits(
            cookies[j],
            from,
            #[trigger] shorter[j],
        ) by {
            assert(shorter[j] == actions[j]);
        }
        lemma_session_cookie_of_response_is_held(before, cookies, from, shorter, i);
        assert(set_cookie_entry(cookies[n - 1], from).0 != set_cookie_entry(cookies[i], from).0);
        lemma_taking_keeps_cookies(
            earlier,
            cookies[n - 1],
            from,
            actions.last(),
            set_cookie_entry(cookies[i], from).0,
        );
    }
}

/// Deleting a cookie that the jar does not hold leaves the jar as it is.
pub proof fn lemma_delete_absent_is_noop(
    entries: Map<(Seq<char>, Seq<char>, Seq<char>), CookieRecord>,
    key: (Seq<char>, Seq<char>, Seq<char>),
)
    requires
        !entries.contains_key(key),
    ensures
        entries.remove(key) == entries,
{
    assert(entries.remove(key) =~= entries);
}

/// Deleting the same cookie twice does no more than deleting it once.
pub proof fn lemma_delete_is_idempotent(
    entries: Map<(Seq<char>, Seq<char>, Seq<char>), CookieRecord>,
    key: (Seq<char>, Seq<char>, Seq<char>),
)
    ensures
        entries.remove(key).remove(key) == entries.remove(key),
{
    assert(entries.remove(key).remove(key) =~= entries.remove(key));
}

} // verus!
