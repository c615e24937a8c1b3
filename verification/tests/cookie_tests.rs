use cyberapi::cookies::{
    add_cookie, clear_cookie, delete_cookie_from_store, host_is_in_domain, list_cookie,
    path_is_below, save_cookie_store, Cookie, CookieJar, StoreAction,
};
use cyberapi::error::ErrorKind;

fn cookie(name: &str, value: &str, path: &str, domain: &str, expires: &str) -> Cookie {
    Cookie {
        name: name.to_string(),
        value: value.to_string(),
        path: path.to_string(),
        domain: domain.to_string(),
        expires: expires.to_string(),
    }
}

fn pair(name: &str, value: &str) -> (String, String) {
    (name.to_string(), value.to_string())
}

#[test]
fn a_cookie_is_written_as_a_set_cookie_text() {
    let full = cookie("sid", "abc", "/app", "example.com", "Wed, 21 Oct 2099 07:28:00 GMT");
    assert_eq!(
        full.to_set_cookie_string(),
        "sid=abc;Path=/app;Domain=example.com;Expires=Wed, 21 Oct 2099 07:28:00 GMT"
    );
    assert_eq!(cookie("sid", "abc", "", "", "").to_set_cookie_string(), "sid=abc");
    assert_eq!(
        cookie("sid", "abc", "", "example.com", "").to_set_cookie_string(),
        "sid=abc;Domain=example.com"
    );
    assert_eq!(cookie("", "", "/", "", "").to_set_cookie_string(), "=;Path=/");
}

#[test]
fn a_cookie_has_the_url_of_its_domain_and_path() {
    assert_eq!(cookie("a", "b", "/app", "example.com", "").get_url(), "http://example.com/app");
    assert_eq!(cookie("a", "b", "", "example.com", "").get_url(), "http://example.com/");
}

#[test]
fn an_added_cookie_is_listed_once_with_its_value() {
    let mut jar = CookieJar::new();
    let action = add_cookie(&mut jar, cookie("sid", "abc", "/app", "example.com", "")).unwrap();
    assert_eq!(action, StoreAction::Inserted);
    let again = add_cookie(&mut jar, cookie("sid", "xyz", "/app", "example.com", "")).unwrap();
    assert_eq!(again, StoreAction::UpdatedExisting);
    add_cookie(&mut jar, cookie("other", "1", "/app", "example.com", "")).unwrap();
    let listing = list_cookie(&jar).unwrap();
    assert_eq!(listing.len(), 2);
    let found: Vec<_> = listing
        .iter()
        .filter(|c| c.domain == "example.com" && c.path == "/app" && c.name == "sid")
        .collect();
    assert_eq!(found.len(), 1);
    assert_eq!(found[0].value, "xyz");
    assert_eq!(found[0].expires, None);
}

#[test]
fn deleting_removes_the_cookie_and_deleting_again_changes_nothing() {
    let mut jar = CookieJar::new();
    add_cookie(&mut jar, cookie("sid", "abc", "/app", "example.com", "")).unwrap();
    add_cookie(&mut jar, cookie("keep", "1", "/app", "example.com", "")).unwrap();
    let flush = delete_cookie_from_store(&mut jar, cookie("sid", "", "/app", "example.com", ""));
    assert_eq!(flush.unwrap(), true);
    let listing = jar.list();
    assert_eq!(listing.len(), 1);
    assert_eq!(listing[0].name, "keep");
    let again = delete_cookie_from_store(&mut jar, cookie("sid", "", "/app", "example.com", ""));
    assert_eq!(again.unwrap(), true);
    assert_eq!(jar.list().len(), 1);
    assert_eq!(jar.list()[0].name, "keep");
    assert_eq!(jar.list()[0].value, "1");
}

#[test]
fn deleting_from_an_empty_jar_is_no_error() {
    let mut jar = CookieJar::new();
    assert!(delete_cookie_from_store(&mut jar, cookie("sid", "", "/", "example.com", "")).is_ok());
    assert!(jar.list().is_empty());
    assert!(!jar.remove("example.com", "/", "sid"));
}

#[test]
fn a_cookie_without_a_name_deletes_nothing() {
    let mut jar = CookieJar::new();
    add_cookie(&mut jar, cookie("sid", "abc", "/", "example.com", "")).unwrap();
    let flush = delete_cookie_from_store(&mut jar, cookie("", "", "/", "example.com", ""));
    assert_eq!(flush.unwrap(), false);
    assert_eq!(jar.list().len(), 1);
}

#[test]
fn cookies_are_given_to_matching_urls() {
    let mut jar = CookieJar::new();
    add_cookie(&mut jar, cookie("sid", "abc", "/app", "example.com", "")).unwrap();
    assert_eq!(jar.get("http://example.com/app/page").unwrap(), vec![pair("sid", "abc")]);
    assert_eq!(jar.get("http://www.example.com/app").unwrap(), vec![pair("sid", "abc")]);
    assert!(jar.get("http://example.com/other").unwrap().is_empty());
    assert!(jar.get("http://example.org/app").unwrap().is_empty());
}

#[test]
fn a_session_cookie_of_a_response_is_sent_back() {
    let mut jar = CookieJar::new();
    let actions =
        save_cookie_store(&mut jar, vec!["token=t1".to_string()], "http://example.com/login")
            .unwrap();
    assert_eq!(actions, vec![StoreAction::Inserted]);
    assert_eq!(jar.get("http://example.com/").unwrap(), vec![pair("token", "t1")]);
    let listing = jar.list();
    assert_eq!(listing.len(), 1);
    assert_eq!(listing[0].domain, "example.com");
    assert_eq!(listing[0].path, "/");
    assert_eq!(listing[0].expires, None);
}

#[test]
fn the_cookies_of_a_response_are_taken_in_order() {
    let mut jar = CookieJar::new();
    let set = vec!["a=1".to_string(), "b=2; Path=/x".to_string(), "a=3".to_string()];
    let actions = save_cookie_store(&mut jar, set, "http://example.com/").unwrap();
    assert_eq!(
        actions,
        vec![StoreAction::Inserted, StoreAction::Inserted, StoreAction::UpdatedExisting]
    );
    assert_eq!(jar.list().len(), 2);
    assert_eq!(jar.get("http://example.com/").unwrap(), vec![pair("a", "3")]);
}

#[test]
fn a_refused_cookie_ends_the_taking() {
    let mut jar = CookieJar::new();
    let set = vec![
        "a=1".to_string(),
        "b=2; Domain=example.org".to_string(),
        "c=3".to_string(),
    ];
    let error = save_cookie_store(&mut jar, set, "http://example.com/").unwrap_err();
    assert_eq!(error.category(), "cookieStore");
    assert_eq!(error.kind(), ErrorKind::CookiePersistenceError);
    assert_eq!(error.message(), "request-uri does not domain-match the cookie");
    let listing = jar.list();
    assert_eq!(listing.len(), 1);
    assert_eq!(listing[0].name, "a");
}

#[test]
fn an_expired_cookie_expires_the_one_in_the_jar() {
    let mut jar = CookieJar::new();
    let past = "Wed, 21 Oct 2015 07:28:00 GMT";
    let refused = add_cookie(&mut jar, cookie("sid", "abc", "/", "example.com", past));
    assert_eq!(refused.unwrap_err().category(), "cookieStore");
    assert!(jar.list().is_empty());
    add_cookie(&mut jar, cookie("sid", "abc", "/", "example.com", "")).unwrap();
    let action = add_cookie(&mut jar, cookie("sid", "abc", "/", "example.com", past)).unwrap();
    assert_eq!(action, StoreAction::ExpiredExisting);
    assert!(jar.get("http://example.com/").unwrap().is_empty());
    assert_eq!(jar.list().len(), 1);
    assert_eq!(jar.list()[0].expires, Some(0));
}

#[test]
fn a_cookie_of_no_domain_is_an_invalid_url() {
    let mut jar = CookieJar::new();
    let error = add_cookie(&mut jar, cookie("sid", "abc", "/", "exa mple.com", "")).unwrap_err();
    assert_eq!(error.category(), "urlParse");
    assert_eq!(error.kind(), ErrorKind::InvalidUrl);
    assert!(jar.list().is_empty());
    assert_eq!(jar.parse("a=1", "not a url").unwrap_err().category(), "urlParse");
    assert_eq!(jar.get("not a url").unwrap_err().category(), "urlParse");
}

#[test]
fn a_text_that_is_no_cookie_is_refused() {
    let mut jar = CookieJar::new();
    let error = jar.parse("no equals sign", "http://example.com/").unwrap_err();
    assert_eq!(error.category(), "cookieStore");
    assert!(jar.list().is_empty());
}

#[test]
fn clearing_empties_the_jar() {
    let mut jar = CookieJar::new();
    add_cookie(&mut jar, cookie("a", "1", "/", "example.com", "")).unwrap();
    add_cookie(&mut jar, cookie("b", "2", "/", "example.org", "")).unwrap();
    assert_eq!(jar.list().len(), 2);
    clear_cookie(&mut jar);
    assert!(jar.list().is_empty());
    assert!(jar.get("http://example.com/").unwrap().is_empty());
}

#[test]
fn the_document_keeps_the_cookies_that_outlast_the_session() {
    let mut jar = CookieJar::new();
    let later = "Wed, 21 Oct 2099 07:28:00 GMT";
    add_cookie(&mut jar, cookie("keep", "1", "/", "example.com", later)).unwrap();
    add_cookie(&mut jar, cookie("session", "2", "/", "example.com", "")).unwrap();
    let document = jar.document().unwrap();
    assert!(!document.is_empty());
    let loaded = CookieJar::load(&document).unwrap();
    let listing = loaded.list();
    assert_eq!(listing.len(), 1);
    assert_eq!(listing[0].name, "keep");
    assert_eq!(listing[0].value, "1");
    assert_eq!(listing[0].domain, "example.com");
    assert_eq!(listing[0].expires, Some(4_096_250_880));
    assert_eq!(loaded.get("http://example.com/").unwrap(), vec![pair("keep", "1")]);
}

#[test]
fn an_empty_document_is_an_empty_jar() {
    let jar = CookieJar::load(b"").unwrap();
    assert!(jar.list().is_empty());
    assert!(CookieJar::new().document().unwrap().is_empty());
}

#[test]
fn a_document_that_is_no_jar_is_reported() {
    let error = CookieJar::load(b"this is not json").unwrap_err();
    assert_eq!(error.category(), "cookieStore");
    assert_eq!(error.kind(), ErrorKind::CookiePersistenceError);
}

#[test]
fn the_listing_shows_how_a_cookie_is_scoped() {
    let mut jar = CookieJar::new();
    jar.parse("a=1", "http://example.com/").unwrap();
    jar.parse("b=2; Domain=example.com; Secure; HttpOnly", "https://example.com/").unwrap();
    let listing = jar.list();
    assert_eq!(listing.len(), 2);
    let a = listing.iter().find(|c| c.name == "a").unwrap();
    assert!(a.host_only);
    assert!(!a.secure);
    assert!(!a.http_only);
    let b = listing.iter().find(|c| c.name == "b").unwrap();
    assert!(!b.host_only);
    assert!(b.secure);
    assert!(b.http_only);
}

#[test]
fn a_host_only_cookie_is_not_sent_to_other_hosts() {
    let mut jar = CookieJar::new();
    jar.parse("a=1", "http://example.com/").unwrap();
    jar.parse("b=2; Domain=example.com", "http://example.com/").unwrap();
    assert_eq!(jar.get("http://www.example.com/").unwrap(), vec![pair("b", "2")]);
    assert_eq!(jar.get("http://example.com/").unwrap().len(), 2);
}

#[test]
fn a_secure_cookie_is_sent_over_secure_connections_only() {
    let mut jar = CookieJar::new();
    jar.parse("s=1; Secure", "https://example.com/").unwrap();
    assert!(jar.get("http://example.com/").unwrap().is_empty());
    assert_eq!(jar.get("https://example.com/").unwrap(), vec![pair("s", "1")]);
}

#[test]
fn a_cookie_is_sent_below_its_path_only() {
    let mut jar = CookieJar::new();
    jar.parse("p=1; Path=/app", "http://example.com/app").unwrap();
    assert_eq!(jar.get("http://example.com/app").unwrap(), vec![pair("p", "1")]);
    assert_eq!(jar.get("http://example.com/app/x").unwrap(), vec![pair("p", "1")]);
    assert!(jar.get("http://example.com/apple").unwrap().is_empty());
    assert!(jar.get("http://example.com/").unwrap().is_empty());
}

#[test]
fn a_jar_of_session_cookies_has_an_empty_document() {
    let mut jar = CookieJar::new();
    add_cookie(&mut jar, cookie("a", "1", "/", "example.com", "")).unwrap();
    add_cookie(&mut jar, cookie("b", "2", "/x", "example.org", "")).unwrap();
    assert_eq!(jar.list().len(), 2);
    assert!(jar.document().unwrap().is_empty());
}

#[test]
fn a_loaded_jar_holds_the_cookies_of_its_document() {
    let document = concat_lines(&[
        r#"{"raw_cookie":"sid=abc","path":["/",false],"domain":{"HostOnly":"example.com"},"expires":"SessionEnd"}"#,
        r#"{"raw_cookie":"old=1; Secure","path":["/",false],"domain":{"HostOnly":"example.com"},"expires":{"AtUtc":"2015-08-11T16:41:42Z"}}"#,
        r#"{"raw_cookie":"keep=2; HttpOnly; Domain=example.com","path":["/app",true],"domain":{"Suffix":"example.com"},"expires":{"AtUtc":"2099-10-21T07:28:00Z"}}"#,
    ]);
    let jar = CookieJar::load(document.as_bytes()).unwrap();
    let listing = jar.list();
    assert_eq!(listing.len(), 2);
    let sid = listing.iter().find(|c| c.name == "sid").unwrap();
    assert_eq!(sid.domain, "example.com");
    assert_eq!(sid.path, "/");
    assert_eq!(sid.value, "abc");
    assert!(sid.host_only);
    assert_eq!(sid.expires, None);
    let keep = listing.iter().find(|c| c.name == "keep").unwrap();
    assert_eq!(keep.path, "/app");
    assert_eq!(keep.value, "2");
    assert!(!keep.host_only);
    assert!(keep.http_only);
    assert_eq!(keep.expires, Some(4_096_250_880));
    assert!(listing.iter().all(|c| c.name != "old"));
    assert_eq!(jar.get("http://example.com/").unwrap(), vec![pair("sid", "abc")]);
}

#[test]
fn a_later_line_takes_the_place_of_an_earlier_one() {
    let document = concat_lines(&[
        r#"{"raw_cookie":"sid=first","path":["/",false],"domain":{"HostOnly":"example.com"},"expires":"SessionEnd"}"#,
        r#"{"raw_cookie":"sid=second","path":["/",false],"domain":{"HostOnly":"example.com"},"expires":"SessionEnd"}"#,
    ]);
    let jar = CookieJar::load(document.as_bytes()).unwrap();
    let listing = jar.list();
    assert_eq!(listing.len(), 1);
    assert_eq!(listing[0].value, "second");
}

#[test]
fn a_document_with_a_line_that_is_no_cookie_is_refused() {
    let document = concat_lines(&[
        r#"{"raw_cookie":"sid=abc","path":["/",false],"domain":{"HostOnly":"example.com"},"expires":"SessionEnd"}"#,
        r#"{"raw_cookie":"sid=abc"}"#,
    ]);
    let error = CookieJar::load(document.as_bytes()).unwrap_err();
    assert_eq!(error.category(), "cookieStore");
    let expired_then_bad = concat_lines(&[
        r#"{"raw_cookie":"old=1","path":["/",false],"domain":{"HostOnly":"example.com"},"expires":{"AtUtc":"2015-08-11T16:41:42Z"}}"#,
        "nonsense",
    ]);
    assert!(CookieJar::load(expired_then_bad.as_bytes()).is_err());
    assert!(CookieJar::load(b"\n").is_err());
    assert!(CookieJar::load(&[0xff, 0xfe]).is_err());
}

fn concat_lines(lines: &[&str]) -> String {
    let mut document = String::new();
    for line in lines {
        document.push_str(line);
        document.push('\n');
    }
    document
}

#[test]
fn a_cookie_without_a_domain_is_refused_and_the_jar_stays() {
    let mut jar = CookieJar::new();
    add_cookie(&mut jar, cookie("keep", "1", "/", "example.com", "")).unwrap();
    let error = add_cookie(&mut jar, cookie("a", "1", "", "", "")).unwrap_err();
    assert_eq!(error.category(), "urlParse");
    assert_eq!(error.kind(), ErrorKind::InvalidUrl);
    let listing = jar.list();
    assert_eq!(listing.len(), 1);
    assert_eq!(listing[0].name, "keep");
}

#[test]
fn cookies_from_no_url_are_refused_and_no_cookies_are_none() {
    let mut jar = CookieJar::new();
    let error = save_cookie_store(&mut jar, vec!["a=1".to_string()], "not a url").unwrap_err();
    assert_eq!(error.category(), "urlParse");
    assert_eq!(error.kind(), ErrorKind::InvalidUrl);
    assert!(jar.list().is_empty());
    assert_eq!(save_cookie_store(&mut jar, Vec::new(), "not a url").unwrap(), Vec::new());
    assert_eq!(save_cookie_store(&mut jar, Vec::new(), "http://example.com/").unwrap(), Vec::new());
    assert!(jar.list().is_empty());
}

#[test]
fn a_session_cookie_takes_the_place_of_the_one_in_the_jar() {
    let mut jar = CookieJar::new();
    let later = "Wed, 21 Oct 2099 07:28:00 GMT";
    add_cookie(&mut jar, cookie("sid", "old", "/", "example.com", later)).unwrap();
    let action = add_cookie(&mut jar, cookie("sid", "new", "/", "example.com", "")).unwrap();
    assert_eq!(action, StoreAction::UpdatedExisting);
    let listing = jar.list();
    assert_eq!(listing.len(), 1);
    assert_eq!(listing[0].value, "new");
    assert_eq!(listing[0].expires, None);
    assert_eq!(jar.get("http://example.com/").unwrap(), vec![pair("sid", "new")]);
    jar.remove("example.com", "/", "sid");
    assert!(jar.get("http://example.com/").unwrap().is_empty());
}

#[test]
fn a_written_document_reads_back_at_the_places_of_the_jar() {
    let mut jar = CookieJar::new();
    jar.parse("a=1; Max-Age=3600; HttpOnly", "http://example.com/x/y").unwrap();
    jar.parse("b=2; Max-Age=3600; Domain=example.com; Secure", "https://www.example.com/")
        .unwrap();
    jar.parse("c=3", "http://example.com/").unwrap();
    let loaded = CookieJar::load(&jar.document().unwrap()).unwrap();
    let written = loaded.list();
    assert_eq!(written.len(), 2);
    for line in written.iter() {
        let entry = jar
            .list()
            .into_iter()
            .find(|c| c.domain == line.domain && c.path == line.path && c.name == line.name)
            .unwrap();
        assert!(entry.expires.is_some());
        assert!(line.expires.is_some());
        assert_eq!(entry.host_only, line.host_only);
        assert_eq!(entry.http_only, line.http_only);
        assert_eq!(entry.secure, line.secure);
        assert_eq!(entry.value, line.value);
    }
    assert!(written.iter().any(|c| c.name == "a" && c.path == "/x" && c.http_only));
    assert!(written.iter().any(|c| c.name == "b" && c.domain == "example.com" && c.secure));
}

#[test]
fn a_written_cookie_may_read_back_without_its_quotes_and_as_secure() {
    let mut jar = CookieJar::new();
    jar.parse("q=\"\"b\"\"; Max-Age=3600", "http://example.com/").unwrap();
    jar.parse("s=1; Max-Age=3600; SameSite=None", "http://example.com/").unwrap();
    let before = jar.list();
    let q = before.iter().find(|c| c.name == "q").unwrap();
    assert_eq!(q.value, "\"b\"");
    let s = before.iter().find(|c| c.name == "s").unwrap();
    assert!(!s.secure);
    let loaded = CookieJar::load(&jar.document().unwrap()).unwrap();
    let after = loaded.list();
    assert_eq!(after.len(), 2);
    let q = after.iter().find(|c| c.name == "q").unwrap();
    assert_eq!(q.value, "b");
    let s = after.iter().find(|c| c.name == "s").unwrap();
    assert!(s.secure);
}

#[test]
fn the_store_can_be_read() {
    let mut jar = CookieJar::new();
    jar.parse("a=1", "http://example.com/").unwrap();
    jar.parse("b=2", "http://example.com/").unwrap();
    assert_eq!(jar.as_store().iter_any().count(), 2);
    assert!(jar.as_store().contains("example.com", "/", "a"));
}

#[test]
fn a_cookie_has_a_scope_of_hosts_and_paths() {
    let mut jar = CookieJar::new();
    jar.parse("wide=1; Domain=example.com; Path=/app", "http://example.com/app").unwrap();
    jar.parse("narrow=2", "http://example.com/").unwrap();
    let listing = jar.list();
    let wide = listing.iter().find(|c| c.name == "wide").unwrap();
    assert!(wide.in_scope_of("http://example.com/app").unwrap());
    assert!(wide.in_scope_of("http://www.example.com/app/x?y=1").unwrap());
    assert!(!wide.in_scope_of("http://example.com/apple").unwrap());
    assert!(!wide.in_scope_of("http://example.com/").unwrap());
    assert!(!wide.in_scope_of("http://badexample.com/app").unwrap());
    assert!(!wide.in_scope_of("http://example.org/app").unwrap());
    let narrow = listing.iter().find(|c| c.name == "narrow").unwrap();
    assert!(narrow.in_scope_of("http://example.com/any/where").unwrap());
    assert!(!narrow.in_scope_of("http://www.example.com/").unwrap());
    assert!(!narrow.in_scope_of("mailto:someone@example.com").unwrap());
    let error = narrow.in_scope_of("not a url").unwrap_err();
    assert_eq!(error.category(), "urlParse");
}

#[test]
fn the_jar_sends_cookies_to_urls_in_their_scope_only() {
    let mut jar = CookieJar::new();
    jar.parse("a=1; Domain=example.com; Path=/app", "http://example.com/app").unwrap();
    jar.parse("b=2", "http://example.com/").unwrap();
    jar.parse("c=3; Path=/app/deep", "http://www.example.com/app/deep").unwrap();
    let listing = jar.list();
    for url in [
        "http://example.com/",
        "http://example.com/app",
        "http://www.example.com/app/deep/er",
        "http://example.org/app",
        "https://www.example.com/apple",
    ] {
        for (name, value) in jar.get(url).unwrap() {
            let cookie = listing.iter().find(|c| c.name == name && c.value == value).unwrap();
            assert!(cookie.in_scope_of(url).unwrap());
        }
    }
    assert_eq!(jar.get("http://www.example.com/app/deep/er").unwrap().len(), 2);
}

#[test]
fn scopes_are_told_by_texts() {
    assert!(host_is_in_domain("example.com", true, "example.com"));
    assert!(!host_is_in_domain("example.com", true, "www.example.com"));
    assert!(host_is_in_domain("example.com", false, "www.example.com"));
    assert!(!host_is_in_domain("example.com", false, "wwwexample.com"));
    assert!(!host_is_in_domain("example.com", false, "com"));
    assert!(!host_is_in_domain("www.example.com", false, "example.com"));
    assert!(path_is_below("/", "/"));
    assert!(path_is_below("/", "/x"));
    assert!(path_is_below("/app", "/app"));
    assert!(path_is_below("/app", "/app/x"));
    assert!(path_is_below("/app/", "/app/x"));
    assert!(!path_is_below("/app", "/apple"));
    assert!(!path_is_below("/app/x", "/app"));
    assert!(!path_is_below("", "x"));
    assert!(path_is_below("", "/x"));
}

#[test]
fn the_first_cookie_at_a_place_is_inserted() {
    let mut jar = CookieJar::new();
    let set = vec!["a=1".to_string(), "a=2".to_string(), "b=3".to_string()];
    let actions = save_cookie_store(&mut jar, set, "http://example.com/").unwrap();
    assert_eq!(
        actions,
        vec![StoreAction::Inserted, StoreAction::UpdatedExisting, StoreAction::Inserted]
    );
    let listing = jar.list();
    assert_eq!(listing.iter().find(|c| c.name == "a").unwrap().value, "2");
    assert_eq!(listing.iter().find(|c| c.name == "b").unwrap().value, "3");
}

#[test]
fn taking_a_cookie_leaves_the_expiry_of_the_others() {
    let mut jar = CookieJar::new();
    let later = "Wed, 21 Oct 2099 07:28:00 GMT";
    add_cookie(&mut jar, cookie("keep", "1", "/", "example.com", later)).unwrap();
    add_cookie(&mut jar, cookie("other", "2", "/", "example.com", "")).unwrap();
    save_cookie_store(&mut jar, vec!["third=3; Max-Age=60".to_string()], "http://example.com/")
        .unwrap();
    let listing = jar.list();
    assert_eq!(listing.iter().find(|c| c.name == "keep").unwrap().expires, Some(4_096_250_880));
    assert_eq!(listing.iter().find(|c| c.name == "other").unwrap().expires, None);
    assert!(listing.iter().find(|c| c.name == "third").unwrap().expires.is_some());
    jar.remove("example.com", "/", "keep");
    assert!(jar.list().iter().all(|c| c.name != "keep"));
    assert_eq!(jar.list().iter().find(|c| c.name == "other").unwrap().expires, None);
}
