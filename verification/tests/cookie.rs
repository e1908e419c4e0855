use dsh_desktop::cookie::{
    handshake_due, harvest_cookie, keep_cookie, live_agent_token, renew_cookie,
    starting_agent_token, CookieCache, Handshake, HandshakeStep, Wait, WaitStep, BRIEF_ATTEMPTS,
    HANDSHAKE_ATTEMPTS, HEALTH_ATTEMPTS,
};
use dsh_desktop::http::{text_header, Header};

const SECOND: u128 = 1_000_000_000;
const TTL: u128 = 25 * 60 * SECOND;

fn sets(v: &str) -> Option<Vec<Header>> {
    Some(vec![text_header("Set-Cookie", v)])
}

#[test]
fn a_cookie_grows_stale() {
    let mut c = CookieCache::new();
    assert!(!c.is_some() && c.is_expired(0) && c.get().is_none());
    c.set("a=b".to_string(), 10);
    assert!(c.is_some());
    assert_eq!(c.get(), Some("a=b".to_string()));
    assert!(!c.is_expired(10));
    assert!(!c.is_expired(0), "a clock that stands still is no reason to renew");
    assert!(!c.is_expired(10 + TTL));
    assert!(c.is_expired(10 + TTL + 1));
    c.clear();
    assert!(!c.is_some() && c.is_expired(10));
}

#[test]
fn launch_tokens_are_chosen() {
    let some = |s: &str| Some(s.to_string());
    assert_eq!(live_agent_token(&some("live"), "start"), "live");
    assert_eq!(live_agent_token(&some(""), "start"), "start");
    assert_eq!(live_agent_token(&None, "start"), "start");
    assert_eq!(starting_agent_token(&some("p"), &some("l")), "p");
    assert_eq!(starting_agent_token(&some(""), &some("l")), "l");
    assert_eq!(starting_agent_token(&None, &None), "");
}

#[test]
fn the_cookie_is_taken_without_its_attributes() {
    let h = sets(" dsh-auth-x=y ; HttpOnly; SameSite=Strict").unwrap();
    assert_eq!(harvest_cookie(&h), Some("dsh-auth-x=y".to_string()));
    assert_eq!(harvest_cookie(&sets(" ; HttpOnly").unwrap()), None);
    assert_eq!(harvest_cookie(&Vec::new()), None);
}

#[test]
fn a_handshake_needs_a_token() {
    assert!(matches!(Handshake::start(3080, "", 20).1, HandshakeStep::Done(None)));
    assert!(matches!(Handshake::start(3080, "t", 0).1, HandshakeStep::Done(None)));
}

#[test]
fn a_handshake_gives_the_first_cookie() {
    let (mut h, step) = Handshake::start(3080, "tok", 3);
    let url = "http://127.0.0.1:3080/?token=tok";
    assert!(matches!(step, HandshakeStep::Ask(u) if u == url));
    assert!(matches!(h.replied(&None), HandshakeStep::Pause(500)));
    assert!(matches!(h.paused(), HandshakeStep::Ask(u) if u == url));
    assert!(matches!(h.replied(&Some(Vec::new())), HandshakeStep::Pause(500)));
    assert!(matches!(h.paused(), HandshakeStep::Ask(_)));
    assert!(matches!(h.replied(&sets("a=b; Path=/")), HandshakeStep::Done(Some(c)) if c == "a=b"));
}

#[test]
fn a_handshake_gives_up() {
    let (mut h, _) = Handshake::start(1, "tok", 2);
    assert!(matches!(h.replied(&None), HandshakeStep::Pause(500)));
    assert!(matches!(h.paused(), HandshakeStep::Ask(_)));
    assert!(matches!(h.replied(&None), HandshakeStep::Pause(500)));
    assert!(matches!(h.paused(), HandshakeStep::Done(None)));
    assert!(matches!(h.paused(), HandshakeStep::Done(None)));
}

#[test]
fn the_handshake_is_due_without_a_fresh_cookie() {
    let mut c = CookieCache::new();
    assert!(handshake_due(&c, 0, "tok"));
    assert!(!handshake_due(&c, 0, ""));
    keep_cookie(&mut c, Some("a=b".to_string()), 5);
    assert!(!handshake_due(&c, 5 + TTL, "tok"));
    assert!(handshake_due(&c, 6 + TTL, "tok"));
    keep_cookie(&mut c, None, 9);
    assert!(!c.is_some(), "a handshake that failed leaves no stale cookie");
}

#[test]
fn a_renewal_that_fails_changes_nothing() {
    let mut c = CookieCache::new();
    renew_cookie(&mut c, &Some("a=b".to_string()), 5);
    renew_cookie(&mut c, &None, 9);
    assert_eq!(c.get(), Some("a=b".to_string()));
    assert!(!c.is_expired(5 + TTL) && c.is_expired(6 + TTL));
}

#[test]
fn a_patient_wait_pauses_eight_times() {
    let empty = CookieCache::new();
    let (mut w, first) = Wait::patient();
    assert!(matches!(first, WaitStep::Ensure(20)));
    let mut pauses = 0;
    loop {
        match w.ensured(&empty, 0) {
            WaitStep::Pause(ms) => {
                assert_eq!(ms, 400);
                pauses += 1;
                assert!(matches!(w.paused(), WaitStep::Ensure(20)));
            }
            WaitStep::Done(c) => {
                assert_eq!(c, "");
                break;
            }
            WaitStep::Ensure(_) => panic!("nothing to ensure"),
        }
    }
    assert_eq!(pauses, 8);
}

#[test]
fn a_wait_ends_with_the_cookie() {
    let mut cache = CookieCache::new();
    cache.set("c".to_string(), 0);
    let (w, _) = Wait::patient();
    assert!(matches!(w.ensured(&cache, TTL), WaitStep::Done(c) if c == "c"));
    let (_, step) = Wait::brief(&cache, TTL);
    assert!(matches!(step, WaitStep::Done(c) if c == "c"));
}

#[test]
fn a_brief_wait_ends_after_eight_seconds() {
    let empty = CookieCache::new();
    let (mut w, step) = Wait::brief(&empty, 100);
    assert!(matches!(step, WaitStep::Ensure(1)));
    assert!(matches!(w.ensured(&empty, 99 + 8 * SECOND), WaitStep::Pause(400)));
    assert!(matches!(w.paused(), WaitStep::Ensure(1)));
    assert!(matches!(w.ensured(&empty, 100 + 8 * SECOND), WaitStep::Done(c) if c.is_empty()));
}

#[test]
fn a_stale_cookie_is_renewed_before_it_is_used() {
    let mut cache = CookieCache::new();
    cache.set("old=1".to_string(), 0);
    let now = TTL + 1;
    assert_eq!(cache.get_fresh(TTL), Some("old=1".to_string()));
    assert_eq!(cache.get_fresh(now), None);
    let (w, step) = Wait::brief(&cache, now);
    assert!(matches!(step, WaitStep::Ensure(1)));
    assert!(matches!(w.ensured(&cache, now), WaitStep::Pause(400)));
    assert!(handshake_due(&cache, now, "tok"));
    keep_cookie(&mut cache, Some("new=1".to_string()), now);
    assert!(matches!(w.ensured(&cache, now), WaitStep::Done(c) if c == "new=1"));
    assert!(!cache.is_expired(now));
}

#[test]
fn health_tries_the_handshake_once() {
    assert_eq!((HEALTH_ATTEMPTS, BRIEF_ATTEMPTS, HANDSHAKE_ATTEMPTS), (1, 1, 20));
}
