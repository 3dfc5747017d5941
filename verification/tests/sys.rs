use terminal_plugin::localize::t;
use terminal_plugin::sys::{
    home_dir, host, hostname_short, identity_from_env, identity_from_output, identity_from_probe,
    probe_done, short, user,
};

fn some(s: &str) -> Option<String> {
    Some(s.to_owned())
}

#[test]
fn a_host_name_is_cut_at_its_first_dot() {
    assert_eq!(short("verysilly.lan\n"), "verysilly");
    assert_eq!(short("box"), "box");
    assert_eq!(short(""), "host");
}

#[test]
fn the_prompt_always_has_a_user_and_a_host() {
    let id = identity_from_env(None, None, None, None, None);
    assert!(!user(&id).is_empty());
    assert!(!host(&id).is_empty());
    let empty = || Some(String::new());
    let id = identity_from_env(empty(), empty(), empty(), empty(), empty());
    assert_eq!(user(&id), "user");
    assert_eq!(host(&id), "host");
    let id = identity_from_probe("");
    assert!(!user(&id).is_empty());
    assert!(!host(&id).is_empty());
}

#[test]
fn the_environment_tells_the_identity() {
    let id = identity_from_env(
        some("box.lan\n"),
        some("other"),
        some("nico"),
        some("/home/nico"),
        some("C:\\Users\\nico"),
    );
    assert_eq!(user(&id), "nico");
    assert_eq!(host(&id), "box");
    assert_eq!(home_dir(&id), some("/home/nico"));
    let id = identity_from_env(some(" \n"), some("other.lan"), None, None, some("C:\\U"));
    assert_eq!(user(&id), "user");
    assert_eq!(host(&id), "other");
    assert_eq!(home_dir(&id), some("C:\\U"));
    // An empty home is none, and hides the other variable.
    let id = identity_from_env(None, None, None, some(""), some("C:\\U"));
    assert_eq!(host(&id), "host");
    assert_eq!(home_dir(&id), None);
}

#[test]
fn a_probe_tells_the_identity() {
    let id = identity_from_probe("nico\n/home/nico\nbox.lan\n");
    assert_eq!(user(&id), "nico");
    assert_eq!(host(&id), "box");
    assert_eq!(home_dir(&id), some("/home/nico"));
    let id = identity_from_probe("\r\n \n");
    assert_eq!(user(&id), "user");
    assert_eq!(host(&id), "host");
    assert_eq!(home_dir(&id), None);
}

#[test]
fn what_a_probe_printed_is_decoded() {
    let id = identity_from_output(b"ni\xFFco\n/home/n\xC3\xA9\nbox\n");
    assert_eq!(user(&id), "ni\u{FFFD}co");
    assert_eq!(home_dir(&id), some("/home/n\u{e9}"));
    assert_eq!(host(&id), "box");
    assert!(probe_done(true, 0));
    assert!(!probe_done(false, 2000));
    assert!(probe_done(false, 2001));
}

#[test]
fn the_host_of_a_prompt() {
    assert_eq!(hostname_short(some(" box.lan\n"), some("other")), "box");
    assert_eq!(hostname_short(some("\n"), some("other.lan")), "other");
    assert_eq!(hostname_short(None, None), "host");
    assert_eq!(hostname_short(None, some("")), "host");
    assert_eq!(hostname_short(some(".lan"), None), "host");
}

#[test]
fn strings_are_looked_up_by_id() {
    let bundle = "# comment\nterminal-a = Hello = world\r\n terminal-b  = Two\nterminal-a = late\n";
    assert_eq!(t(bundle, "terminal-a"), "Hello = world");
    assert_eq!(t(bundle, "terminal-b"), "Two");
    assert_eq!(t(bundle, "terminal-c"), "terminal-c");
    assert_eq!(t("", "x"), "x");
    assert_eq!(t("x =y", "x"), "x");
}
