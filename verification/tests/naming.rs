use rosrust::api::naming::{check, Error, ErrorKind, Resolver};

fn kind(r: Result<String, Error>) -> ErrorKind {
    r.err().unwrap().kind
}

#[test]
fn absolute_names_stand_for_themselves() {
    let r = Resolver::new("/some/long/path").unwrap();
    assert_eq!(r.translate("/foo").unwrap(), "/foo");
    assert_eq!(r.translate("/foo/bar").unwrap(), "/foo/bar");
    assert_eq!(r.translate("/f1_aA/Ba02/Xx").unwrap(), "/f1_aA/Ba02/Xx");
}

#[test]
fn relative_names_go_below_the_namespace() {
    let r = Resolver::new("/some/long/path").unwrap();
    assert_eq!(r.translate("bar").unwrap(), "/some/long/bar");
    assert_eq!(r.translate("bar/baz").unwrap(), "/some/long/bar/baz");
    let root = Resolver::new("/talker").unwrap();
    assert_eq!(root.translate("chatter").unwrap(), "/chatter");
}

#[test]
fn private_names_go_below_the_node() {
    let r = Resolver::new("/some/long/path").unwrap();
    assert_eq!(r.translate("~bar").unwrap(), "/some/long/path/bar");
    assert_eq!(r.translate("~bar/baz").unwrap(), "/some/long/path/bar/baz");
    let root = Resolver::new("/talker").unwrap();
    assert_eq!(root.translate("~rate").unwrap(), "/talker/rate");
}

#[test]
fn faulty_names_are_refused_with_their_kind() {
    let r = Resolver::new("/ns/node").unwrap();
    assert_eq!(kind(r.translate("")), ErrorKind::EmptyName);
    assert_eq!(kind(r.translate("/")), ErrorKind::EmptyName);
    assert_eq!(kind(r.translate("~")), ErrorKind::EmptyName);
    assert_eq!(kind(r.translate("/a//b")), ErrorKind::EmptyName);
    assert_eq!(kind(r.translate("/a/")), ErrorKind::EmptyName);
    assert_eq!(kind(r.translate("a/")), ErrorKind::EmptyName);
    assert_eq!(kind(r.translate("/123")), ErrorKind::IllegalFirstCharacter);
    assert_eq!(kind(r.translate("/_e")), ErrorKind::IllegalFirstCharacter);
    assert_eq!(kind(r.translate("1a")), ErrorKind::IllegalFirstCharacter);
    assert_eq!(kind(r.translate("~~a")), ErrorKind::IllegalFirstCharacter);
    assert_eq!(kind(r.translate("/a b")), ErrorKind::IllegalCharacter);
    assert_eq!(kind(r.translate("a\tb")), ErrorKind::IllegalCharacter);
    assert_eq!(kind(r.translate("/a-b")), ErrorKind::IllegalCharacter);
    assert_eq!(kind(r.translate("/na\u{ef}ve")), ErrorKind::IllegalCharacter);
    let e = r.translate("/a b").err().unwrap();
    assert_eq!(e.name, "/a b");
}

#[test]
fn the_first_fault_in_reading_order_is_reported() {
    assert_eq!(check("/a b//c"), Err(ErrorKind::IllegalCharacter));
    assert_eq!(check("/a//b c"), Err(ErrorKind::EmptyName));
    assert_eq!(check("/1/a b"), Err(ErrorKind::IllegalFirstCharacter));
    assert_eq!(check("/ok/name_1"), Ok(()));
    assert_eq!(check(""), Ok(()));
}

#[test]
fn a_node_needs_an_absolute_name() {
    assert_eq!(Resolver::new("").err().unwrap().kind, ErrorKind::EmptyName);
    assert_eq!(Resolver::new("node").err().unwrap().kind, ErrorKind::LeadingSlashMissing);
    assert_eq!(Resolver::new("ns/node").err().unwrap().kind, ErrorKind::LeadingSlashMissing);
    assert_eq!(Resolver::new("/").err().unwrap().kind, ErrorKind::EmptyName);
    assert_eq!(Resolver::new("/ns//node").err().unwrap().kind, ErrorKind::EmptyName);
    assert_eq!(Resolver::new("/ns/9").err().unwrap().kind, ErrorKind::IllegalFirstCharacter);
    assert_eq!(Resolver::new("/ns/no de").err().unwrap().kind, ErrorKind::IllegalCharacter);
    assert_eq!(Resolver::new("/ns/no de").err().unwrap().name, "/ns/no de");
    assert!(Resolver::new("/node").is_ok());
}

#[test]
fn remapping_replaces_once() {
    let mut r = Resolver::new("/ns/node").unwrap();
    r.map("/foo", "/bar").unwrap();
    assert_eq!(r.translate("/foo").unwrap(), "/bar");
    assert_eq!(r.translate("/bar").unwrap(), "/bar");
    assert_eq!(r.translate("/other").unwrap(), "/other");
    r.map("/bar", "/baz").unwrap();
    assert_eq!(r.translate("/foo").unwrap(), "/bar");
    assert_eq!(r.translate("/bar").unwrap(), "/baz");
}

#[test]
fn remappings_may_be_stated_in_relative_form() {
    let mut r = Resolver::new("/ns/node").unwrap();
    r.map("scan", "~laser").unwrap();
    assert_eq!(r.translate("scan").unwrap(), "/ns/node/laser");
    assert_eq!(r.translate("/ns/scan").unwrap(), "/ns/node/laser");
    assert_eq!(r.translate("/scan").unwrap(), "/scan");
}

#[test]
fn map_translates_both_names_first() {
    let mut r = Resolver::new("/node").unwrap();
    r.map("/b", "/c").unwrap();
    r.map("/a", "/b").unwrap();
    assert_eq!(r.translate("/a").unwrap(), "/c");
    r.map("/a", "/d").unwrap();
    assert_eq!(r.translate("/a").unwrap(), "/c");
    assert_eq!(r.translate("/c").unwrap(), "/d");
}

#[test]
fn a_remapping_with_the_same_source_is_replaced() {
    let mut r = Resolver::new("/node").unwrap();
    r.map("/x", "/y").unwrap();
    assert_eq!(r.translate("/x").unwrap(), "/y");
    let mut q = Resolver::new("/node").unwrap();
    q.map("/k", "/one").unwrap();
    q.map("/other", "/two").unwrap();
    assert_eq!(q.translate("/k").unwrap(), "/one");
    assert_eq!(q.translate("/other").unwrap(), "/two");
}

#[test]
fn map_refuses_faulty_names_and_keeps_the_table() {
    let mut r = Resolver::new("/node").unwrap();
    r.map("/foo", "/bar").unwrap();
    let e = r.map("/a b", "/1").err().unwrap();
    assert_eq!(e.kind, ErrorKind::IllegalCharacter);
    assert_eq!(e.name, "/a b");
    let e = r.map("/ok", "/1").err().unwrap();
    assert_eq!(e.kind, ErrorKind::IllegalFirstCharacter);
    assert_eq!(e.name, "/1");
    assert_eq!(r.translate("/ok").unwrap(), "/ok");
    assert_eq!(r.translate("/foo").unwrap(), "/bar");
}

#[test]
fn translate_is_idempotent_where_the_result_is_not_remapped() {
    let mut r = Resolver::new("/ns/node").unwrap();
    r.map("/foo", "/bar").unwrap();
    for name in ["/foo", "foo", "~foo", "/bar", "/x/y_1", "a/b", "~a/b"] {
        let once = r.translate(name).unwrap();
        let twice = r.translate(&once).unwrap();
        assert_eq!(twice, once, "for {}", name);
    }
}

#[test]
fn translate_is_not_idempotent_through_a_chain_of_remappings() {
    let mut r = Resolver::new("/node").unwrap();
    r.map("/foo", "/bar").unwrap();
    r.map("/bar", "/baz").unwrap();
    let once = r.translate("/foo").unwrap();
    assert_eq!(once, "/bar");
    assert_eq!(r.translate(&once).unwrap(), "/baz");
}
