use stitch::harness::{
    loopback_addr, tcp_url, Access, BrokerHarness, HarnessError, PortSearch, FIRST_PORT,
    PORT_ATTEMPTS,
};

#[test]
fn users_switch_anonymous_access_off() {
    assert!(BrokerHarness::new().allows_anonymous());
    assert!(BrokerHarness::default().allows_anonymous());
    assert!(!BrokerHarness::new().user("app", "secret").allows_anonymous());
    assert!(BrokerHarness::new().anonymous(true).user("a", "b").allows_anonymous());
    assert!(BrokerHarness::new().user("a", "b").anonymous(true).allows_anonymous());
    assert!(!BrokerHarness::new().anonymous(false).allows_anonymous());
}

#[test]
fn the_scope_has_defaults() {
    let harness = BrokerHarness::new();
    assert_eq!((harness.root_entity(), harness.scope_field()), ("project", "projectId"));
    let harness = harness.scope("board", "boardId");
    assert_eq!((harness.root_entity(), harness.scope_field()), ("board", "boardId"));
}

#[test]
fn access_rules_are_written() {
    assert_eq!(BrokerHarness::new().acl_file(), None);
    let harness = BrokerHarness::new()
        .allow("app", "$DB/#", Access::ReadWrite)
        .allow("app", "p2p/+/offer", Access::Write)
        .allow("bob", "$DB/#", Access::Read)
        .allow("eve", "#", Access::Deny);
    assert_eq!(
        harness.acl_file().unwrap(),
        "user app topic $DB/# permission readwrite\n\
         user app topic p2p/+/offer permission write\n\
         user bob topic $DB/# permission read\n\
         user eve topic # permission deny\n"
    );
}

#[test]
fn passwords_are_hashed() {
    assert_eq!(BrokerHarness::new().password_file(), Ok(None));
    let harness = BrokerHarness::new().user("app", "secret").user("bob", "pw");
    let file = harness.password_file().unwrap().unwrap();
    let lines: Vec<&str> = file.lines().collect();
    assert_eq!(lines.len(), 2);
    for (line, name, password) in [(lines[0], "app", "secret"), (lines[1], "bob", "pw")] {
        let (user, hash) = line.split_once(':').unwrap();
        assert_eq!(user, name);
        assert_ne!(hash, password);
        assert!(mqtt5::broker::PasswordAuthProvider::verify_password(password, hash));
    }
    assert_eq!(
        harness.password_file_of(&vec!["h1".to_string(), "h2".to_string()]).unwrap(),
        "app:h1\nbob:h2\n"
    );
    assert_eq!(HarnessError::Hash("no salt".to_string()).message(), "no salt");
}

#[test]
fn addresses_are_loopback() {
    assert_eq!(loopback_addr(28800), "127.0.0.1:28800");
    assert_eq!(tcp_url(&loopback_addr(1883)), "mqtt://127.0.0.1:1883");
}

#[test]
fn ports_are_offered_in_order() {
    let mut search = PortSearch::new(FIRST_PORT);
    assert_eq!(search.candidate(), Some(28800));
    assert_eq!(search.candidate(), Some(28801));
    assert_eq!(search.next(), 28802);
}

#[test]
fn reserved_ports_are_not_offered() {
    let mut search = PortSearch::new(65534);
    assert_eq!(search.candidate(), Some(65534));
    assert_eq!(search.candidate(), Some(65535));
    assert_eq!(search.candidate(), None, "the rest of the draws are reserved ports");
    assert_eq!(search.next(), 254, "all draws were made");
    let mut search = PortSearch::new(1020);
    assert_eq!(search.candidate(), Some(1024));
    let mut left = 1;
    while search.candidate().is_some() {
        left += 1;
    }
    assert_eq!(left, PORT_ATTEMPTS - 4);
}
