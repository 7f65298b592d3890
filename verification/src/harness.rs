//! Configuration of a local broker: users, access rules, scope and port.
use vstd::prelude::*;
use crate::text::put_decimal;

verus! {

/// The first port that is tried.
pub const FIRST_PORT: u16 = 28800;

/// How many candidates are drawn before the search is given up.
pub const PORT_ATTEMPTS: u16 = 256;

/// The lowest port that is tried.
pub const LOWEST_PORT: u16 = 1024;

/// An error of the MQTT library.
#[verifier::external_type_specification]
#[verifier::external_body]
pub struct ExMqttError(mqtt5::MqttError);

/// What `mqtt5::broker::PasswordAuthProvider::verify_password` says of a password
/// and a hash.
pub uninterp spec fn password_accepted(password: Seq<char>, hash: Seq<char>) -> bool;

/// The text of an error, as its `Display` gives it.
pub uninterp spec fn mqtt_error_display(error: mqtt5::MqttError) -> Seq<char>;

/// `mqtt5::broker::PasswordAuthProvider::hash_password`: a hash of the password
/// under a fresh random salt, against which the password verifies.
#[verifier::external_body]
fn hash_password(password: &str) -> (hash: Result<String, mqtt5::MqttError>)
    ensures
        hash matches Ok(h) ==> password_accepted(password@, h@),
{
    mqtt5::broker::PasswordAuthProvider::hash_password(password)
}

/// The text of an `mqtt5::MqttError`, as its `Display` gives it.
#[verifier::external_body]
fn mqtt_error_text(error: &mqtt5::MqttError) -> (text: String)
    ensures
        text@ == mqtt_error_display(*error),
{
    format!("{error}")
}

/// Topic permission granted to a user in the broker ACL.
#[derive(Debug, Clone, Copy, PartialEq, Eq, Structural)]
pub enum Access {
    Read,
    Write,
    ReadWrite,
    Deny,
}

/// The word for a permission in an ACL file.
pub open spec fn access_token(access: Access) -> Seq<char> {
    match access {
        Access::Read => "read"@,
        Access::Write => "write"@,
        Access::ReadWrite => "readwrite"@,
        Access::Deny => "deny"@,
    }
}

impl Access {
    /// The word for the permission in an ACL file.
    pub fn token(self) -> (token: &'static str)
        ensures
            token@ == access_token(self),
    {
        match self {
            Access::Read => "read",
            Access::Write => "write",
            Access::ReadWrite => "readwrite",
            Access::Deny => "deny",
        }
    }
}

/// One access rule.
#[derive(Debug)]
pub struct AclEntry {
    pub user: String,
    pub topic: String,
    pub access: Access,
}

/// The mathematical content of an [`AclEntry`].
#[verifier::ext_equal]
pub struct AclModel {
    pub user: Seq<char>,
    pub topic: Seq<char>,
    pub access: Access,
}

impl View for AclEntry {
    type V = AclModel;

    open spec fn view(&self) -> AclModel {
        AclModel { user: self.user@, topic: self.topic@, access: self.access }
    }
}

/// Builder for a local `mqdb` agent. Defaults: anonymous access allowed, scope
/// root `project` / scope field `projectId`. Adding any user switches anonymous
/// access off unless re-enabled with [`BrokerHarness::anonymous`].
#[derive(Debug)]
pub struct BrokerHarness {
    root_entity: String,
    scope_field: String,
    anonymous: bool,
    anonymous_set: bool,
    users: Vec<(String, String)>,
    acl: Vec<AclEntry>,
}

/// The mathematical content of a [`BrokerHarness`].
#[verifier::ext_equal]
pub struct HarnessModel {
    pub root_entity: Seq<char>,
    pub scope_field: Seq<char>,
    pub anonymous: bool,
    pub anonymous_set: bool,
    /// Names and passwords.
    pub users: Seq<(Seq<char>, Seq<char>)>,
    pub acl: Seq<AclModel>,
}

impl View for BrokerHarness {
    type V = HarnessModel;

    closed spec fn view(&self) -> HarnessModel {
        HarnessModel {
            root_entity: self.root_entity@,
            scope_field: self.scope_field@,
            anonymous: self.anonymous,
            anonymous_set: self.anonymous_set,
            users: Seq::new(self.users@.len(), |i: int| (self.users@[i].0@, self.users@[i].1@)),
            acl: Seq::new(self.acl@.len(), |i: int| self.acl@[i]@),
        }
    }
}

/// Why no password file could be made.
#[derive(Debug, PartialEq, Eq)]
pub enum HarnessError {
    /// A password could not be hashed.
    Hash(String),
}

impl HarnessError {
    /// The error as a sentence.
    pub fn message(&self) -> (text: String)
        ensures
            self matches HarnessError::Hash(reason) && text@ == reason@,
    {
        match self {
            HarnessError::Hash(reason) => reason.clone(),
        }
    }
}

/// A password file: for each user a line with the name and the hash.
pub open spec fn password_lines(
    users: Seq<(Seq<char>, Seq<char>)>,
    hashes: Seq<Seq<char>>,
) -> Seq<char>
    decreases users.len(),
{
    if users.len() == 0 {
        Seq::empty()
    } else {
        password_lines(users.drop_last(), hashes.drop_last()) + users.last().0 + ":"@
            + hashes.last() + "\n"@
    }
}

/// There is one hash for each user, and the user's password verifies against it.
pub open spec fn hashes_fit(
    users: Seq<(Seq<char>, Seq<char>)>,
    hashes: Seq<Seq<char>>,
) -> bool {
    &&& hashes.len() == users.len()
    &&& forall|i: int| 0 <= i < hashes.len() ==> password_accepted(users[i].1, #[trigger] hashes[i])
}

/// An ACL file: for each rule a line with its user, topic and permission.
pub open spec fn acl_lines(acl: Seq<AclModel>) -> Seq<char>
    decreases acl.len(),
{
    if acl.len() == 0 {
        Seq::empty()
    } else {
        acl_lines(acl.drop_last()) + "user "@ + acl.last().user + " topic "@ + acl.last().topic
            + " permission "@ + access_token(acl.last().access) + "\n"@
    }
}

impl Default for BrokerHarness {
    fn default() -> (harness: Self)
        ensures
            harness@ == HarnessModel::initial(),
    {
        BrokerHarness::new()
    }
}

impl HarnessModel {
    /// Anonymous access, no users and no rules.
    pub open spec fn initial() -> HarnessModel {
        HarnessModel {
            root_entity: "project"@,
            scope_field: "projectId"@,
            anonymous: true,
            anonymous_set: false,
            users: Seq::empty(),
            acl: Seq::empty(),
        }
    }

    /// Anonymous access is allowed or not, whatever users are added.
    pub open spec fn with_anonymous(self, allow: bool) -> HarnessModel {
        HarnessModel { anonymous: allow, anonymous_set: true, ..self }
    }

    /// One more user.
    pub open spec fn with_user(self, name: Seq<char>, password: Seq<char>) -> HarnessModel {
        HarnessModel {
            users: self.users.push((name, password)),
            anonymous: self.anonymous_set && self.anonymous,
            ..self
        }
    }
}

impl BrokerHarness {
    #[must_use]
    pub fn new() -> (harness: Self)
        ensures
            harness@ == HarnessModel::initial(),
    {
        let harness = BrokerHarness {
            root_entity: "project".to_string(),
            scope_field: "projectId".to_string(),
            anonymous: true,
            anonymous_set: false,
            users: Vec::new(),
            acl: Vec::new(),
        };
        assert(harness@ =~= HarnessModel::initial());
        harness
    }

    /// Sets the scope's root entity and scope field.
    #[must_use]
    pub fn scope(self, root_entity: &str, scope_field: &str) -> (harness: Self)
        ensures
            harness@ == (HarnessModel {
                root_entity: root_entity@,
                scope_field: scope_field@,
                ..self@
            }),
    {
        BrokerHarness {
            root_entity: root_entity.to_string(),
            scope_field: scope_field.to_string(),
            ..self
        }
    }

    /// Allows or forbids anonymous access, whatever users are added.
    #[must_use]
    pub fn anonymous(self, allow: bool) -> (harness: Self)
        ensures
            harness@ == self@.with_anonymous(allow),
    {
        BrokerHarness { anonymous: allow, anonymous_set: true, ..self }
    }

    /// Adds a user, which switches anonymous access off unless it was set.
    #[must_use]
    pub fn user(self, username: &str, password: &str) -> (harness: Self)
        ensures
            harness@ == self@.with_user(username@, password@),
    {
        let ghost before = self@;
        let mut harness = self;
        harness.users.push((username.to_string(), password.to_string()));
        if !harness.anonymous_set {
            harness.anonymous = false;
        }
        assert(harness@ =~= before.with_user(username@, password@));
        harness
    }

    /// Adds an access rule.
    #[must_use]
    pub fn allow(self, username: &str, topic: &str, access: Access) -> (harness: Self)
        ensures
            harness@ == (HarnessModel {
                acl: self@.acl.push(AclModel { user: username@, topic: topic@, access }),
                ..self@
            }),
    {
        let ghost before = self@;
        let mut harness = self;
        harness.acl.push(
            AclEntry { user: username.to_string(), topic: topic.to_string(), access },
        );
        assert(harness@ =~= HarnessModel {
            acl: before.acl.push(AclModel { user: username@, topic: topic@, access }),
            ..before
        });
        harness
    }

    /// The scope's root entity.
    pub fn root_entity(&self) -> (entity: &str)
        ensures
            entity@ == self@.root_entity,
    {
        self.root_entity.as_str()
    }

    /// The field by which children name their scope.
    pub fn scope_field(&self) -> (field: &str)
        ensures
            field@ == self@.scope_field,
    {
        self.scope_field.as_str()
    }

    /// Whether anonymous access is allowed.
    pub fn allows_anonymous(&self) -> (allowed: bool)
        ensures
            allowed == self@.anonymous,
    {
        self.anonymous
    }

    /// The password file for these hashes of the users' passwords, if there are
    /// users.
    pub fn password_file_of(&self, hashes: &Vec<String>) -> (file: Option<String>)
        requires
            hashes@.len() == self@.users.len(),
        ensures
            match file {
                Some(text) => self@.users.len() > 0 && text@ == password_lines(
                    self@.users,
                    crate::text::texts(hashes@),
                ),
                None => self@.users.len() == 0,
            },
    {
        if self.users.len() == 0 {
            return None;
        }
        let ghost users = self@.users;
        let ghost all = crate::text::texts(hashes@);
        let mut out = String::new();
        assert(out@ =~= Seq::<char>::empty());
        assert(users.take(0) =~= Seq::empty());
        assert(all.take(0) =~= Seq::empty());
        let mut i: usize = 0;
        while i < self.users.len()
            invariant
                i <= self.users@.len(),
                self.users@.len() == hashes@.len(),
                users == self@.users,
                users.len() == self.users@.len(),
                all == crate::text::texts(hashes@),
                out@ == password_lines(users.take(i as int), all.take(i as int)),
            decreases self.users@.len() - i,
        {
            out.append(self.users[i].0.as_str());
            out.append(":");
            out.append(hashes[i].as_str());
            out.append("\n");
            proof {
                assert(users.take(i + 1).drop_last() =~= users.take(i as int));
                assert(all.take(i + 1).drop_last() =~= all.take(i as int));
                assert(users.take(i + 1).last() == users[i as int]);
                assert(all.take(i + 1).last() == all[i as int]);
            }
            i = i + 1;
        }
        assert(users.take(i as int) =~= users);
        assert(all.take(i as int) =~= all);
        Some(out)
    }

    /// The password file, if there are users: a line for each, with a hash
    /// against which the user's password verifies. Fails only if a password
    /// cannot be hashed.
    pub fn password_file(&self) -> (file: Result<Option<String>, HarnessError>)
        ensures
            match file {
                Ok(Some(text)) => self@.users.len() > 0 && exists|hashes: Seq<Seq<char>>|
                    hashes_fit(self@.users, hashes) && text@ == #[trigger] password_lines(
                        self@.users,
                        hashes,
                    ),
                Ok(None) => self@.users.len() == 0,
                Err(HarnessError::Hash(text)) => self@.users.len() > 0 && exists|
                    error: mqtt5::MqttError,
                |
                    text@ == #[trigger] mqtt_error_display(error),
            },
    {
        let mut hashes: Vec<String> = Vec::new();
        let mut i: usize = 0;
        while i < self.users.len()
            invariant
                i <= self.users@.len(),
                hashes@.len() == i,
                self@.users.len() == self.users@.len(),
                forall|j: int|
                    0 <= j < i ==> password_accepted(
                        self@.users[j].1,
                        #[trigger] hashes@[j]@,
                    ),
            decreases self.users@.len() - i,
        {
            match hash_password(self.users[i].1.as_str()) {
                Ok(hash) => hashes.push(hash),
                Err(error) => return Err(HarnessError::Hash(mqtt_error_text(&error))),
            }
            i = i + 1;
        }
        let file = self.password_file_of(&hashes);
        proof {
            let all = crate::text::texts(hashes@);
            assert forall|j: int| 0 <= j < all.len() implies password_accepted(
                self@.users[j].1,
                #[trigger] all[j],
            ) by {
                assert(all[j] == hashes@[j]@);
            }
            assert(hashes_fit(self@.users, all));
            assert(file is Some ==> file->0@ == password_lines(self@.users, all));
        }
        Ok(file)
    }

    /// The ACL file, if there are access rules.
    pub fn acl_file(&self) -> (file: Option<String>)
        ensures
            match file {
                Some(text) => self@.acl.len() > 0 && text@ == acl_lines(self@.acl),
                None => self@.acl.len() == 0,
            },
    {
        if self.acl.len() == 0 {
            return None;
        }
        let ghost acl = self@.acl;
        let mut out = String::new();
        assert(out@ =~= Seq::<char>::empty());
        assert(acl.take(0) =~= Seq::empty());
        let mut i: usize = 0;
        while i < self.acl.len()
            invariant
                i <= self.acl@.len(),
                acl == self@.acl,
                acl.len() == self.acl@.len(),
                out@ == acl_lines(acl.take(i as int)),
            decreases self.acl@.len() - i,
        {
            let entry = &self.acl[i];
            out.append("user ");
            out.append(entry.user.as_str());
            out.append(" topic ");
            out.append(entry.topic.as_str());
            out.append(" permission ");
            out.append(entry.access.token());
            out.append("\n");
            proof {
                assert(acl.take(i + 1).drop_last() =~= acl.take(i as int));
                assert(acl.take(i + 1).last() == entry@);
            }
            i = i + 1;
        }
        assert(acl.take(i as int) =~= acl);
        Some(out)
    }
}

/// The loopback address of a port.
pub fn loopback_addr(port: u16) -> (addr: String)
    ensures
        addr@ == "127.0.0.1:"@ + crate::text::decimal(port as nat),
{
    let mut out = "127.0.0.1:".to_string();
    put_decimal(&mut out, port as u64);
    out
}

/// The MQTT URL of an address.
pub fn tcp_url(addr: &str) -> (url: String)
    ensures
        url@ == "mqtt://"@ + addr@,
{
    let mut out = "mqtt://".to_string();
    out.append(addr);
    out
}

/// The port after a port; after the highest one comes zero.
pub open spec fn port_after(port: u16) -> u16 {
    if port == u16::MAX {
        0
    } else {
        (port + 1) as u16
    }
}

/// Where the counter stands after some draws.
pub open spec fn port_after_draws(port: u16, draws: nat) -> u16
    decreases draws,
{
    if draws == 0 {
        port
    } else {
        port_after_draws(port_after(port), (draws - 1) as nat)
    }
}

/// The first usable port among the next `left` ones, with how many draws remain
/// after it.
pub open spec fn first_usable(next: u16, left: nat) -> Option<(u16, nat)>
    decreases left,
{
    if left == 0 {
        None
    } else if next >= LOWEST_PORT {
        Some((next, (left - 1) as nat))
    } else {
        first_usable(port_after(next), (left - 1) as nat)
    }
}

/// The search for a free port: it offers candidates, which the caller tries to
/// bind.
#[derive(Debug)]
pub struct PortSearch {
    next: u16,
    left: u16,
}

impl PortSearch {
    /// The port that is drawn next.
    pub closed spec fn at(&self) -> u16 {
        self.next
    }

    /// How many draws remain.
    pub closed spec fn remaining(&self) -> nat {
        self.left as nat
    }

    /// A search that starts at `next`.
    pub fn new(next: u16) -> (search: Self)
        ensures
            search.at() == next,
            search.remaining() == PORT_ATTEMPTS,
    {
        PortSearch { next, left: PORT_ATTEMPTS }
    }

    /// The next port to try. Reserved ports are passed over; they count as
    /// draws.
    pub fn candidate(&mut self) -> (port: Option<u16>)
        ensures
            match first_usable(old(self).at(), old(self).remaining()) {
                Some((usable, left)) => {
                    &&& port == Some(usable)
                    &&& final(self).at() == port_after(usable)
                    &&& final(self).remaining() == left
                },
                None => {
                    &&& port is None
                    &&& final(self).at() == port_after_draws(
                        old(self).at(),
                        old(self).remaining(),
                    )
                    &&& final(self).remaining() == 0
                },
            },
    {
        while self.left > 0
            invariant
                first_usable(self.at(), self.remaining()) == first_usable(
                    old(self).at(),
                    old(self).remaining(),
                ),
                port_after_draws(self.at(), self.remaining()) == port_after_draws(
                    old(self).at(),
                    old(self).remaining(),
                ),
            decreases self.left,
        {
            let drawn = self.next;
            self.next = if drawn == u16::MAX {
                0
            } else {
                drawn + 1
            };
            self.left = self.left - 1;
            if drawn >= LOWEST_PORT {
                return Some(drawn);
            }
        }
        None
    }

    /// Where the next search goes on.
    pub fn next(&self) -> (next: u16)
        ensures
            next == self.at(),
    {
        self.next
    }
}

/// Adding a user closes the broker to anonymous clients, unless anonymous access
/// was set explicitly, before or after.
pub proof fn users_close_the_broker(
    harness: HarnessModel,
    name: Seq<char>,
    password: Seq<char>,
    allow: bool,
)
    ensures
        !harness.anonymous_set ==> !harness.with_user(name, password).anonymous,
        harness.with_anonymous(allow).with_user(name, password).anonymous == allow,
        harness.with_user(name, password).with_anonymous(allow).anonymous == allow,
{
}

/// No reserved port is ever offered.
pub proof fn reserved_ports_are_passed_over(next: u16, left: nat)
    ensures
        first_usable(next, left) matches Some((port, _)) ==> port >= LOWEST_PORT,
    decreases left,
{
    if left > 0 && next < LOWEST_PORT {
        reserved_ports_are_passed_over(port_after(next), (left - 1) as nat);
    }
}

/// A broker starts open, with projects as scopes; a user closes it unless it was said
/// otherwise, before or after.
pub proof fn brokers_start_open(
    fresh: BrokerHarness,
    root: &str,
    field: &str,
    open: bool,
    name: &str,
    password: &str,
    closed_one: BrokerHarness,
    closed: bool,
    allow: bool,
    said: BrokerHarness,
    then_user: BrokerHarness,
    as_said: bool,
    after: BrokerHarness,
    as_said_after: bool,
)
    requires
        call_ensures(BrokerHarness::new, (), fresh),
        call_ensures(BrokerHarness::root_entity, (&fresh,), root),
        call_ensures(BrokerHarness::scope_field, (&fresh,), field),
        call_ensures(BrokerHarness::allows_anonymous, (&fresh,), open),
        call_ensures(BrokerHarness::user, (fresh, name, password), closed_one),
        call_ensures(BrokerHarness::allows_anonymous, (&closed_one,), closed),
        call_ensures(BrokerHarness::anonymous, (fresh, allow), said),
        call_ensures(BrokerHarness::user, (said, name, password), then_user),
        call_ensures(BrokerHarness::allows_anonymous, (&then_user,), as_said),
        call_ensures(BrokerHarness::anonymous, (closed_one, allow), after),
        call_ensures(BrokerHarness::allows_anonymous, (&after,), as_said_after),
    ensures
        root@ == "project"@,
        field@ == "projectId"@,
        open,
        !closed,
        as_said == allow,
        as_said_after == allow,
{
}

/// The words of access rights.
pub proof fn access_rights_are_worded(access: Access, token: &'static str)
    requires
        call_ensures(Access::token, (access,), token),
    ensures
        access is Read <==> token@ == "read"@,
        access is Write <==> token@ == "write"@,
        access is ReadWrite <==> token@ == "readwrite"@,
        access is Deny <==> token@ == "deny"@,
{
    reveal_strlit("read");
    reveal_strlit("write");
    reveal_strlit("readwrite");
    reveal_strlit("deny");
    assert("read"@[0] == 'r' && "write"@[0] == 'w' && "readwrite"@[0] == 'r' && "deny"@[0] == 'd');
    assert("read"@.len() == 4 && "readwrite"@.len() == 9);
}

/// Each right that is granted adds its line to the file of rights, after the others.
pub proof fn granted_rights_add_a_line(
    harness: BrokerHarness,
    before: Option<String>,
    username: &str,
    topic: &str,
    access: Access,
    token: &'static str,
    granting: BrokerHarness,
    after: Option<String>,
)
    requires
        call_ensures(BrokerHarness::acl_file, (&harness,), before),
        call_ensures(BrokerHarness::allow, (harness, username, topic, access), granting),
        call_ensures(BrokerHarness::acl_file, (&granting,), after),
        call_ensures(Access::token, (access,), token),
    ensures
        after is Some,
        after->Some_0@ == (match before {
            Some(text) => text@,
            None => Seq::empty(),
        }) + "user "@ + username@ + " topic "@ + topic@ + " permission "@ + token@ + "\n"@,
        before is None <==> harness@.acl.len() == 0,
{
    assert(granting@.acl.drop_last() == harness@.acl);
    reveal_with_fuel(acl_lines, 2);
}

/// Each user adds a line with its name and the hash of its password to the file of
/// passwords, after the others.
pub proof fn users_add_a_line(
    harness: BrokerHarness,
    hashes: &Vec<String>,
    before: Option<String>,
    username: &str,
    password: &str,
    knowing: BrokerHarness,
    more: &Vec<String>,
    after: Option<String>,
)
    requires
        hashes@.len() == harness@.users.len(),
        call_ensures(BrokerHarness::password_file_of, (&harness, hashes), before),
        call_ensures(BrokerHarness::user, (harness, username, password), knowing),
        more@.len() == hashes@.len() + 1,
        forall|i: int| 0 <= i < hashes@.len() ==> (#[trigger] more@[i])@ == hashes@[i]@,
        call_ensures(BrokerHarness::password_file_of, (&knowing, more), after),
    ensures
        after is Some,
        after->Some_0@ == (match before {
            Some(text) => text@,
            None => Seq::empty(),
        }) + username@ + ":"@ + more@.last()@ + "\n"@,
        knowing@.users.last() == (username@, password@),
{
    assert(knowing@.users.drop_last() == harness@.users);
    assert(crate::text::texts(more@).drop_last() == crate::text::texts(hashes@));
    assert(crate::text::texts(more@).last() == more@.last()@);
    reveal_with_fuel(password_lines, 2);
}

proof fn lemma_first_usable(next: u16, left: nat)
    ensures
        next >= 1024 && left > 0 ==> first_usable(next, left) == Some((next, (left - 1) as nat)),
        next < 1024 && left > 1024 - next ==> first_usable(next, left) == Some(
            (1024u16, (left - (1024 - next) - 1) as nat),
        ),
        next < 1024 && left <= 1024 - next ==> first_usable(next, left) is None,
        left == 0 ==> first_usable(next, left) is None,
    decreases left,
{
    if left > 0 && next < 1024 {
        lemma_first_usable(port_after(next), (left - 1) as nat);
    }
}

/// Ports are tried upwards from the given one, each of 256 draws once: a port from 1024
/// on is taken as it is drawn, those below are passed over, and the search starts again
/// at zero after the last port.
pub proof fn ports_are_tried_upwards(
    start: u16,
    fresh: PortSearch,
    searching: &mut PortSearch,
    port: Option<u16>,
    asked: &PortSearch,
    next: u16,
)
    requires
        call_ensures(PortSearch::new, (start,), fresh),
        call_ensures(PortSearch::candidate, (searching,), port),
        *asked == *final(searching),
        call_ensures(PortSearch::next, (asked,), next),
    ensures
        fresh.at() == start,
        fresh.remaining() == 256,
        ({
            let at = old(searching).at();
            let left = old(searching).remaining();
            &&& at >= 1024 && left > 0 ==> port == Some(at) && next == (if at == 65535 {
                0int
            } else {
                at + 1
            }) && final(searching).remaining() == left - 1
            &&& at < 1024 && left > 1024 - at ==> port == Some(1024u16) && next == 1025 && final(searching).remaining() == left - (1024 - at) - 1
            &&& left == 0 || at < 1024 && left <= 1024 - at ==> port is None && final(searching).remaining() == 0
        }),
{
    lemma_first_usable(old(searching).at(), old(searching).remaining());
}

/// The address and the link of a broker on this host.
pub proof fn brokers_are_reached_on_this_host(port: u16, addr: String, text: &str, url: String)
    requires
        call_ensures(loopback_addr, (port,), addr),
        text@ == addr@,
        call_ensures(tcp_url, (text,), url),
    ensures
        addr@ == "127.0.0.1:"@ + crate::text::decimal(port as nat),
        url@ == "mqtt://"@ + addr@,
{
}

/// Scopes are named as they were set; a failure says why.
pub proof fn scopes_are_named_as_set(
    harness: BrokerHarness,
    root_entity: &str,
    scope_field: &str,
    named: BrokerHarness,
    root: &str,
    field: &str,
    reason: String,
    text: String,
)
    requires
        call_ensures(BrokerHarness::scope, (harness, root_entity, scope_field), named),
        call_ensures(BrokerHarness::root_entity, (&named,), root),
        call_ensures(BrokerHarness::scope_field, (&named,), field),
        call_ensures(HarnessError::message, (&HarnessError::Hash(reason),), text),
    ensures
        root@ == root_entity@,
        field@ == scope_field@,
        named@.users == harness@.users,
        named@.acl == harness@.acl,
        named@.anonymous == harness@.anonymous,
        text@ == reason@,
{
}

/// A broker without users needs no file of passwords; that of one with a single user is
/// one line with a hash that its password passes.
pub proof fn password_files_hold_passing_hashes(
    harness: BrokerHarness,
    file: Option<String>,
)
    requires
        call_ensures(BrokerHarness::password_file, (&harness,), Ok(file)),
    ensures
        file is None <==> harness@.users.len() == 0,
        harness@.users.len() == 1 ==> exists|hash: Seq<char>| #[trigger]
            password_accepted(harness@.users[0].1, hash) && file->Some_0@ == harness@.users[0].0
                + ":"@ + hash + "\n"@,
{
    if harness@.users.len() == 1 {
        let users = harness@.users;
        let hashes = choose|hashes: Seq<Seq<char>>|
            hashes_fit(users, hashes) && file->Some_0@ == #[trigger] password_lines(users, hashes);
        reveal_with_fuel(password_lines, 2);
        assert(password_accepted(users[0].1, hashes[0]));
        assert(users.drop_last().len() == 0);
        assert(password_lines(users.drop_last(), hashes.drop_last()) == Seq::<char>::empty());
        assert(file->Some_0@ == users[0].0 + ":"@ + hashes[0] + "\n"@);
    }
}

} // verus!
