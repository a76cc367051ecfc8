//! Who may do what: roles by certificate name, commands by role, and a
//! receiver's resources by its name.

use crate::text::{has_prefix, same, starts_with};
use vstd::hash_set::StringHashSet;
use vstd::prelude::*;
use vstd::string::*;

verus! {

/// What a client is to the broker.
#[derive(Clone, Copy, Debug, PartialEq, Eq, Hash, Structural)]
pub enum Role {
    Sender,
    Receiver,
    Admin,
    Unknown,
}

impl Role {
    /// The role's name.
    pub open spec fn name(self) -> Seq<char> {
        match self {
            Role::Sender => "sender"@,
            Role::Receiver => "receiver"@,
            Role::Admin => "admin"@,
            Role::Unknown => "unknown"@,
        }
    }

    /// The role's name.
    pub fn as_str(&self) -> (r: &'static str)
        ensures
            r@ == self.name(),
            self is Sender ==> r@ == "sender"@,
            self is Receiver ==> r@ == "receiver"@,
            self is Admin ==> r@ == "admin"@,
            self is Unknown ==> r@ == "unknown"@,
    {
        match self {
            Role::Sender => "sender",
            Role::Receiver => "receiver",
            Role::Admin => "admin",
            Role::Unknown => "unknown",
        }
    }
}

/// The outcome of an authorization check.
#[derive(Debug)]
pub enum AuthResult {
    Allowed,
    Denied(&'static str),
}

impl View for AuthResult {
    type V = Option<Seq<char>>;

    /// Why access was denied, if it was.
    open spec fn view(&self) -> Option<Seq<char>> {
        match self {
            AuthResult::Allowed => None,
            AuthResult::Denied(reason) => Some(reason@),
        }
    }
}

/// Whether a role may use a command.
///
/// | Command             | Sender | Receiver | Admin |
/// |---------------------|--------|----------|-------|
/// | declare_queue       |        |   yes    |  yes  |
/// | declare_exchange    |        |   yes    |  yes  |
/// | bind                |        |   yes    |  yes  |
/// | publish             |  yes   |          |  yes  |
/// | publish_batch       |  yes   |          |  yes  |
/// | consume             |        |   yes    |  yes  |
/// | ack                 |  yes   |   yes    |  yes  |
/// | register_public_key |        |   yes    |  yes  |
/// | get_public_key      |  yes   |          |  yes  |
/// | resend              |  yes   |   yes    |  yes  |
/// | heartbeat           |        |   yes    |  yes  |
pub open spec fn permits(role: Role, command: Seq<char>) -> bool {
    match role {
        Role::Admin => true,
        Role::Unknown => false,
        Role::Sender => for_senders(command),
        Role::Receiver => for_receivers(command),
    }
}

/// The commands of senders.
pub open spec fn for_senders(command: Seq<char>) -> bool {
    ||| command == "publish"@
    ||| command == "publish_batch"@
    ||| command == "ack"@
    ||| command == "get_public_key"@
    ||| command == "resend"@
}

/// The commands of receivers.
pub open spec fn for_receivers(command: Seq<char>) -> bool {
    ||| command == "declare_queue"@
    ||| command == "declare_exchange"@
    ||| command == "bind"@
    ||| command == "consume"@
    ||| command == "ack"@
    ||| command == "register_public_key"@
    ||| command == "resend"@
    ||| command == "heartbeat"@
}

/// Whether a role may touch a resource. A receiver's queues begin with its name
/// and an underscore, its routing keys with its name; exchanges are shared.
pub open spec fn owns(role: Role, cn: Seq<char>, kind: Seq<char>, resource: Seq<char>) -> bool {
    match role {
        Role::Admin => true,
        Role::Unknown => false,
        Role::Sender => false,
        Role::Receiver => {
            ||| kind == "queue"@ && (has_prefix(resource, cn + "_"@) || resource == cn + "_queue"@)
            ||| kind == "exchange"@
            ||| kind == "routing_key"@ && has_prefix(resource, cn)
        },
    }
}

/// Why a command is denied, if it is.
pub open spec fn command_denial(role: Role, command: Seq<char>) -> Option<Seq<char>> {
    if role == Role::Unknown {
        Some("unknown role — access denied"@)
    } else if permits(role, command) {
        None
    } else {
        Some("command not permitted for this role"@)
    }
}

/// Why a resource is denied, if it is.
pub open spec fn resource_denial(
    role: Role,
    cn: Seq<char>,
    kind: Seq<char>,
    resource: Seq<char>,
) -> Option<Seq<char>> {
    if role == Role::Unknown {
        Some("unknown role — access denied"@)
    } else if owns(role, cn, kind, resource) {
        None
    } else {
        Some("resource access denied for this role"@)
    }
}

/// Knows the names that clients of each role go by.
pub struct AclManager {
    sender_cns: StringHashSet,
    receiver_cns: StringHashSet,
    admin_cns: StringHashSet,
}

fn name_set(names: &Vec<String>) -> (r: StringHashSet)
    ensures
        r@ == names.deep_view().to_set(),
{
    let mut out = StringHashSet::new();
    let ghost all = names.deep_view();
    let mut i: usize = 0;
    assert(out@ =~= all.take(0).to_set());
    while i < names.len()
        invariant
            i <= names@.len(),
            all == names.deep_view(),
            out@ == all.take(i as int).to_set(),
        decreases names@.len() - i,
    {
        out.insert(names[i].clone());
        proof {
            crate::seqs::lemma_to_set_push(all.take(i as int), all[i as int]);
            assert(all.take(i + 1) =~= all.take(i as int).push(all[i as int]));
        }
        i = i + 1;
    }
    assert(all.take(all.len() as int) =~= all);
    out
}

impl AclManager {
    /// The names of senders.
    pub closed spec fn senders(&self) -> Set<Seq<char>> {
        self.sender_cns@
    }

    /// The names of receivers.
    pub closed spec fn receivers(&self) -> Set<Seq<char>> {
        self.receiver_cns@
    }

    /// The names of administrators.
    pub closed spec fn admins(&self) -> Set<Seq<char>> {
        self.admin_cns@
    }

    /// The role of a name; one that has several is an administrator before it is
    /// a sender, and a sender before it is a receiver.
    pub open spec fn role_of(&self, cn: Seq<char>) -> Role {
        if self.admins().contains(cn) {
            Role::Admin
        } else if self.senders().contains(cn) {
            Role::Sender
        } else if self.receivers().contains(cn) {
            Role::Receiver
        } else {
            Role::Unknown
        }
    }

    /// Takes the names of each role.
    pub fn new(sender_cns: Vec<String>, receiver_cns: Vec<String>, admin_cns: Vec<String>) -> (r:
        Self)
        ensures
            r.senders() == sender_cns.deep_view().to_set(),
            r.receivers() == receiver_cns.deep_view().to_set(),
            r.admins() == admin_cns.deep_view().to_set(),
    {
        AclManager {
            sender_cns: name_set(&sender_cns),
            receiver_cns: name_set(&receiver_cns),
            admin_cns: name_set(&admin_cns),
        }
    }

    /// The role of the client with a certificate for this name.
    pub fn resolve_role(&self, cn: &str) -> (r: Role)
        ensures
            r == self.role_of(cn@),
    {
        if self.admin_cns.contains(cn) {
            Role::Admin
        } else if self.sender_cns.contains(cn) {
            Role::Sender
        } else if self.receiver_cns.contains(cn) {
            Role::Receiver
        } else {
            Role::Unknown
        }
    }

    /// Whether a role may use a command.
    pub fn check_command(&self, role: &Role, command: &str) -> (r: AuthResult)
        ensures
            r@ == command_denial(*role, command@),
    {
        if *role == Role::Admin {
            return AuthResult::Allowed;
        }
        if *role == Role::Unknown {
            return AuthResult::Denied("unknown role — access denied");
        }
        let both: bool = same(command, "ack") || same(command, "resend");
        let allowed: bool = both || if *role == Role::Sender {
            same(command, "publish") || same(command, "publish_batch") || same(
                command,
                "get_public_key",
            )
        } else {
            same(command, "declare_queue") || same(command, "declare_exchange") || same(
                command,
                "bind",
            ) || same(command, "consume") || same(command, "register_public_key") || same(
                command,
                "heartbeat",
            )
        };
        if allowed {
            AuthResult::Allowed
        } else {
            AuthResult::Denied("command not permitted for this role")
        }
    }

    /// Whether a client of some role may touch a resource of some kind.
    pub fn check_resource(
        &self,
        role: &Role,
        cn: &str,
        resource_type: &str,
        resource_name: &str,
    ) -> (r: AuthResult)
        ensures
            r@ == resource_denial(*role, cn@, resource_type@, resource_name@),
    {
        if *role == Role::Admin {
            return AuthResult::Allowed;
        }
        if *role == Role::Unknown {
            return AuthResult::Denied("unknown role — access denied");
        }
        let allowed: bool = if *role == Role::Receiver {
            if same(resource_type, "queue") {
                let mut prefix = cn.to_owned();
                prefix.append("_");
                let mut own = cn.to_owned();
                own.append("_queue");
                starts_with(resource_name, prefix.as_str()) || same(resource_name, own.as_str())
            } else if same(resource_type, "exchange") {
                true
            } else if same(resource_type, "routing_key") {
                starts_with(resource_name, cn)
            } else {
                false
            }
        } else {
            false
        };
        proof {
            reveal_strlit("queue");
            reveal_strlit("exchange");
            reveal_strlit("routing_key");
            assert("queue"@.len() != "exchange"@.len());
            assert("queue"@.len() != "routing_key"@.len());
            assert("exchange"@.len() != "routing_key"@.len());
        }
        if allowed {
            AuthResult::Allowed
        } else {
            AuthResult::Denied("resource access denied for this role")
        }
    }
}

/// An administrator may use every command and touch every resource.
pub proof fn law_admin_may_do_everything(
    command: Seq<char>,
    cn: Seq<char>,
    kind: Seq<char>,
    resource: Seq<char>,
)
    ensures
        command_denial(Role::Admin, command) is None,
        resource_denial(Role::Admin, cn, kind, resource) is None,
{
}

/// A client without a role may do nothing.
pub proof fn law_unknown_may_do_nothing(
    command: Seq<char>,
    cn: Seq<char>,
    kind: Seq<char>,
    resource: Seq<char>,
)
    ensures
        command_denial(Role::Unknown, command) is Some,
        resource_denial(Role::Unknown, cn, kind, resource) is Some,
{
}

/// No command but `ack` and `resend` is open to senders and receivers alike.
pub proof fn law_senders_and_receivers_are_separate(command: Seq<char>)
    ensures
        permits(Role::Sender, command) && permits(Role::Receiver, command) <==> command == "ack"@
            || command == "resend"@,
{
    reveal_strlit("publish");
    reveal_strlit("publish_batch");
    reveal_strlit("ack");
    reveal_strlit("get_public_key");
    reveal_strlit("resend");
    reveal_strlit("declare_queue");
    reveal_strlit("declare_exchange");
    reveal_strlit("bind");
    reveal_strlit("consume");
    reveal_strlit("register_public_key");
    reveal_strlit("heartbeat");
    assert("publish"@[0] != "bind"@[0]);
    assert("publish"@[0] != "consume"@[0]);
    assert("publish"@[0] == 'p');
    assert("publish_batch"@[0] == 'p');
    assert("get_public_key"@[0] == 'g');
    assert("declare_queue"@[0] == 'd');
    assert("declare_exchange"@[0] == 'd');
    assert("bind"@[0] == 'b');
    assert("consume"@[0] == 'c');
    assert("register_public_key"@[0] == 'r');
    assert("heartbeat"@[0] == 'h');
}

/// A receiver's queues all begin with its name: no receiver may touch a queue
/// whose name begins otherwise.
pub proof fn law_receiver_is_confined_to_its_queues(cn: Seq<char>, resource: Seq<char>)
    ensures
        owns(Role::Receiver, cn, "queue"@, resource) <==> has_prefix(resource, cn + "_"@),
{
    reveal_strlit("queue");
    reveal_strlit("exchange");
    reveal_strlit("routing_key");
    reveal_strlit("_");
    reveal_strlit("_queue");
    assert("queue"@.len() != "exchange"@.len());
    assert("queue"@.len() != "routing_key"@.len());
    if resource == cn + "_queue"@ {
        assert(resource.take((cn + "_"@).len() as int) =~= cn + "_"@);
    }
}

/// Which commands a role may use, told command by command. Nothing but these is
/// open to a sender or a receiver.
pub proof fn law_commands_of_each_role(command: Seq<char>)
    ensures
        command_denial(Role::Sender, command) is None <==> seq![
            "publish"@,
            "publish_batch"@,
            "ack"@,
            "get_public_key"@,
            "resend"@,
        ].contains(command),
        command_denial(Role::Receiver, command) is None <==> seq![
            "declare_queue"@,
            "declare_exchange"@,
            "bind"@,
            "consume"@,
            "ack"@,
            "register_public_key"@,
            "resend"@,
            "heartbeat"@,
        ].contains(command),
        command_denial(Role::Sender, command) matches Some(reason) ==> reason
            == "command not permitted for this role"@,
        command_denial(Role::Receiver, command) matches Some(reason) ==> reason
            == "command not permitted for this role"@,
        command_denial(Role::Unknown, command) == Some("unknown role — access denied"@),
{
    let s = seq!["publish"@, "publish_batch"@, "ack"@, "get_public_key"@, "resend"@];
    assert(s[0] == "publish"@ && s[1] == "publish_batch"@ && s[2] == "ack"@ && s[3]
        == "get_public_key"@ && s[4] == "resend"@);
    let r = seq![
        "declare_queue"@,
        "declare_exchange"@,
        "bind"@,
        "consume"@,
        "ack"@,
        "register_public_key"@,
        "resend"@,
        "heartbeat"@,
    ];
    assert(r[0] == "declare_queue"@ && r[1] == "declare_exchange"@ && r[2] == "bind"@ && r[3]
        == "consume"@ && r[4] == "ack"@ && r[5] == "register_public_key"@ && r[6] == "resend"@
        && r[7] == "heartbeat"@);
}

/// A receiver may touch the queues whose names begin with its own and an
/// underscore, the routing keys that begin with its name, and every exchange; a
/// sender may touch nothing.
pub proof fn law_resources_of_each_role(
    cn: Seq<char>,
    kind: Seq<char>,
    rest: Seq<char>,
    resource: Seq<char>,
)
    ensures
        resource_denial(Role::Receiver, cn, "queue"@, cn + "_"@ + rest) is None,
        resource_denial(Role::Receiver, cn, "queue"@, resource) is None ==> exists|x: Seq<char>|
            resource == #[trigger] (cn + "_"@ + x),
        resource_denial(Role::Receiver, cn, "routing_key"@, cn + rest) is None,
        resource_denial(Role::Receiver, cn, "routing_key"@, resource) is None ==> exists|x: Seq<
            char,
        >| resource == #[trigger] (cn + x),
        resource_denial(Role::Receiver, cn, "exchange"@, resource) is None,
        kind != "queue"@ && kind != "routing_key"@ && kind != "exchange"@ ==> resource_denial(
            Role::Receiver,
            cn,
            kind,
            resource,
        ) is Some,
        resource_denial(Role::Sender, cn, kind, resource) is Some,
{
    reveal_strlit("queue");
    reveal_strlit("exchange");
    reveal_strlit("routing_key");
    assert("queue"@.len() == 5);
    assert("exchange"@.len() == 8);
    assert("routing_key"@.len() == 11);
    let own = cn + "_"@ + rest;
    assert(own.take((cn + "_"@).len() as int) =~= cn + "_"@);
    assert((cn + rest).take(cn.len() as int) =~= cn);
    law_receiver_is_confined_to_its_queues(cn, resource);
    if has_prefix(resource, cn + "_"@) {
        let x = resource.skip((cn + "_"@).len() as int);
        assert(resource =~= resource.take((cn + "_"@).len() as int) + x);
        assert(resource == cn + "_"@ + x);
    }
    if has_prefix(resource, cn) {
        let x = resource.skip(cn.len() as int);
        assert(resource =~= resource.take(cn.len() as int) + x);
        assert(resource == cn + x);
    }
}

/// A name that several roles list is an administrator's before it is a sender's,
/// and a sender's before it is a receiver's; one that none lists has no role.
pub proof fn law_roles_are_resolved_in_order(acl: AclManager, cn: Seq<char>)
    ensures
        acl.role_of(cn) == Role::Admin <==> acl.admins().contains(cn),
        acl.role_of(cn) == Role::Sender <==> acl.senders().contains(cn) && !acl.admins().contains(
            cn,
        ),
        acl.role_of(cn) == Role::Receiver <==> acl.receivers().contains(cn)
            && !acl.senders().contains(cn) && !acl.admins().contains(cn),
        acl.role_of(cn) == Role::Unknown <==> !acl.receivers().contains(cn)
            && !acl.senders().contains(cn) && !acl.admins().contains(cn),
{
}

} // verus!
