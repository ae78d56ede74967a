//! The roles a subject can hold.

use crate::text::bytes_eq;
use vstd::prelude::*;
use vstd::utf8::*;

verus! {

/// What a subject may do. The set is closed: a name that is none of these
/// stands for no role.
#[derive(Clone, Copy, Debug, PartialEq, Eq, Structural)]
pub enum Role {
    User,
    Admin,
}

impl Role {
    /// The name a role goes by in a claim set: `user` or `admin`, in ASCII.
    pub open spec fn name(self) -> Seq<u8> {
        match self {
            Role::User => seq![0x75, 0x73, 0x65, 0x72],
            Role::Admin => seq![0x61, 0x64, 0x6D, 0x69, 0x6E],
        }
    }

    /// The role that goes by `name`, if any does.
    pub open spec fn named(name: Seq<u8>) -> Option<Role> {
        if name == Role::User.name() {
            Some(Role::User)
        } else if name == Role::Admin.name() {
            Some(Role::Admin)
        } else {
            None
        }
    }

    /// Every role is found again under its own name.
    pub proof fn lemma_named_name(self)
        ensures
            Role::named(self.name()) == Some(self),
    {
        assert(Role::User.name().len() != Role::Admin.name().len());
    }

    /// The bytes of the role's name.
    pub fn name_bytes(self) -> (bytes: Vec<u8>)
        ensures
            bytes@ == self.name(),
    {
        let mut bytes: Vec<u8> = Vec::new();
        match self {
            Role::User => {
                bytes.push(0x75);
                bytes.push(0x73);
                bytes.push(0x65);
                bytes.push(0x72);
            },
            Role::Admin => {
                bytes.push(0x61);
                bytes.push(0x64);
                bytes.push(0x6D);
                bytes.push(0x69);
                bytes.push(0x6E);
            },
        }
        assert(bytes@ =~= self.name());
        bytes
    }

    /// Looks a role up by the bytes of its name.
    pub fn from_name(name: &[u8]) -> (role: Option<Role>)
        ensures
            role == Role::named(name@),
    {
        let user = Role::User.name_bytes();
        let admin = Role::Admin.name_bytes();
        if bytes_eq(name, user.as_slice()) {
            Some(Role::User)
        } else if bytes_eq(name, admin.as_slice()) {
            Some(Role::Admin)
        } else {
            None
        }
    }

    /// The role's name as text.
    pub fn as_str(self) -> (name: &'static str)
        ensures
            encode_utf8(name@) == self.name(),
    {
        let name = match self {
            Role::User => "user",
            Role::Admin => "admin",
        };
        proof {
            reveal_strlit("user");
            reveal_strlit("admin");
            assert(is_ascii_chars(name@));
            is_ascii_chars_encode_utf8(name@);
            assert(encode_utf8(name@) =~= self.name());
        }
        name
    }

    /// Looks a role up by its name as text.
    pub fn parse(name: &str) -> (role: Option<Role>)
        ensures
            role == Role::named(encode_utf8(name@)),
    {
        Role::from_name(name.as_bytes())
    }
}

} // verus!
