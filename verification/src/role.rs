//! How the library addresses the virtual devices it creates.

use vstd::prelude::*;
use crate::config::Side;
use crate::text::str_eq;

verus! {

/// Every virtual device: the two mixer sides and the virtual surround.
#[derive(Copy, Clone, Debug, PartialEq, Eq, Hash, Structural)]
pub enum Role {
    Aux,
    Main,
    Surround,
}

/// The role value a device carries in its loopback conf.
pub open spec fn role_wire(role: Role) -> Seq<char> {
    match role {
        Role::Aux => "aux"@,
        Role::Main => "main"@,
        Role::Surround => "surround"@,
    }
}

/// The role that `s` names, if any.
pub open spec fn role_from_wire(s: Seq<char>) -> Option<Role> {
    if s == "aux"@ {
        Some(Role::Aux)
    } else if s == "main"@ {
        Some(Role::Main)
    } else if s == "surround"@ {
        Some(Role::Surround)
    } else {
        None
    }
}

impl Role {
    /// Every virtual device.
    pub fn all() -> (r: [Role; 3])
        ensures
            r@ == seq![Role::Aux, Role::Main, Role::Surround],
    {
        [Role::Aux, Role::Main, Role::Surround]
    }

    /// Parse the role value from a loopback conf.
    pub fn from_wire(s: &str) -> (r: Option<Role>)
        ensures
            r == role_from_wire(s@),
    {
        if str_eq(s, "aux") {
            Some(Role::Aux)
        } else if str_eq(s, "main") {
            Some(Role::Main)
        } else if str_eq(s, "surround") {
            Some(Role::Surround)
        } else {
            None
        }
    }

    /// The role value for a loopback conf.
    pub fn as_wire(&self) -> (r: &'static str)
        ensures
            r@ == role_wire(*self),
    {
        match self {
            Role::Aux => "aux",
            Role::Main => "main",
            Role::Surround => "surround",
        }
    }
}

/// Reading back the role value written for a device gives the device again.
pub proof fn role_wire_round_trip(role: Role)
    ensures
        role_from_wire(role_wire(role)) == Some(role),
{
    reveal_strlit("aux");
    reveal_strlit("main");
    reveal_strlit("surround");
    assert("aux"@ != "main"@) by {
        assert("aux"@[0] != "main"@[0]);
    }
    assert("aux"@ != "surround"@) by {
        assert("aux"@[0] != "surround"@[0]);
    }
    assert("main"@ != "surround"@) by {
        assert("main"@[0] != "surround"@[0]);
    }
}

/// A role value that parses is exactly the value written for its role.
pub proof fn role_wire_parse_exact(s: Seq<char>)
    ensures
        role_from_wire(s) matches Some(r) ==> role_wire(r) == s,
{
}

/// The device that serves a mixer side.
pub open spec fn role_of_side(side: Side) -> Role {
    match side {
        Side::Aux => Role::Aux,
        Side::Main => Role::Main,
    }
}

impl From<Side> for Role {
    fn from(side: Side) -> (r: Role) {
        match side {
            Side::Aux => Role::Aux,
            Side::Main => Role::Main,
        }
    }
}

impl vstd::std_specs::convert::FromSpecImpl<Side> for Role {
    open spec fn obeys_from_spec() -> bool {
        true
    }

    open spec fn from_spec(side: Side) -> Role {
        role_of_side(side)
    }
}

/// One optional value per role: the table the PipeWire thread keys by the
/// device a node plays.
#[derive(Copy, Clone, Debug)]
pub struct RoleSlots<T> {
    aux: Option<T>,
    main: Option<T>,
    surround: Option<T>,
}

impl<T> RoleSlots<T> {
    /// The value held for `role`.
    pub closed spec fn at(&self, role: Role) -> Option<T> {
        match role {
            Role::Aux => self.aux,
            Role::Main => self.main,
            Role::Surround => self.surround,
        }
    }
}

impl<T> View for RoleSlots<T> {
    type V = Map<Role, T>;

    closed spec fn view(&self) -> Map<Role, T> {
        Map::new(|r: Role| self.at(r) is Some, |r: Role| self.at(r).unwrap())
    }
}

impl<T: Copy> RoleSlots<T> {
    /// No role holds a value.
    pub fn empty() -> (r: RoleSlots<T>)
        ensures
            r@ == Map::<Role, T>::empty(),
    {
        let r = RoleSlots { aux: None, main: None, surround: None };
        assert(r@ =~= Map::<Role, T>::empty());
        r
    }

    /// The value held for `role`.
    pub fn get(&self, role: Role) -> (r: Option<T>)
        ensures
            r == (if self@.contains_key(role) {
                Some(self@[role])
            } else {
                None
            }),
    {
        match role {
            Role::Aux => self.aux,
            Role::Main => self.main,
            Role::Surround => self.surround,
        }
    }

    /// Sets the value for `role`.
    pub fn set(&mut self, role: Role, v: T)
        ensures
            final(self)@ == old(self)@.insert(role, v),
    {
        match role {
            Role::Aux => self.aux = Some(v),
            Role::Main => self.main = Some(v),
            Role::Surround => self.surround = Some(v),
        }
        assert(self@ =~= old(self)@.insert(role, v));
    }

    /// Clears the value for `role`; true when there was one.
    pub fn clear(&mut self, role: Role) -> (r: bool)
        ensures
            r == old(self)@.contains_key(role),
            final(self)@ == old(self)@.remove(role),
    {
        let r = match role {
            Role::Aux => self.aux.is_some(),
            Role::Main => self.main.is_some(),
            Role::Surround => self.surround.is_some(),
        };
        match role {
            Role::Aux => self.aux = None,
            Role::Main => self.main = None,
            Role::Surround => self.surround = None,
        }
        assert(self@ =~= old(self)@.remove(role));
        r
    }

    /// The roles that hold a value, in the order Aux, Main, Surround.
    pub fn roles(&self) -> (r: Vec<Role>)
        ensures
            forall|role: Role| r@.contains(role) <==> self@.contains_key(role),
            r@.no_duplicates(),
    {
        let mut r: Vec<Role> = Vec::new();
        if self.aux.is_some() {
            r.push(Role::Aux);
        }
        if self.main.is_some() {
            r.push(Role::Main);
        }
        if self.surround.is_some() {
            r.push(Role::Surround);
        }
        proof {
            assert forall|role: Role| r@.contains(role) <==> self@.contains_key(role) by {
                if self@.contains_key(role) {
                    assert(r@.contains(role) <== exists|k: int| 0 <= k < r@.len() && r@[k] == role);
                    match role {
                        Role::Aux => assert(r@[0] == role),
                        Role::Main => {
                            if self.aux.is_some() {
                                assert(r@[1] == role);
                            } else {
                                assert(r@[0] == role);
                            }
                        },
                        Role::Surround => assert(r@[r@.len() - 1] == role),
                    }
                }
            }
        }
        r
    }
}

} // verus!
