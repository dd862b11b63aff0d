//! Role sets: ordered collections of distinct role-name strings that record
//! what a principal is currently allowed to do.

use vstd::prelude::*;

verus! {

/// Marks a type as a role representation.
///
/// A role is identified by its name, usually starting with `"ROLE_"`.
pub trait Role {
    /// The role name at the specification level.
    spec fn spec_role_name() -> Seq<char>;

    /// String representation of this role.
    fn role_name() -> (r: String)
        ensures
            r@ == Self::spec_role_name(),
    ;
}

/// The standard role granted to ordinary users.
#[derive(Clone, Copy, Debug)]
pub struct RoleUser;

impl Role for RoleUser {
    open spec fn spec_role_name() -> Seq<char> {
        "ROLE_USER"@
    }

    fn role_name() -> (r: String) {
        proof {
            reveal_strlit("ROLE_USER");
        }
        "ROLE_USER".to_owned()
    }
}

/// The standard role granted to administrators.
#[derive(Clone, Copy, Debug)]
pub struct RoleAdmin;

impl Role for RoleAdmin {
    open spec fn spec_role_name() -> Seq<char> {
        "ROLE_ADMIN"@
    }

    fn role_name() -> (r: String) {
        proof {
            reveal_strlit("ROLE_ADMIN");
        }
        "ROLE_ADMIN".to_owned()
    }
}

/// True when a role-name sequence holds no duplicate entries.
pub open spec fn distinct_roles(rs: Seq<Seq<char>>) -> bool {
    forall|i: int, j: int| 0 <= i < j < rs.len() ==> rs[i] != rs[j]
}

/// Adding a role keeps the sequence unchanged when the role is already
/// present and appends it otherwise.
pub open spec fn add_role_spec(rs: Seq<Seq<char>>, name: Seq<char>) -> Seq<Seq<char>> {
    if rs.contains(name) {
        rs
    } else {
        rs.push(name)
    }
}

/// Removing a role drops its first occurrence and is a no-op when the role
/// is absent.
pub open spec fn remove_role_spec(rs: Seq<Seq<char>>, name: Seq<char>) -> Seq<Seq<char>> {
    match rs.index_of_first(name) {
        Some(i) => rs.remove(i),
        None => rs,
    }
}

/// True when the first `i` entries of `v` all differ from `name`.
spec fn none_matches_below(v: Seq<Seq<char>>, name: Seq<char>, i: int) -> bool {
    forall|k: int| 0 <= k < i ==> v[k] != name
}

/// Returns whether `names` holds an entry equal to `name`.
fn vec_contains_name(names: &Vec<String>, name: &String) -> (r: bool)
    ensures
        r == names.deep_view().contains(name@),
{
    let mut i: usize = 0;
    while i < names.len()
        invariant
            i <= names.len(),
            none_matches_below(names.deep_view(), name@, i as int),
        decreases names.len() - i,
    {
        if names[i] == *name {
            assert(names.deep_view()[i as int] == name@);
            return true;
        }
        i += 1;
    }
    assert(forall|k: int| 0 <= k < names.deep_view().len() ==> names.deep_view()[k] != name@);
    false
}


/// Returns the first index whose entry equals `name`, if any.
fn vec_index_of_name(names: &Vec<String>, name: &String) -> (r: Option<usize>)
    ensures
        match r {
            Some(i) => {
                &&& i < names.deep_view().len()
                &&& names.deep_view()[i as int] == name@
                &&& none_matches_below(names.deep_view(), name@, i as int)
                &&& names.deep_view().index_of_first(name@) == Some(i as int)
            },
            None => !names.deep_view().contains(name@),
        },
{
    let ghost dv = names.deep_view();
    let mut i: usize = 0;
    while i < names.len()
        invariant
            i <= names.len(),
            dv == names.deep_view(),
            none_matches_below(dv, name@, i as int),
        decreases names.len() - i,
    {
        if names[i] == *name {
            assert(dv[i as int] == name@);
            proof {
                dv.index_of_first_ensures(name@);
                if dv.index_of_first(name@) != Some(i as int) {
                    match dv.index_of_first(name@) {
                        Some(j) => {
                            assert(dv[j] == name@);
                        },
                        None => {
                            assert(dv[i as int] == name@);
                            assert(dv.contains(name@));
                        },
                    }
                }
            }
            return Some(i);
        }
        i += 1;
    }
    assert(forall|k: int| 0 <= k < dv.len() ==> dv[k] != name@);
    None
}

/// Provides a convenient read-only api for checking granted roles.
pub struct Roles(pub Vec<String>);

impl View for Roles {
    type V = Seq<Seq<char>>;

    open spec fn view(&self) -> Seq<Seq<char>> {
        self.0.deep_view()
    }
}

impl Roles {
    /// Checks whether the given role name is granted.
    pub fn contains(&self, name: &String) -> (r: bool)
        ensures
            r == self@.contains(name@),
    {
        vec_contains_name(&self.0, name)
    }

    /// Checks for the provided role.
    pub fn is_granted<T: Role>(&self) -> (r: bool)
        ensures
            r == self@.contains(T::spec_role_name()),
    {
        let name = T::role_name();
        self.contains(&name)
    }
}

/// Provides a convenient api for modifying granted roles.
pub struct RolesMut(pub Vec<String>);

impl View for RolesMut {
    type V = Seq<Seq<char>>;

    open spec fn view(&self) -> Seq<Seq<char>> {
        self.0.deep_view()
    }
}

impl RolesMut {
    /// Checks whether the given role name is granted.
    pub fn contains(&self, name: &String) -> (r: bool)
        ensures
            r == self@.contains(name@),
    {
        vec_contains_name(&self.0, name)
    }

    /// Checks for the provided role.
    pub fn is_granted<T: Role>(&self) -> (r: bool)
        ensures
            r == self@.contains(T::spec_role_name()),
    {
        let name = T::role_name();
        self.contains(&name)
    }

    /// Adds a role.
    ///
    /// This will not add duplicates and will ignore such instructions.
    pub fn add_role<T: Role>(&mut self)
        ensures
            final(self)@ == add_role_spec(old(self)@, T::spec_role_name()),
            distinct_roles(old(self)@) ==> distinct_roles(final(self)@),
    {
        let name = T::role_name();
        if !self.contains(&name) {
            self.0.push(name);
            assert(self@ =~= old(self)@.push(T::spec_role_name()));
        }
    }

    /// Removes a role.
    ///
    /// If this role is not granted, nothing will happen.
    pub fn remove_role<T: Role>(&mut self)
        ensures
            final(self)@ == remove_role_spec(old(self)@, T::spec_role_name()),
            distinct_roles(old(self)@) ==> distinct_roles(final(self)@),
            distinct_roles(old(self)@) ==> !final(self)@.contains(T::spec_role_name()),
    {
        let name = T::role_name();
        let ghost gname = name@;
        proof {
            old(self)@.index_of_first_ensures(gname);
        }
        match vec_index_of_name(&self.0, &name) {
            Some(i) => {
                self.0.remove(i);
                assert(self@ =~= old(self)@.remove(i as int));
                proof {
                    if distinct_roles(old(self)@) {
                        lemma_remove_keeps_distinct(old(self)@, i as int);
                        assert forall|k: int|
                            0 <= k < self@.len() implies self@[k] != gname by {
                            if k < i as int {
                                assert(self@[k] == old(self)@[k]);
                            } else {
                                assert(self@[k] == old(self)@[k + 1]);
                            }
                        }
                        assert(!self@.contains(gname));
                    }
                }
            },
            None => {
                assert(self@ == old(self)@);
            },
        }
    }
}

/// Removing one entry from a duplicate-free sequence keeps it duplicate-free.
proof fn lemma_remove_keeps_distinct(rs: Seq<Seq<char>>, i: int)
    requires
        0 <= i < rs.len(),
        distinct_roles(rs),
    ensures
        distinct_roles(rs.remove(i)),
{
    let out = rs.remove(i);
    assert forall|a: int, b: int| 0 <= a < b < out.len() implies out[a] != out[b] by {
        let a0 = if a < i { a } else { a + 1 };
        let b0 = if b < i { b } else { b + 1 };
        assert(out[a] == rs[a0]);
        assert(out[b] == rs[b0]);
    }
}

/// Adding a role twice in succession yields the same set as adding it once.
pub proof fn lemma_add_role_idempotent(rs: Seq<Seq<char>>, name: Seq<char>)
    ensures
        add_role_spec(add_role_spec(rs, name), name) == add_role_spec(rs, name),
{
    if !rs.contains(name) {
        assert(rs.push(name)[rs.len() as int] == name);
        assert(rs.push(name).contains(name));
    }
}

/// Removing an absent role is a no-op: no error and no change.
pub proof fn lemma_remove_role_absent_noop(rs: Seq<Seq<char>>, name: Seq<char>)
    requires
        !rs.contains(name),
    ensures
        remove_role_spec(rs, name) == rs,
{
    rs.index_of_first_ensures(name);
    if rs.index_of_first(name) is Some {
        let i = rs.index_of_first(name)->0;
        assert(rs[i] == name);
        assert(rs.contains(name));
    }
}

/// Set equality of role-name collections: drift detection compares the two
/// collections as sets, so reordering alone never invalidates a token.
pub open spec fn same_role_set(a: Seq<Seq<char>>, b: Seq<Seq<char>>) -> bool {
    a.to_set() == b.to_set()
}

/// Returns whether every entry of `a` occurs in `b`.
fn all_contained(a: &Vec<String>, b: &Vec<String>) -> (r: bool)
    ensures
        r == (forall|k: int|
            0 <= k < a.deep_view().len() ==> b.deep_view().contains(#[trigger] a.deep_view()[k])),
{
    let mut i: usize = 0;
    while i < a.len()
        invariant
            i <= a.len(),
            forall|k: int|
                0 <= k < i ==> b.deep_view().contains(#[trigger] a.deep_view()[k]),
        decreases a.len() - i,
    {
        if !vec_contains_name(b, &a[i]) {
            assert(a.deep_view()[i as int] == a@[i as int]@);
            return false;
        }
        assert(a.deep_view()[i as int] == a@[i as int]@);
        i += 1;
    }
    true
}

/// Compares two role-name collections as sets.
pub fn roles_set_equal(a: &Vec<String>, b: &Vec<String>) -> (r: bool)
    ensures
        r == same_role_set(a.deep_view(), b.deep_view()),
{
    let fwd = all_contained(a, b);
    let bwd = all_contained(b, a);
    let ghost av = a.deep_view();
    let ghost bv = b.deep_view();
    proof {
        if fwd && bwd {
            assert(av.to_set() =~= bv.to_set()) by {
                assert forall|x: Seq<char>| av.to_set().contains(x) implies bv.to_set().contains(
                    x,
                ) by {
                    let k = choose|k: int| 0 <= k < av.len() && av[k] == x;
                    assert(bv.contains(av[k]));
                }
                assert forall|x: Seq<char>| bv.to_set().contains(x) implies av.to_set().contains(
                    x,
                ) by {
                    let k = choose|k: int| 0 <= k < bv.len() && bv[k] == x;
                    assert(av.contains(bv[k]));
                }
            }
        } else if !fwd {
            let k = choose|k: int| 0 <= k < av.len() && !bv.contains(#[trigger] av[k]);
            assert(av.to_set().contains(av[k]));
            assert(!bv.to_set().contains(av[k]));
        } else {
            let k = choose|k: int| 0 <= k < bv.len() && !av.contains(#[trigger] bv[k]);
            assert(bv.to_set().contains(bv[k]));
            assert(!av.to_set().contains(bv[k]));
        }
    }
    fwd && bwd
}

} // verus!

