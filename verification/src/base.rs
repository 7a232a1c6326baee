//! Named SQL bases and the synthesized per-user default base.
//!
//! A base couples a unique name with the connection information of one SQL
//! backend.  Every user owns a default base whose name is derived from the
//! user's name and whose backing store is a file under the user's home
//! directory; the registry synthesizes the entry at load time when the
//! configuration does not already carry one.

use vstd::prelude::*;
use vstd::string::StringExecFns;
use crate::auth::User;
use crate::utils::{path_join, path_join_spec, str_eq};

verus! {

/// A named, independently addressable SQL backend.
pub struct Base {
    pub name: String,
    pub info: String,
}

/// The name of the user's synthesized default base.
pub open spec fn default_base_name_spec(u: User) -> Seq<char> {
    u.name@ + "_default_dbs"@
}

/// The connection information of the user's synthesized default base: an
/// embedded file-backed engine pointed at a file under the user's home.
pub open spec fn default_base_info_spec(u: User) -> Seq<char> {
    "sqlite://"@ + path_join_spec(u.home@, "default_dbs.sdb"@)
}

/// Whether some base in `bases` carries the given name.
pub open spec fn has_base_named(bases: Seq<Base>, name: Seq<char>) -> bool {
    exists|i: int| 0 <= i < bases.len() && bases[i].name@ == name
}

impl Base {
    /// The default base name derived from the user's name.
    pub fn get_default_base_name(for_user: &User) -> (r: String)
        ensures
            r@ == default_base_name_spec(*for_user),
    {
        for_user.name.clone().concat("_default_dbs")
    }

    /// The default base name derived from the user's name.
    pub fn get_default_bas_name(for_user: &User) -> (r: String)
        ensures
            r@ == default_base_name_spec(*for_user),
    {
        Base::get_default_base_name(for_user)
    }

    /// The connection information of the user's default base.
    pub fn get_default_dbs_info(for_user: &User) -> (r: String)
        ensures
            r@ == default_base_info_spec(*for_user),
    {
        let path = path_join(for_user.home.as_str(), "default_dbs.sdb");
        "sqlite://".to_owned().concat(path.as_str())
    }
}

/// Finds the first base carrying the given name.
pub fn find_base(bases: &Vec<Base>, name: &str) -> (r: Option<usize>)
    ensures
        match r {
            Some(i) => i < bases@.len() && bases@[i as int].name@ == name@,
            None => !has_base_named(bases@, name@),
        },
{
    let mut i: usize = 0;
    while i < bases.len()
        invariant
            i <= bases@.len(),
            forall|j: int| 0 <= j < i ==> bases@[j].name@ != name@,
        decreases bases@.len() - i,
    {
        if str_eq(bases[i].name.as_str(), name) {
            return Some(i);
        }
        i = i + 1;
    }
    None
}

/// Makes sure every user's default base exists: for each user whose default
/// base name is absent, an entry with the synthesized name and connection
/// information is appended.  Existing entries are never touched, so a
/// configured base with a default name keeps its own connection information.
pub fn ensure_default_bases(bases: &mut Vec<Base>, users: &Vec<User>)
    ensures
        old(bases)@.len() <= final(bases)@.len(),
        final(bases)@.subrange(0, old(bases)@.len() as int) == old(bases)@,
        forall|i: int|
            0 <= i < users@.len() ==> has_base_named(
                final(bases)@,
                default_base_name_spec(#[trigger] users@[i]),
            ),
        forall|j: int|
            old(bases)@.len() <= j < final(bases)@.len() ==> {
                &&& !has_base_named(old(bases)@, (#[trigger] final(bases)@[j]).name@)
                &&& exists|i: int|
                    0 <= i < users@.len() && final(bases)@[j].name@ == default_base_name_spec(
                        #[trigger] users@[i],
                    ) && final(bases)@[j].info@ == default_base_info_spec(users@[i])
            },
        forall|j1: int, j2: int|
            old(bases)@.len() <= j1 < j2 < final(bases)@.len()
                ==> (#[trigger] final(bases)@[j1]).name@ != (#[trigger] final(bases)@[j2]).name@,
{
    let ghost orig = old(bases)@;
    let mut k: usize = 0;
    while k < users.len()
        invariant
            k <= users@.len(),
            orig.len() <= bases@.len(),
            bases@.subrange(0, orig.len() as int) == orig,
            forall|i: int|
                0 <= i < k ==> has_base_named(bases@, default_base_name_spec(#[trigger] users@[i])),
            forall|j: int|
                orig.len() <= j < bases@.len() ==> {
                    &&& !has_base_named(orig, (#[trigger] bases@[j]).name@)
                    &&& exists|i: int|
                        0 <= i < users@.len() && bases@[j].name@ == default_base_name_spec(
                            #[trigger] users@[i],
                        ) && bases@[j].info@ == default_base_info_spec(users@[i])
                },
            forall|j1: int, j2: int|
                orig.len() <= j1 < j2 < bases@.len() ==> (#[trigger] bases@[j1]).name@ != (
                #[trigger] bases@[j2]).name@,
        decreases users@.len() - k,
    {
        let default_name = Base::get_default_bas_name(&users[k]);
        match find_base(bases, default_name.as_str()) {
            Some(i) => {
                proof {
                    assert(bases@[i as int].name@ == default_base_name_spec(users@[k as int]));
                }
            },
            None => {
                let ghost before = bases@;
                let default_base = Base {
                    name: default_name,
                    info: Base::get_default_dbs_info(&users[k]),
                };
                bases.push(default_base);
                proof {
                    let last = bases@.len() - 1;
                    assert(bases@.subrange(0, orig.len() as int) =~= orig);
                    assert(bases@[last].name@ == default_base_name_spec(users@[k as int]));
                    assert(!has_base_named(before, bases@[last].name@));
                    assert forall|t: Seq<char>| has_base_named(before, t) implies has_base_named(
                        bases@,
                        t,
                    ) by {
                        let w = choose|w: int| 0 <= w < before.len() && before[w].name@ == t;
                        assert(bases@[w].name@ == t);
                    }
                    assert(!has_base_named(orig, bases@[last].name@)) by {
                        if has_base_named(orig, bases@[last].name@) {
                            let w = choose|w: int|
                                0 <= w < orig.len() && orig[w].name@ == bases@[last].name@;
                            assert(before[w].name@ == bases@[last].name@);
                        }
                    }
                }
            },
        }
        proof {
            assert(has_base_named(bases@, default_base_name_spec(users@[k as int])));
        }
        k = k + 1;
    }
}

} // verus!
