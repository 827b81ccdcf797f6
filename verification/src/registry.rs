//! The variables of one grouping, in the order in which they were
//! declared.

use vstd::prelude::*;
use vstd::string::*;
use crate::env_errors::InvalidIdentifier;
use crate::key_laws::{canonical, is_identifier, lemma_distinct_members_distinct_keys};
use crate::tokenizer::{get_env_strings, stripped};
use crate::variable::EnvVar;

verus! {

/// `at` is the first place in `keys` that holds `key`.
pub open spec fn is_first_match(keys: Seq<Seq<char>>, key: Seq<char>, at: int) -> bool {
    &&& 0 <= at < keys.len()
    &&& keys[at] == key
    &&& forall|j: int| 0 <= j < at ==> keys[j] != key
}

/// No place in `keys` holds `key`.
pub open spec fn is_missing(keys: Seq<Seq<char>>, key: Seq<char>) -> bool {
    forall|j: int| 0 <= j < keys.len() ==> keys[j] != key
}

/// No key stands at two places.
pub open spec fn are_distinct(keys: Seq<Seq<char>>) -> bool {
    forall|i: int, j: int| 0 <= i < j < keys.len() ==> keys[i] != keys[j]
}

/// The place of the first key in `keys` that is `key`.
pub fn find_key(keys: &Vec<String>, key: &str) -> (place: Option<usize>)
    ensures
        match place {
            Some(at) => is_first_match(keys.deep_view(), key@, at as int),
            None => is_missing(keys.deep_view(), key@),
        },
{
    let asked = key.to_owned();
    let mut i: usize = 0;
    while i < keys.len()
        invariant
            i <= keys.len(),
            asked@ == key@,
            forall|j: int| 0 <= j < i ==> keys.deep_view()[j] != key@,
        decreases keys.len() - i,
    {
        if keys[i] == asked {
            return Some(i);
        }
        i = i + 1;
    }
    None
}

/// A grouping and its variables.
#[derive(Debug, PartialEq, Eq)]
pub struct EnvGroup {
    name: String,
    members: Vec<EnvVar>,
}

impl EnvGroup {
    /// The identifier of the grouping.
    pub closed spec fn name(&self) -> Seq<char> {
        self.name@
    }

    /// The variables, in the order of their declaration.
    pub closed spec fn vars(&self) -> Seq<EnvVar> {
        self.members@
    }

    /// The identifiers of the members, in the order of their declaration.
    pub open spec fn member_names(&self) -> Seq<Seq<char>> {
        Seq::new(self.vars().len(), |i: int| self.vars()[i].member())
    }

    /// The keys, in the order of their declaration.
    pub open spec fn keys(&self) -> Seq<Seq<char>> {
        Seq::new(self.vars().len(), |i: int| self.vars()[i].key())
    }

    /// The grouping holds a word, and every variable is one of this
    /// grouping and has the key that its identifiers give.
    pub open spec fn wf(&self) -> bool {
        &&& stripped(self.name()).len() > 0
        &&& forall|i: int|
            0 <= i < self.vars().len() ==> {
                &&& (#[trigger] self.vars()[i]).wf()
                &&& self.vars()[i].grouping() == self.name()
            }
    }

    #[verifier::type_invariant]
    spec fn members_belong(&self) -> bool {
        self.wf()
    }

    /// Declares the grouping `name` with the members `member_names`, in that
    /// order. The declaration is refused where the grouping or one of the
    /// members holds no word.
    pub fn declare(name: &str, member_names: &Vec<String>) -> (group: Result<
        EnvGroup,
        InvalidIdentifier,
    >)
        ensures
            match group {
                Ok(g) => g.wf() && g.name() == name@ && g.member_names()
                    == member_names.deep_view(),
                Err(_) => stripped(name@).len() == 0 || exists|i: int|
                    0 <= i < member_names.len() && stripped(#[trigger] member_names@[i]@).len()
                        == 0,
            },
    {
        if get_env_strings(name).is_err() {
            return Err(InvalidIdentifier);
        }
        let mut members: Vec<EnvVar> = Vec::new();
        let mut i: usize = 0;
        while i < member_names.len()
            invariant
                i <= member_names.len(),
                members.len() == i,
                stripped(name@).len() > 0,
                forall|k: int|
                    0 <= k < i ==> (#[trigger] members@[k]).wf() && members@[k].grouping() == name@
                        && members@[k].member() == member_names@[k]@,
            decreases member_names.len() - i,
        {
            match EnvVar::new(name, member_names[i].as_str()) {
                Ok(var) => {
                    members.push(var);
                },
                Err(e) => {
                    return Err(e);
                },
            }
            i = i + 1;
        }
        Ok(EnvGroup { name: name.to_owned(), members })
    }

    /// The identifier of the grouping.
    pub fn get_name(&self) -> (name: &str)
        ensures
            name@ == self.name(),
    {
        self.name.as_str()
    }

    /// The variables, in the order of their declaration.
    pub fn members(&self) -> (vars: &Vec<EnvVar>)
        ensures
            vars@ == self.vars(),
            self.wf(),
    {
        proof {
            use_type_invariant(self);
        }
        &self.members
    }

    /// How many variables there are.
    pub fn len(&self) -> (n: usize)
        ensures
            n == self.vars().len(),
    {
        self.members.len()
    }

    /// The place of the first variable whose key is `key`.
    pub fn position_of_key(&self, key: &str) -> (place: Option<usize>)
        ensures
            match place {
                Some(at) => is_first_match(self.keys(), key@, at as int),
                None => is_missing(self.keys(), key@),
            },
    {
        let mut i: usize = 0;
        while i < self.members.len()
            invariant
                i <= self.members.len(),
                forall|j: int| 0 <= j < i ==> self.keys()[j] != key@,
            decreases self.members.len() - i,
        {
            if self.members[i].has_key(key) {
                return Some(i);
            }
            i = i + 1;
        }
        None
    }

    /// Get the variable having the key provided or None: the first one in
    /// the order of declaration.
    pub fn get_enum_value_from_key(&self, key: &str) -> (var: Option<&EnvVar>)
        ensures
            match var {
                Some(v) => exists|at: int|
                    is_first_match(self.keys(), key@, at) && *v == #[trigger] self.vars()[at],
                None => is_missing(self.keys(), key@),
            },
    {
        match self.position_of_key(key) {
            Some(at) => Some(&self.members[at]),
            None => None,
        }
    }

    /// Verify the key exist within the grouping.
    pub fn does_key_exist(&self, key: &str) -> (found: bool)
        ensures
            found == !is_missing(self.keys(), key@),
    {
        self.get_enum_value_from_key(key).is_some()
    }

    /// Whether the keys of the variables are all different.
    pub fn has_distinct_keys(&self) -> (distinct: bool)
        ensures
            distinct == are_distinct(self.keys()),
    {
        let mut j: usize = 0;
        while j < self.members.len()
            invariant
                j <= self.members.len(),
                forall|a: int, b: int| 0 <= a < b < j ==> self.keys()[a] != self.keys()[b],
            decreases self.members.len() - j,
        {
            let key = self.members[j].get_key();
            let mut i: usize = 0;
            while i < j
                invariant
                    i <= j < self.members.len(),
                    key@ == self.keys()[j as int],
                    forall|a: int| 0 <= a < i ==> self.keys()[a] != self.keys()[j as int],
                decreases j - i,
            {
                if self.members[i].has_key(key.as_str()) {
                    assert(self.keys()[i as int] == self.keys()[j as int]);
                    return false;
                }
                i = i + 1;
            }
            j = j + 1;
        }
        true
    }

    /// Looking the key of a variable up gives that variable back, where no
    /// two variables share a key.
    pub proof fn lemma_find_gives_member_back(self, at: int)
        requires
            are_distinct(self.keys()),
            0 <= at < self.vars().len(),
        ensures
            is_first_match(self.keys(), self.vars()[at].key(), at),
            forall|other: int|
                is_first_match(self.keys(), self.vars()[at].key(), other) ==> other == at,
    {
        let key = self.vars()[at].key();
        assert forall|other: int| is_first_match(self.keys(), key, other) implies other == at by {
            if other < at {
                assert(self.keys()[other] != self.keys()[at]);
            } else if at < other {
                assert(self.keys()[at] != self.keys()[other]);
            }
        }
    }

    /// Members that differ once their underscores are gone and their first
    /// character is in uppercase have keys that are all different.
    pub proof fn lemma_distinct_members_have_distinct_keys(self)
        requires
            self.wf(),
            forall|i: int|
                0 <= i < self.vars().len() ==> is_identifier(#[trigger] self.member_names()[i]),
            forall|i: int, j: int|
                0 <= i < j < self.vars().len() ==> canonical(#[trigger] self.member_names()[i])
                    != canonical(#[trigger] self.member_names()[j]),
        ensures
            are_distinct(self.keys()),
    {
        assert forall|i: int, j: int| 0 <= i < j < self.keys().len() implies self.keys()[i]
            != self.keys()[j] by {
            let a = self.vars()[i];
            let b = self.vars()[j];
            assert(self.member_names()[i] == a.member());
            assert(self.member_names()[j] == b.member());
            lemma_distinct_members_distinct_keys(self.name(), a.member(), b.member());
        }
    }
}

} // verus!
