//! Dependency references and the records they resolve to.
//!
//! A reference is a package name with a version requirement. Its canonical
//! text is `name@requirement`, and that text alone decides whether two
//! references are the same.

use vstd::prelude::*;
use std::cmp::Ordering;
use std::hash::{Hash, Hasher};
use vstd::std_specs::cmp::{PartialEqSpecImpl, PartialOrdSpecImpl};
use vstd::std_specs::convert::FromSpecImpl;
use crate::model::errors::DecodeError;
use crate::model::order::{key_before, precedes};
use crate::utils::text::{chars_of, string_of};

verus! {

/// The canonical text of a name and a version requirement.
pub open spec fn canonical_text(name: Seq<char>, version: Seq<char>) -> Seq<char> {
    name + seq!['@'] + version
}

/// The two halves of a canonical text: what stands before its first `@` and
/// what follows it. A text without `@` has no halves.
pub open spec fn split_key(text: Seq<char>) -> Option<(Seq<char>, Seq<char>)>
    decreases text.len(),
{
    if text.len() == 0 {
        None
    } else if text[0] == '@' {
        Some((Seq::<char>::empty(), text.drop_first()))
    } else {
        match split_key(text.drop_first()) {
            Some((name, version)) => Some((seq![text[0]] + name, version)),
            None => None,
        }
    }
}

/// A text has halves exactly if it holds an `@`.
pub proof fn lemma_split_key_exists(text: Seq<char>)
    ensures
        split_key(text) is Some <==> text.contains('@'),
    decreases text.len(),
{
    if text.len() == 0 {
    } else if text[0] == '@' {
    } else {
        let rest = text.drop_first();
        lemma_split_key_exists(rest);
        if rest.contains('@') {
            let i = choose|i: int| 0 <= i < rest.len() && rest[i] == '@';
            assert(text[i + 1] == '@');
        }
        if text.contains('@') {
            let i = choose|i: int| 0 <= i < text.len() && text[i] == '@';
            assert(rest[i - 1] == '@');
        }
    }
}

/// The halves of a text put it together again, and the first half holds no
/// `@`.
pub proof fn lemma_split_key_joins(text: Seq<char>)
    requires
        split_key(text) is Some,
    ensures
        ({
            let (name, version) = split_key(text)->0;
            canonical_text(name, version) == text && !name.contains('@')
        }),
    decreases text.len(),
{
    if text[0] == '@' {
        assert(canonical_text(Seq::<char>::empty(), text.drop_first()) =~= text);
    } else {
        let rest = text.drop_first();
        lemma_split_key_joins(rest);
        let (name, version) = split_key(rest)->0;
        assert(canonical_text(seq![text[0]] + name, version) =~= seq![text[0]] + canonical_text(
            name,
            version,
        ));
        assert(seq![text[0]] + rest =~= text);
        let whole = seq![text[0]] + name;
        assert forall|i: int| 0 <= i < whole.len() implies whole[i] != '@' by {
            if i > 0 {
                assert(name[i - 1] == whole[i]);
                assert(name.contains(name[i - 1]));
            }
        }
    }
}

/// Encoding a reference and decoding the text gives the reference back,
/// provided that the name holds no `@`.
pub proof fn lemma_split_of_canonical(name: Seq<char>, version: Seq<char>)
    requires
        !name.contains('@'),
    ensures
        split_key(canonical_text(name, version)) == Some((name, version)),
    decreases name.len(),
{
    let text = canonical_text(name, version);
    if name.len() == 0 {
        assert(text.drop_first() =~= version);
        assert(name =~= Seq::<char>::empty());
    } else {
        let shorter = name.drop_first();
        assert(name.contains(name[0]));
        assert forall|i: int| 0 <= i < shorter.len() implies shorter[i] != '@' by {
            assert(name.contains(name[i + 1]));
        }
        lemma_split_of_canonical(shorter, version);
        assert(text.drop_first() =~= canonical_text(shorter, version));
        assert(seq![text[0]] + shorter =~= name);
    }
}

/// Every canonical text has its two halves.
pub proof fn lemma_canonical_has_halves(name: Seq<char>, version: Seq<char>)
    ensures
        split_key(canonical_text(name, version)) is Some,
{
    let text = canonical_text(name, version);
    assert(text[name.len() as int] == '@');
    lemma_split_key_exists(text);
}

/// A dependency reference: a package name and a version requirement.
///
/// Two references are equal exactly if their canonical texts are equal.
#[derive(Debug)]
pub struct DependencyID(pub String, pub String);

impl Clone for DependencyID {
    fn clone(&self) -> (copy: DependencyID)
        ensures
            copy == *self,
    {
        DependencyID(self.0.clone(), self.1.clone())
    }
}

impl DependencyID {
    /// The canonical text of this reference.
    pub open spec fn canonical(&self) -> Seq<char> {
        canonical_text(self.0@, self.1@)
    }

    /// Whether this reference names a package: the name is not empty.
    pub open spec fn well_formed(&self) -> bool {
        self.0@.len() > 0
    }

    /// The reference to the package `name` with the requirement `version`,
    /// if there is a name.
    pub fn new(name: String, version: String) -> (id: Option<DependencyID>)
        ensures
            match id {
                Some(id) => id.0 == name && id.1 == version && id.well_formed(),
                None => name@.len() == 0,
            },
    {
        if name.as_str().is_empty() {
            None
        } else {
            Some(DependencyID(name, version))
        }
    }

    /// The canonical text `name@requirement`.
    pub fn encode(&self) -> (text: String)
        ensures
            text@ == self.canonical(),
    {
        let mut text = self.0.clone();
        text.append("@");
        text.append(self.1.as_str());
        proof {
            reveal_strlit("@");
            assert("@"@ =~= seq!['@']);
        }
        text
    }

    /// Reads a canonical text: the name is what stands before the first
    /// `@`, the requirement what follows it. A text without `@` is no
    /// reference, because the requirement is missing.
    pub fn decode(text: &str) -> (read: Result<DependencyID, DecodeError>)
        ensures
            match read {
                Ok(id) => split_key(text@) == Some((id.0@, id.1@)),
                Err(e) => split_key(text@) is None && e == DecodeError::MissingVersion,
            },
    {
        let chars = chars_of(text);
        let mut at: usize = 0;
        while at < chars.len() && chars[at] != '@'
            invariant
                at <= chars.len(),
                forall|j: int| 0 <= j < at ==> chars@[j] != '@',
            decreases chars.len() - at,
        {
            at += 1;
        }
        if at == chars.len() {
            proof {
                lemma_split_key_exists(chars@);
            }
            return Err(DecodeError::MissingVersion);
        }
        let mut name: Vec<char> = Vec::new();
        let mut i: usize = 0;
        while i < at
            invariant
                i <= at < chars.len(),
                name@ == chars@.take(i as int),
            decreases at - i,
        {
            name.push(chars[i]);
            i += 1;
            assert(name@ =~= chars@.take(i as int));
        }
        let mut version: Vec<char> = Vec::new();
        let mut j: usize = at + 1;
        while j < chars.len()
            invariant
                at < j <= chars.len(),
                version@ == chars@.subrange(at as int + 1, j as int),
            decreases chars.len() - j,
        {
            version.push(chars[j]);
            j += 1;
            assert(version@ =~= chars@.subrange(at as int + 1, j as int));
        }
        proof {
            assert(canonical_text(name@, version@) =~= chars@);
            assert forall|k: int| 0 <= k < name@.len() implies name@[k] != '@' by {}
            lemma_split_of_canonical(name@, version@);
        }
        Ok(DependencyID(string_of(&name), string_of(&version)))
    }
}

impl PartialEq for DependencyID {
    fn eq(&self, other: &DependencyID) -> (same: bool) {
        self.encode() == other.encode()
    }
}

impl Eq for DependencyID {}

impl PartialEqSpecImpl for DependencyID {
    open spec fn obeys_eq_spec() -> bool {
        true
    }

    open spec fn eq_spec(&self, other: &DependencyID) -> bool {
        self.canonical() == other.canonical()
    }
}

/// Feeds a string to a hasher.
///
/// Trusted: this is `Hash::hash` of `String` from the standard library.
/// Nothing is claimed of the state that it leaves.
pub assume_specification<H: Hasher>[ <String as Hash>::hash::<H> ](text: &String, state: &mut H);

impl Hash for DependencyID {
    fn hash<H: Hasher>(&self, state: &mut H) {
        let text = self.encode();
        text.hash(state);
    }
}

impl PartialOrd for DependencyID {
    fn partial_cmp(&self, other: &DependencyID) -> (order: Option<Ordering>) {
        let mine = self.encode();
        let theirs = other.encode();
        if precedes(mine.as_str(), theirs.as_str()) {
            Some(Ordering::Less)
        } else if precedes(theirs.as_str(), mine.as_str()) {
            Some(Ordering::Greater)
        } else {
            Some(Ordering::Equal)
        }
    }
}

impl PartialOrdSpecImpl for DependencyID {
    open spec fn obeys_partial_cmp_spec() -> bool {
        true
    }

    open spec fn partial_cmp_spec(&self, other: &DependencyID) -> Option<Ordering> {
        if key_before(self.canonical(), other.canonical()) {
            Some(Ordering::Less)
        } else if key_before(other.canonical(), self.canonical()) {
            Some(Ordering::Greater)
        } else {
            Some(Ordering::Equal)
        }
    }
}

impl From<(String, String)> for DependencyID {
    fn from(info: (String, String)) -> (id: DependencyID) {
        DependencyID(info.0, info.1)
    }
}

impl FromSpecImpl<(String, String)> for DependencyID {
    open spec fn obeys_from_spec() -> bool {
        true
    }

    open spec fn from_spec(info: (String, String)) -> DependencyID {
        DependencyID(info.0, info.1)
    }
}

/// A value that names a dependency: a reference, or a pair of a name and a
/// version requirement.
pub trait IntoDependencyID: Sized {
    /// The canonical text of the reference that this value names.
    spec fn canonical_key(&self) -> Seq<char>;

    /// The reference that this value names.
    fn into_id(self) -> (id: DependencyID)
        ensures
            id.canonical() == self.canonical_key(),
    ;
}

impl IntoDependencyID for DependencyID {
    open spec fn canonical_key(&self) -> Seq<char> {
        self.canonical()
    }

    fn into_id(self) -> (id: DependencyID) {
        self
    }
}

impl IntoDependencyID for (String, String) {
    open spec fn canonical_key(&self) -> Seq<char> {
        canonical_text(self.0@, self.1@)
    }

    fn into_id(self) -> (id: DependencyID) {
        DependencyID(self.0, self.1)
    }
}

/// What a resolved record says, as plain text.
pub struct LockView {
    pub name: Seq<char>,
    pub version: Seq<char>,
    pub tarball: Seq<char>,
    pub sha1: Seq<char>,
}

/// The outcome of resolving and fetching one dependency: its name, the
/// exact version, where the archive came from and the archive's integrity
/// label.
#[derive(Debug)]
pub struct DependencyLock {
    pub name: String,
    pub version: String,
    pub tarball: String,
    pub sha1: String,
}

impl Clone for DependencyLock {
    fn clone(&self) -> (copy: DependencyLock)
        ensures
            copy == *self,
    {
        DependencyLock {
            name: self.name.clone(),
            version: self.version.clone(),
            tarball: self.tarball.clone(),
            sha1: self.sha1.clone(),
        }
    }
}

impl View for DependencyLock {
    type V = LockView;

    open spec fn view(&self) -> LockView {
        LockView {
            name: self.name@,
            version: self.version@,
            tarball: self.tarball@,
            sha1: self.sha1@,
        }
    }
}

} // verus!
