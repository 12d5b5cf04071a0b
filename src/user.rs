//! Participants: the people who join rooms, as stored and as updated.
use vstd::prelude::*;

verus! {

/// A participant record as it is read from storage.
pub struct UserRow {
    pub id: i64,
    pub lookup_id: String,
    pub display_name: String,
}

/// A participant: its stable public id, its display name and its vote in the
/// current round of the room it sits in.
#[derive(Debug, Clone, PartialEq, Eq)]
pub struct User {
    pub id: i64,
    pub lookup_id: String,
    pub display_name: String,
    pub vote: Option<i64>,
}

impl User {
    /// A field-by-field copy of the participant.
    pub fn duplicate(&self) -> (r: User)
        ensures
            r == *self,
    {
        User {
            id: self.id,
            lookup_id: self.lookup_id.clone(),
            display_name: self.display_name.clone(),
            vote: self.vote,
        }
    }

    /// The same participant with another vote.
    pub open spec fn with_vote(self, vote: Option<i64>) -> User {
        User { vote: vote, ..self }
    }
}

impl From<UserRow> for User {
    fn from(row: UserRow) -> (r: User) {
        User { id: row.id, lookup_id: row.lookup_id, display_name: row.display_name, vote: None }
    }
}

impl vstd::std_specs::convert::FromSpecImpl<UserRow> for User {
    open spec fn obeys_from_spec() -> bool {
        true
    }

    open spec fn from_spec(row: UserRow) -> User {
        User { id: row.id, lookup_id: row.lookup_id, display_name: row.display_name, vote: None }
    }
}

/// A participant that is about to be stored for the first time.
pub struct NewUser {
    pub lookup_id: String,
}

impl NewUser {
    /// A new participant with a fresh random public id.
    pub fn new() -> (r: NewUser)
        ensures
            is_hyphenated_uuid(r.lookup_id@),
    {
        NewUser { lookup_id: random_lookup_id() }
    }
}

/// The fields of a stored participant that an update writes back.
pub struct UpdateUser {
    pub id: i64,
    pub lookup_id: String,
    pub display_name: String,
}

impl<'a> From<&'a User> for UpdateUser {
    fn from(user: &'a User) -> (r: UpdateUser) {
        UpdateUser {
            id: user.id,
            lookup_id: user.lookup_id.clone(),
            display_name: user.display_name.clone(),
        }
    }
}

impl<'a> vstd::std_specs::convert::FromSpecImpl<&'a User> for UpdateUser {
    open spec fn obeys_from_spec() -> bool {
        true
    }

    open spec fn from_spec(user: &'a User) -> UpdateUser {
        UpdateUser { id: user.id, lookup_id: user.lookup_id, display_name: user.display_name }
    }
}

/// A UUID in its hyphenated lower-case form: 32 hexadecimal digits in groups
/// of 8, 4, 4, 4 and 12, joined by hyphens.
pub open spec fn is_hyphenated_uuid(s: Seq<char>) -> bool {
    &&& s.len() == 36
    &&& forall|i: int|
        0 <= i < 36 ==> if i == 8 || i == 13 || i == 18 || i == 23 {
            #[trigger] s[i] == '-'
        } else {
            ('0' <= s[i] <= '9') || ('a' <= s[i] <= 'f')
        }
}

/// Relies on `uuid::Uuid::new_v4` and its `Display`, which writes the
/// hyphenated lower-case form.
#[verifier::external_body]
pub(crate) fn random_lookup_id() -> (r: String)
    ensures
        is_hyphenated_uuid(r@),
{
    uuid::Uuid::new_v4().to_string()
}

} // verus!
