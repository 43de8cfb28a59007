//! The users that the game caches in its `Game.ini`, one per platform id.
use vstd::prelude::*;

use crate::auth::fields_from_map;
use crate::parser::{quoted_text, map_get, pair_views, parse_map, spec_parse_map, utf8_size, ParserError};
use crate::text::{chars_eq, chars_of, string_of};

verus! {

/// A user that the game caches.
#[derive(Debug)]
pub struct CachedUser {
    pub master_account_id: String,
    pub title_player_id: String,
    pub title_display_name: String,
    pub platform_id: String,
    pub user_token: String,
}

/// The fields of a cached user, in the order master id, title id, display name,
/// platform id, user token.
pub open spec fn user_fields(u: CachedUser) -> (Seq<char>, Seq<char>, Seq<char>, Seq<char>, Seq<char>) {
    (u.master_account_id@, u.title_player_id@, u.title_display_name@, u.platform_id@, u.user_token@)
}

fn field(entries: &Vec<(String, String)>, key: &str) -> (r: String)
    ensures
        r@ == crate::auth::field_of(pair_views(entries@), key@),
{
    match map_get(entries, key) {
        Some(v) => {
            let vc = chars_of(v.as_str());
            match quoted_text(vc.as_slice()) {
                Some(t) => string_of(t.as_slice()),
                None => String::new(),
            }
        },
        None => String::new(),
    }
}

impl CachedUser {
    /// Parses a cached-user map. A missing or unquoted field is empty.
    pub fn parse(input: &str) -> (r: Result<Self, ParserError>)
        requires
            utf8_size(input@) <= isize::MAX,
        ensures
            r matches Ok(u) ==> (spec_parse_map(input@) matches Ok(e) && user_fields(u) == fields_from_map(e)),
            r matches Err(err) ==> spec_parse_map(input@) == Err::<Seq<(Seq<char>, Seq<char>)>, ParserError>(err),
    {
        let entries = parse_map(input)?;
        Ok(CachedUser {
            master_account_id: field(&entries, "MasterAccountId"),
            title_player_id: field(&entries, "TitlePlayerId"),
            title_display_name: field(&entries, "TitleDisplayName"),
            platform_id: field(&entries, "PlatformId"),
            user_token: field(&entries, "UserToken"),
        })
    }
}

/// The cached users, at most one per platform id.
pub struct CachedUsers {
    users: Vec<CachedUser>,
}

impl CachedUsers {
    /// The users.
    pub closed spec fn view(&self) -> Seq<CachedUser> {
        self.users@
    }

    /// No two users share a platform id.
    pub closed spec fn wf(&self) -> bool {
        forall|i: int, j: int|
            0 <= i < j < self.users@.len() ==> (#[trigger] self.users@[i]).platform_id@
                != (#[trigger] self.users@[j]).platform_id@
    }

    /// No users.
    pub fn new() -> (r: Self)
        ensures
            r.wf(),
            r.view() == Seq::<CachedUser>::empty(),
    {
        CachedUsers { users: Vec::new() }
    }

    fn position(&self, platform_id: &[char]) -> (r: Option<usize>)
        ensures
            r matches Some(i) ==> i < self.view().len() && self.view()[i as int].platform_id@ == platform_id@,
            r is None ==> forall|i: int|
                0 <= i < self.view().len() ==> (#[trigger] self.view()[i]).platform_id@ != platform_id@,
    {
        let mut i: usize = 0;
        while i < self.users.len()
            invariant
                i <= self.users@.len(),
                forall|j: int| 0 <= j < i ==> (#[trigger] self.users@[j]).platform_id@ != platform_id@,
            decreases self.users.len() - i,
        {
            let id = chars_of(self.users[i].platform_id.as_str());
            if chars_eq(id.as_slice(), platform_id) {
                return Some(i);
            }
            i += 1;
        }
        None
    }

    /// Adds `user`, replacing the user with the same platform id if there is one.
    pub fn insert(&mut self, user: CachedUser)
        requires
            old(self).wf(),
        ensures
            final(self).wf(),
            forall|i: int|
                0 <= i < final(self).view().len() && (#[trigger] final(self).view()[i]).platform_id@
                    == user.platform_id@ ==> final(self).view()[i] == user,
            exists|i: int| 0 <= i < final(self).view().len() && final(self).view()[i] == user,
            forall|i: int|
                0 <= i < old(self).view().len() && (#[trigger] old(self).view()[i]).platform_id@
                    != user.platform_id@ ==> final(self).view().contains(old(self).view()[i]),
            forall|i: int|
                0 <= i < final(self).view().len() ==> (#[trigger] final(self).view()[i] == user
                    || old(self).view().contains(final(self).view()[i])),
    {
        let ghost gu = user;
        let id = chars_of(user.platform_id.as_str());
        match self.position(id.as_slice()) {
            Some(i) => {
                self.users.set(i, user);
                assert(self.users@[i as int] == gu);
                assert(self.view()[i as int] == gu);
                assert forall|j: int| 0 <= j < old(self).users@.len() && (#[trigger] old(self).users@[j]).platform_id@
                    != self.users@[i as int].platform_id@ implies self.users@.contains(old(self).users@[j]) by {
                    assert(self.users@[j] == old(self).users@[j]);
                }
                assert forall|j: int| 0 <= j < self.users@.len() implies (#[trigger] self.users@[j] == self.users@[i as int]
                    || old(self).users@.contains(self.users@[j])) by {
                    if j != i {
                        assert(old(self).users@[j] == self.users@[j]);
                    }
                }
            },
            None => {
                self.users.push(user);
                assert(self.users@[self.users@.len() - 1] == gu);
                assert(self.view()[self.users@.len() - 1] == gu);
                assert forall|j: int| 0 <= j < old(self).users@.len() implies self.users@.contains(
                    #[trigger] old(self).users@[j],
                ) by {
                    assert(self.users@[j] == old(self).users@[j]);
                }
                assert forall|j: int| 0 <= j < self.users@.len() implies (#[trigger] self.users@[j] == self.users@.last()
                    || old(self).users@.contains(self.users@[j])) by {
                    if j < old(self).users@.len() {
                        assert(old(self).users@[j] == self.users@[j]);
                    }
                }
            },
        }
    }

    /// The user with platform id `platform_id`, if any.
    pub fn by_platform_id(&self, platform_id: &str) -> (r: Option<&CachedUser>)
        requires
            self.wf(),
        ensures
            r matches Some(u) ==> self.view().contains(*u) && u.platform_id@ == platform_id@,
            r is None ==> forall|i: int|
                0 <= i < self.view().len() ==> (#[trigger] self.view()[i]).platform_id@ != platform_id@,
    {
        let id = chars_of(platform_id);
        match self.position(id.as_slice()) {
            Some(i) => Some(&self.users[i]),
            None => None,
        }
    }
}

/// After a user is inserted, looking up its platform id finds it.
pub proof fn lemma_insert_then_lookup(users: Seq<CachedUser>, user: CachedUser)
    requires
        forall|i: int|
            0 <= i < users.len() && (#[trigger] users[i]).platform_id@ == user.platform_id@ ==> users[i] == user,
        exists|i: int| 0 <= i < users.len() && users[i] == user,
    ensures
        forall|u: CachedUser| users.contains(u) && u.platform_id@ == user.platform_id@ ==> u == user,
        users.contains(user),
{
}

} // verus!
