//! Accounts of Funcom Live Services and the users that the game caches in
//! `Game.ini`, one map per user such as
//! `(MasterAccountId="…",TitlePlayerId="…",PlatformId="…",TitleDisplayName="…",UserToken="…")`.
use vstd::prelude::*;

pub mod playfab;

use crate::parser::{
    lemma_entry_plain, lemma_first_of_each_distinct, lemma_quoted_plain, lookup, pair_views,
    parse_map, plain, plain_key, quoted_text, spec_map_entries, spec_more_entries, spec_parse_map,
    spec_quoted, utf8_size, ParserError, SpecErr, first_of_each, spec_entry,
};
use crate::text::{chars_eq, chars_of, hex_encode, hex_string, lower_chars, push_str, ascii_lower_seq};

verus! {

/// The outcome of a background task.
#[derive(Debug, Clone)]
pub enum TaskState<T> {
    Pending,
    Ready(T),
}

/// Whether the player can use a game mode, or why not.
pub type Capability = Result<(), String>;

/// What the launcher knows of the player's accounts.
#[derive(Debug)]
pub struct AuthState {
    pub platform_user: Result<PlatformUser, String>,
    pub fls_account: TaskState<Result<Account, String>>,
    pub online_capability: TaskState<Capability>,
    pub sp_capability: TaskState<Capability>,
}

/// A Funcom Live Services account.
#[derive(Debug, Clone)]
pub struct Account {
    pub master_id: String,
    pub title_id: String,
    pub display_name: String,
    pub platform_id: String,
}

/// The user of the platform (Steam) that runs the launcher.
#[derive(Debug, Clone)]
pub struct PlatformUser {
    pub id: String,
    pub display_name: String,
}

/// A user that the game remembers.
#[derive(Debug, Clone)]
pub struct CachedUser {
    pub account: Account,
    pub user_token: String,
}

/// Key of the master account id.
pub open spec fn key_master_account_id() -> Seq<char> {
    "MasterAccountId"@
}

/// Key of the title player id.
pub open spec fn key_title_player_id() -> Seq<char> {
    "TitlePlayerId"@
}

/// Key of the display name.
pub open spec fn key_title_display_name() -> Seq<char> {
    "TitleDisplayName"@
}

/// Key of the platform id.
pub open spec fn key_platform_id() -> Seq<char> {
    "PlatformId"@
}

/// Key of the user token.
pub open spec fn key_user_token() -> Seq<char> {
    "UserToken"@
}

/// The field that a cached-user map gives for `key`: the text of its quoted value,
/// or the empty string when the key is missing or its value is not quoted.
pub open spec fn field_of(entries: Seq<(Seq<char>, Seq<char>)>, key: Seq<char>) -> Seq<char> {
    match lookup(entries, key) {
        Some(v) => match spec_quoted(v) {
            Ok(t) => t,
            Err(_) => Seq::<char>::empty(),
        },
        None => Seq::<char>::empty(),
    }
}

/// The fields of a cached user, as character sequences, in the order
/// master id, title id, display name, platform id, user token.
pub open spec fn cached_user_fields(u: CachedUser) -> (Seq<char>, Seq<char>, Seq<char>, Seq<char>, Seq<char>) {
    (u.account.master_id@, u.account.title_id@, u.account.display_name@, u.account.platform_id@, u.user_token@)
}

/// The fields that parsing gives for a map with `entries`.
pub open spec fn fields_from_map(entries: Seq<(Seq<char>, Seq<char>)>) -> (Seq<char>, Seq<char>, Seq<char>, Seq<char>, Seq<char>) {
    (
        field_of(entries, key_master_account_id()),
        field_of(entries, key_title_player_id()),
        field_of(entries, key_title_display_name()),
        field_of(entries, key_platform_id()),
        field_of(entries, key_user_token()),
    )
}

/// The text that `CachedUser::to_string` writes for the given fields.
pub open spec fn cached_user_text(f: (Seq<char>, Seq<char>, Seq<char>, Seq<char>, Seq<char>)) -> Seq<char> {
    "("@ + key_master_account_id() + "=\""@ + f.0 + "\","@
        + key_title_player_id() + "=\""@ + f.1 + "\","@
        + key_platform_id() + "=\""@ + f.3 + "\","@
        + key_title_display_name() + "=\""@ + f.2 + "\","@
        + key_user_token() + "=\""@ + f.4 + "\")"@
}

/// Reads the field of `key` from parsed map entries.
fn field(entries: &Vec<(String, String)>, key: &str) -> (r: String)
    ensures
        r@ == field_of(pair_views(entries@), key@),
{
    match crate::parser::map_get(entries, key) {
        Some(v) => {
            let vc = chars_of(v.as_str());
            match quoted_text(vc.as_slice()) {
                Some(t) => crate::text::string_of(t.as_slice()),
                None => String::new(),
            }
        },
        None => String::new(),
    }
}

/// Whether `c` is an ASCII letter or digit.
pub open spec fn is_ascii_alnum(c: char) -> bool {
    ('0' <= c <= '9') || ('a' <= c <= 'z') || ('A' <= c <= 'Z')
}

/// `s` with every character that is not an ASCII letter or digit removed.
pub open spec fn strip_non_alnum(s: Seq<char>) -> Seq<char> {
    s.filter(|c: char| is_ascii_alnum(c))
}

/// Calls `regex::Regex::replace_all` with the pattern `[^0-9a-zA-Z]` and an empty
/// replacement: every character outside the ASCII letters and digits is
/// removed and the others are kept in order, which is what that character class
/// matches one character at a time.
#[verifier::external_body]
fn remove_non_alphanumeric(s: &str) -> (r: String)
    ensures
        r@ == strip_non_alnum(s@),
{
    let re = regex::Regex::new(r"[^0-9a-zA-Z]").unwrap();
    re.replace_all(s, "").into_owned()
}

/// The MD5 digest of `data`.
pub uninterp spec fn md5_of(data: Seq<u8>) -> Seq<u8>;

/// Calls `md5::compute`. The result is the digest of `data`, sixteen bytes.
#[verifier::external_body]
fn md5_digest(data: &[u8]) -> (r: Vec<u8>)
    ensures
        r@ == md5_of(data@),
        r@.len() == 16,
{
    md5::compute(data).0.to_vec()
}

/// The token that identifies this machine: the lower-case hexadecimal MD5 digest of
/// the lower-cased ASCII letters and digits of its first MAC address.
pub open spec fn user_token_of(mac: Seq<char>) -> Seq<char> {
    hex_encode(md5_of(vstd::utf8::encode_utf8(ascii_lower_seq(strip_non_alnum(mac)))), false)
}

/// Computes the user token from the text of a MAC address (empty when the machine has none).
pub fn user_token_for_mac(mac: &str) -> (r: String)
    ensures
        r@ == user_token_of(mac@),
        r@.len() == 32,
        forall|i: int| 0 <= i < r@.len() ==> crate::text::is_lower_hex_digit(#[trigger] r@[i]),
{
    let stripped = remove_non_alphanumeric(mac);
    let sc = chars_of(stripped.as_str());
    let lowered = crate::text::string_of(lower_chars(sc.as_slice()).as_slice());
    let digest = md5_digest(lowered.as_str().as_bytes());
    proof {
        crate::text::lemma_hex_encode_lower(digest@);
    }
    hex_string(digest.as_slice(), false)
}

impl CachedUser {
    /// A cached user for `account` on the machine whose first MAC address is `mac`.
    pub fn new(account: Account, mac: &str) -> (r: Self)
        ensures
            r.account == account,
            r.user_token@ == user_token_of(mac@),
            r.user_token@.len() == 32,
            forall|i: int| 0 <= i < r.user_token@.len() ==> crate::text::is_lower_hex_digit(#[trigger] r.user_token@[i]),
    {
        CachedUser { account, user_token: user_token_for_mac(mac) }
    }

    /// Parses a cached-user map. A missing or unquoted field is empty.
    pub fn parse(input: &str) -> (r: Result<Self, ParserError>)
        requires
            utf8_size(input@) <= isize::MAX,
        ensures
            r matches Ok(u) ==> (spec_parse_map(input@) matches Ok(e) && cached_user_fields(u)
                == fields_from_map(e)),
            r matches Err(err) ==> spec_parse_map(input@) == Err::<
                Seq<(Seq<char>, Seq<char>)>,
                ParserError,
            >(err),
    {
        let entries = parse_map(input)?;
        let master_id = field(&entries, "MasterAccountId");
        let title_id = field(&entries, "TitlePlayerId");
        let display_name = field(&entries, "TitleDisplayName");
        let platform_id = field(&entries, "PlatformId");
        let user_token = field(&entries, "UserToken");
        Ok(CachedUser {
            account: Account { master_id, title_id, display_name, platform_id },
            user_token,
        })
    }

    /// Writes the map that `parse` reads back. Values are written without escaping.
    pub fn to_string(&self) -> (r: String)
        ensures
            r@ == cached_user_text(cached_user_fields(*self)),
    {
        let mut s = String::new();
        push_str(&mut s, "(");
        push_str(&mut s, "MasterAccountId");
        push_str(&mut s, "=\"");
        push_str(&mut s, self.account.master_id.as_str());
        push_str(&mut s, "\",");
        push_str(&mut s, "TitlePlayerId");
        push_str(&mut s, "=\"");
        push_str(&mut s, self.account.title_id.as_str());
        push_str(&mut s, "\",");
        push_str(&mut s, "PlatformId");
        push_str(&mut s, "=\"");
        push_str(&mut s, self.account.platform_id.as_str());
        push_str(&mut s, "\",");
        push_str(&mut s, "TitleDisplayName");
        push_str(&mut s, "=\"");
        push_str(&mut s, self.account.display_name.as_str());
        push_str(&mut s, "\",");
        push_str(&mut s, "UserToken");
        push_str(&mut s, "=\"");
        push_str(&mut s, self.user_token.as_str());
        push_str(&mut s, "\")");
        s
    }
}

/// The users that the game remembers, at most one per platform id.
pub struct CachedUsers {
    users: Vec<CachedUser>,
}

/// The fields of a cached user: master id, title id, display name, platform id, user token.
pub type UserFields = (Seq<char>, Seq<char>, Seq<char>, Seq<char>, Seq<char>);

/// The fields of users.
pub open spec fn users_fields(s: Seq<CachedUser>) -> Seq<UserFields> {
    s.map_values(|u: CachedUser| cached_user_fields(u))
}

/// The first index at or after `i` of a user with platform id `id`.
pub open spec fn find_platform(s: Seq<UserFields>, id: Seq<char>, i: int) -> Option<int>
    decreases s.len() - i,
{
    if i < 0 || i >= s.len() {
        None
    } else if s[i].3 == id {
        Some(i)
    } else {
        find_platform(s, id, i + 1)
    }
}

/// The users after adding `f`: it replaces the first user with its platform id, or
/// comes last when there is none.
pub open spec fn insert_fields(s: Seq<UserFields>, f: UserFields) -> Seq<UserFields> {
    match find_platform(s, f.3, 0) {
        Some(i) => s.update(i, f),
        None => s.push(f),
    }
}

/// The platform id of a cached user.
pub open spec fn platform_id_of(u: CachedUser) -> Seq<char> {
    u.account.platform_id@
}

/// No two of the users share a platform id.
pub open spec fn distinct_ids(s: Seq<CachedUser>) -> bool {
    forall|i: int, j: int|
        0 <= i < j < s.len() ==> platform_id_of(#[trigger] s[i]) != platform_id_of(#[trigger] s[j])
}

/// The user with platform id `id`, if any (the first one).
pub open spec fn user_with(s: Seq<CachedUser>, id: Seq<char>) -> Option<CachedUser> {
    match find_platform(users_fields(s), id, 0) {
        Some(i) => Some(s[i]),
        None => None,
    }
}

/// The users after adding `u`: it replaces the user with its platform id, or comes last
/// when there is none.
pub open spec fn insert_user(s: Seq<CachedUser>, u: CachedUser) -> Seq<CachedUser> {
    match find_platform(users_fields(s), platform_id_of(u), 0) {
        Some(i) => s.update(i, u),
        None => s.push(u),
    }
}

/// The users after adding each of `us` in turn to no users.
pub open spec fn inserted(us: Seq<CachedUser>) -> Seq<CachedUser>
    decreases us.len(),
{
    if us.len() == 0 {
        seq![]
    } else {
        insert_user(inserted(us.drop_last()), us.last())
    }
}

/// The last of `us` with platform id `id`, if any.
pub open spec fn last_with_id(us: Seq<CachedUser>, id: Seq<char>) -> Option<CachedUser>
    decreases us.len(),
{
    if us.len() == 0 {
        None
    } else if platform_id_of(us.last()) == id {
        Some(us.last())
    } else {
        last_with_id(us.drop_last(), id)
    }
}

proof fn lemma_find_platform(fs: Seq<UserFields>, id: Seq<char>, k: int)
    requires
        0 <= k,
    ensures
        find_platform(fs, id, k) matches Some(j) ==> k <= j < fs.len() && fs[j].3 == id,
        find_platform(fs, id, k) is None ==> forall|m: int| k <= m < fs.len() ==> (#[trigger] fs[m]).3 != id,
    decreases fs.len() - k,
{
    if k < fs.len() && fs[k].3 != id {
        lemma_find_platform(fs, id, k + 1);
    }
}

/// In users with distinct platform ids, the user with id `id` is the one that has it.
proof fn lemma_user_with(s: Seq<CachedUser>, id: Seq<char>)
    requires
        distinct_ids(s),
    ensures
        forall|j: int| 0 <= j < s.len() && platform_id_of(#[trigger] s[j]) == id ==> user_with(s, id) == Some(s[j]),
        user_with(s, id) is None <==> forall|j: int| 0 <= j < s.len() ==> platform_id_of(#[trigger] s[j]) != id,
        find_platform(users_fields(s), id, 0) matches Some(i) ==> 0 <= i < s.len() && platform_id_of(s[i]) == id,
{
    let fs = users_fields(s);
    lemma_find_platform(fs, id, 0);
    assert forall|m: int| 0 <= m < s.len() implies #[trigger] fs[m].3 == platform_id_of(s[m]) by {}
    if find_platform(fs, id, 0) is None {
        assert forall|j: int| 0 <= j < s.len() implies platform_id_of(#[trigger] s[j]) != id by {
            assert(fs[j].3 == platform_id_of(s[j]));
        }
    }
}

/// Adding a user keeps the platform ids distinct; afterwards its id finds it, and every
/// other id finds what it found before.
pub proof fn lemma_insert_user(s: Seq<CachedUser>, u: CachedUser, q: Seq<char>)
    requires
        distinct_ids(s),
    ensures
        distinct_ids(insert_user(s, u)),
        user_with(insert_user(s, u), platform_id_of(u)) == Some(u),
        q != platform_id_of(u) ==> user_with(insert_user(s, u), q) == user_with(s, q),
        insert_user(s, u).len() == s.len() + (if user_with(s, platform_id_of(u)) is Some { 0int } else { 1int }),
{
    let p = platform_id_of(u);
    let t = insert_user(s, u);
    lemma_user_with(s, p);
    lemma_user_with(s, q);
    let fs = users_fields(s);
    match find_platform(fs, p, 0) {
        Some(i) => {
            assert(t == s.update(i, u));
            assert forall|a: int, b: int| 0 <= a < b < t.len() implies platform_id_of(#[trigger] t[a]) != platform_id_of(#[trigger] t[b]) by {
                if a == i {
                    assert(platform_id_of(s[i]) == p);
                } else if b == i {
                    assert(platform_id_of(s[i]) == p);
                }
            }
        },
        None => {
            assert(t == s.push(u));
            assert forall|a: int, b: int| 0 <= a < b < t.len() implies platform_id_of(#[trigger] t[a]) != platform_id_of(#[trigger] t[b]) by {
                if b == s.len() {
                    assert(t[a] == s[a]);
                } else {
                    assert(t[a] == s[a] && t[b] == s[b]);
                }
            }
        },
    }
    lemma_user_with(t, p);
    lemma_user_with(t, q);
    match find_platform(fs, p, 0) {
        Some(i) => {
            assert(platform_id_of(t[i]) == p);
            if q != p {
                if user_with(s, q) matches Some(v) {
                    let j = find_platform(fs, q, 0)->0;
                    assert(platform_id_of(s[j]) == q);
                    assert(t[j] == s[j]);
                } else {
                    assert forall|j: int| 0 <= j < t.len() implies platform_id_of(#[trigger] t[j]) != q by {
                        if j != i {
                            assert(t[j] == s[j]);
                        }
                    }
                }
            }
        },
        None => {
            assert(platform_id_of(t[s.len() as int]) == p);
            if q != p {
                if user_with(s, q) matches Some(v) {
                    let j = find_platform(fs, q, 0)->0;
                    assert(platform_id_of(s[j]) == q);
                    assert(t[j] == s[j]);
                } else {
                    assert forall|j: int| 0 <= j < t.len() implies platform_id_of(#[trigger] t[j]) != q by {
                        if j < s.len() {
                            assert(t[j] == s[j]);
                        }
                    }
                }
            }
        },
    }
}

/// Adding users one after another to no users: the platform ids stay distinct, each id
/// finds the last user added with it (nothing when none was), and each user listed is the
/// last one added with its id.
pub proof fn lemma_inserted(us: Seq<CachedUser>, q: Seq<char>)
    ensures
        distinct_ids(inserted(us)),
        user_with(inserted(us), q) == last_with_id(us, q),
        forall|j: int| 0 <= j < inserted(us).len() ==> last_with_id(us, platform_id_of(#[trigger] inserted(us)[j]))
            == Some(inserted(us)[j]),
    decreases us.len(),
{
    if us.len() > 0 {
        let d = us.drop_last();
        let u = us.last();
        lemma_inserted(d, q);
        lemma_inserted(d, platform_id_of(u));
        lemma_insert_user(inserted(d), u, q);
        let t = inserted(us);
        assert forall|j: int| 0 <= j < t.len() implies last_with_id(us, platform_id_of(#[trigger] t[j])) == Some(t[j]) by {
            let r = platform_id_of(t[j]);
            lemma_inserted(d, r);
            lemma_insert_user(inserted(d), u, r);
            lemma_user_with(t, r);
        }
    }
}

impl CachedUsers {
    /// The users, in order of first insertion.
    pub closed spec fn view(&self) -> Seq<CachedUser> {
        self.users@
    }

    /// No two users share a platform id.
    pub open spec fn wf(&self) -> bool {
        distinct_ids(self.view())
    }

    /// No users.
    pub fn new() -> (r: Self)
        ensures
            r.wf(),
            r.view() == Seq::<CachedUser>::empty(),
    {
        CachedUsers { users: Vec::new() }
    }

    fn position(&self, platform_id: &[char]) -> (r: Option<usize>)
        ensures
            r matches Some(i) ==> i < self.view().len() && platform_id_of(self.view()[i as int])
                == platform_id@,
            r is None ==> forall|i: int|
                0 <= i < self.view().len() ==> platform_id_of(#[trigger] self.view()[i])
                    != platform_id@,
            find_platform(users_fields(self.view()), platform_id@, 0) == (match r {
                Some(i) => Some(i as int),
                None => None,
            }),
    {
        let ghost fs = users_fields(self.users@);
        let mut i: usize = 0;
        while i < self.users.len()
            invariant
                i <= self.users@.len(),
                fs == users_fields(self.users@),
                forall|j: int|
                    0 <= j < i ==> platform_id_of(#[trigger] self.users@[j]) != platform_id@,
                find_platform(fs, platform_id@, 0) == find_platform(fs, platform_id@, i as int),
            decreases self.users.len() - i,
        {
            let id = chars_of(self.users[i].account.platform_id.as_str());
            assert(fs[i as int].3 == self.users@[i as int].account.platform_id@);
            if chars_eq(id.as_slice(), platform_id) {
                return Some(i);
            }
            i += 1;
        }
        None
    }

    /// Adds `user`, replacing the user with the same platform id if there is one.
    pub fn insert(&mut self, user: CachedUser)
        requires
            old(self).wf(),
        ensures
            final(self).wf(),
            final(self).view() == insert_user(old(self).view(), user),
            users_fields(final(self).view()) == insert_fields(
                users_fields(old(self).view()),
                cached_user_fields(user),
            ),
            (exists|i: int|
                0 <= i < old(self).view().len() && platform_id_of(old(self).view()[i])
                    == platform_id_of(user)) ==> (exists|i: int|
                0 <= i < old(self).view().len() && platform_id_of(old(self).view()[i])
                    == platform_id_of(user) && final(self).view() == old(self).view().update(
                    i,
                    user,
                )),
            (forall|i: int|
                0 <= i < old(self).view().len() ==> platform_id_of(#[trigger] old(self).view()[i])
                    != platform_id_of(user)) ==> final(self).view() == old(self).view().push(user),
    {
        let ghost gu = user;
        let id = chars_of(user.account.platform_id.as_str());
        match self.position(id.as_slice()) {
            Some(i) => {
                self.users.set(i, user);
                assert(forall|j: int|
                    0 <= j < self.users@.len() && j != i ==> self.users@[j] == old(self).users@[j]);
                assert(users_fields(self.users@) =~= users_fields(old(self).users@).update(
                    i as int,
                    cached_user_fields(gu),
                ));
            },
            None => {
                self.users.push(user);
                assert(users_fields(self.users@) =~= users_fields(old(self).users@).push(
                    cached_user_fields(gu),
                ));
            },
        }
    }

    /// The user with platform id `platform_id`, if any.
    pub fn by_platform_id(&self, platform_id: &str) -> (r: Option<&CachedUser>)
        requires
            self.wf(),
        ensures
            r matches Some(u) ==> (exists|i: int|
                0 <= i < self.view().len() && self.view()[i] == *u) && platform_id_of(*u)
                == platform_id@,
            r is None ==> forall|i: int|
                0 <= i < self.view().len() ==> platform_id_of(#[trigger] self.view()[i])
                    != platform_id@,
            match r {
                Some(u) => user_with(self.view(), platform_id@) == Some(*u),
                None => user_with(self.view(), platform_id@) is None,
            },
    {
        let id = chars_of(platform_id);
        match self.position(id.as_slice()) {
            Some(i) => Some(&self.users[i]),
            None => None,
        }
    }

    /// All the users, in order of first insertion.
    pub fn iter(&self) -> (r: &[CachedUser])
        ensures
            r@ == self.view(),
    {
        self.users.as_slice()
    }
}


proof fn lemma_keys_plain()
    ensures
        plain_key(key_master_account_id()),
        plain_key(key_title_player_id()),
        plain_key(key_title_display_name()),
        plain_key(key_platform_id()),
        plain_key(key_user_token()),
{
    reveal_strlit("MasterAccountId");
    reveal_strlit("TitlePlayerId");
    reveal_strlit("TitleDisplayName");
    reveal_strlit("PlatformId");
    reveal_strlit("UserToken");
}

/// A quoted field.
pub open spec fn quoted(x: Seq<char>) -> Seq<char> {
    seq!['"'] + x + seq!['"']
}

/// The entries of the text that `CachedUser::to_string` writes.
pub open spec fn user_entries(f: UserFields) -> Seq<(Seq<char>, Seq<char>)> {
    seq![
        (key_master_account_id(), quoted(f.0)),
        (key_title_player_id(), quoted(f.1)),
        (key_platform_id(), quoted(f.3)),
        (key_title_display_name(), quoted(f.2)),
        (key_user_token(), quoted(f.4)),
    ]
}

/// The piece `key="value"` of the text.
pub open spec fn piece(k: Seq<char>, v: Seq<char>) -> Seq<char> {
    k + seq!['=', '"'] + v + seq!['"']
}

proof fn lemma_assoc(a: Seq<char>, b: Seq<char>, c: Seq<char>)
    ensures
        (a + b) + c == a + (b + c),
{
    assert((a + b) + c =~= a + (b + c));
}

proof fn lemma_text_flat(f: UserFields)
    ensures
        cached_user_text(f) == seq!['('] + piece(key_master_account_id(), f.0) + seq![','] + piece(
            key_title_player_id(),
            f.1,
        ) + seq![','] + piece(key_platform_id(), f.3) + seq![','] + piece(key_title_display_name(), f.2)
            + seq![','] + piece(key_user_token(), f.4) + seq![')'],
{
    reveal_strlit("(");
    reveal_strlit("=\"");
    reveal_strlit("\",");
    reveal_strlit("\")");
    assert(cached_user_text(f) =~= seq!['('] + piece(key_master_account_id(), f.0) + seq![','] + piece(
        key_title_player_id(),
        f.1,
    ) + seq![','] + piece(key_platform_id(), f.3) + seq![','] + piece(key_title_display_name(), f.2)
        + seq![','] + piece(key_user_token(), f.4) + seq![')']);
}

proof fn lemma_join_five(f: UserFields)
    ensures
        ({
            let p0 = piece(key_master_account_id(), f.0);
            let p1 = piece(key_title_player_id(), f.1);
            let p2 = piece(key_platform_id(), f.3);
            let p3 = piece(key_title_display_name(), f.2);
            let p4 = piece(key_user_token(), f.4);
            join_pieces(user_pairs(f)) == p0 + seq![','] + (p1 + seq![','] + (p2 + seq![','] + (p3 + seq![','] + p4)))
        }),
{
    let ps = user_pairs(f);
    let d1 = ps.drop_first();
    let d2 = d1.drop_first();
    let d3 = d2.drop_first();
    let d4 = d3.drop_first();
    let p0 = piece(key_master_account_id(), f.0);
    let p1 = piece(key_title_player_id(), f.1);
    let p2 = piece(key_platform_id(), f.3);
    let p3 = piece(key_title_display_name(), f.2);
    let p4 = piece(key_user_token(), f.4);
    assert(d4.len() == 1 && d4[0] == (key_user_token(), f.4));
    assert(join_pieces(d4) == p4);
    assert(d3[0] == (key_title_display_name(), f.2) && d3.len() == 2 && d3.drop_first() == d4);
    assert(join_pieces(d3) == p3 + seq![','] + p4);
    assert(d2[0] == (key_platform_id(), f.3) && d2.len() == 3 && d2.drop_first() == d3);
    assert(join_pieces(d2) == p2 + seq![','] + join_pieces(d3));
    assert(d1[0] == (key_title_player_id(), f.1) && d1.len() == 4 && d1.drop_first() == d2);
    assert(join_pieces(d1) == p1 + seq![','] + join_pieces(d2));
    assert(ps[0] == (key_master_account_id(), f.0) && ps.len() == 5 && ps.drop_first() == d1);
    assert(join_pieces(ps) == p0 + seq![','] + join_pieces(d1));
}

proof fn lemma_text_shape(f: UserFields)
    ensures
        cached_user_text(f) == seq!['('] + join_pieces(user_pairs(f)) + seq![')'],
{
    lemma_text_flat(f);
    lemma_join_five(f);
    let o = seq!['('];
    let c = seq![','];
    let p0 = piece(key_master_account_id(), f.0);
    let p1 = piece(key_title_player_id(), f.1);
    let p2 = piece(key_platform_id(), f.3);
    let p3 = piece(key_title_display_name(), f.2);
    let p4 = piece(key_user_token(), f.4);
    let j3 = p3 + c + p4;
    let j2 = p2 + c + j3;
    let j1 = p1 + c + j2;
    let j0 = p0 + c + j1;
    let t1 = o + p0;
    let t2 = t1 + c;
    let t3 = t2 + p1;
    let t4 = t3 + c;
    let t5 = t4 + p2;
    let t6 = t5 + c;
    let t7 = t6 + p3;
    let t8 = t7 + c;
    let t9 = t8 + p4;
    lemma_assoc(t7, c, p4);
    lemma_assoc(t6, p3, c + p4);
    lemma_assoc(p3, c, p4);
    assert(t9 == t6 + j3);
    lemma_assoc(t5, c, j3);
    lemma_assoc(t4, p2, c + j3);
    lemma_assoc(p2, c, j3);
    assert(t9 == t4 + j2);
    lemma_assoc(t3, c, j2);
    lemma_assoc(t2, p1, c + j2);
    lemma_assoc(p1, c, j2);
    assert(t9 == t2 + j1);
    lemma_assoc(t1, c, j1);
    lemma_assoc(o, p0, c + j1);
    lemma_assoc(p0, c, j1);
    assert(t9 == o + j0);
}

/// The fields of the text as key and unquoted value, in order.
pub open spec fn user_pairs(f: UserFields) -> Seq<(Seq<char>, Seq<char>)> {
    seq![
        (key_master_account_id(), f.0),
        (key_title_player_id(), f.1),
        (key_platform_id(), f.3),
        (key_title_display_name(), f.2),
        (key_user_token(), f.4),
    ]
}

/// Pieces `key="value"` separated by commas.
pub open spec fn join_pieces(ps: Seq<(Seq<char>, Seq<char>)>) -> Seq<char>
    decreases ps.len(),
{
    if ps.len() == 0 {
        seq![]
    } else if ps.len() == 1 {
        piece(ps[0].0, ps[0].1)
    } else {
        piece(ps[0].0, ps[0].1) + seq![','] + join_pieces(ps.drop_first())
    }
}

/// The entries that pieces read as.
pub open spec fn pairs_entries(ps: Seq<(Seq<char>, Seq<char>)>) -> Seq<(Seq<char>, Seq<char>)> {
    ps.map_values(|kv: (Seq<char>, Seq<char>)| (kv.0, quoted(kv.1)))
}

proof fn lemma_more_step(s: Seq<char>, p: int, e: int, kv: (Seq<char>, Seq<char>), rest: (int, Seq<(Seq<char>, Seq<char>)>))
    requires
        0 <= p < s.len(),
        s[p] == ',',
        spec_entry(s, p + 1) == Ok::<(int, (Seq<char>, Seq<char>)), SpecErr>((e, kv)),
        p < e <= s.len(),
        spec_more_entries(s, e) == rest,
    ensures
        spec_more_entries(s, p) == (rest.0, seq![kv] + rest.1),
{
}

proof fn lemma_join_pieces(pre: Seq<char>, ps: Seq<(Seq<char>, Seq<char>)>, post: Seq<char>)
    requires
        ps.len() > 0,
        forall|i: int| 0 <= i < ps.len() ==> plain_key(#[trigger] ps[i].0) && plain(ps[i].1),
        post.len() > 0,
        post[0] == ')',
    ensures
        ({
            let s = pre + join_pieces(ps) + post;
            let e = pre.len() + piece(ps[0].0, ps[0].1).len();
            &&& spec_entry(s, pre.len() as int) == Ok::<(int, (Seq<char>, Seq<char>)), SpecErr>(
                (e as int, (ps[0].0, quoted(ps[0].1))),
            )
            &&& spec_more_entries(s, e as int) == ((pre.len() + join_pieces(ps).len()) as int, pairs_entries(ps.drop_first()))
        }),
    decreases ps.len(),
{
    let s = pre + join_pieces(ps) + post;
    let p0 = piece(ps[0].0, ps[0].1);
    let e = pre.len() + p0.len();
    assert(plain_key(ps[0].0) && plain(ps[0].1));
    if ps.len() == 1 {
        assert(join_pieces(ps) == p0);
        assert(s =~= pre + ps[0].0 + seq!['=', '"'] + ps[0].1 + seq!['"'] + post);
        lemma_entry_plain(pre, ps[0].0, ps[0].1, post);
        assert(s[e as int] == ')');
        assert(pairs_entries(ps.drop_first()) =~= Seq::<(Seq<char>, Seq<char>)>::empty());
    } else {
        let rest = ps.drop_first();
        let tail = seq![','] + join_pieces(rest) + post;
        assert(join_pieces(ps) == p0 + seq![','] + join_pieces(rest));
        assert(s =~= pre + ps[0].0 + seq!['=', '"'] + ps[0].1 + seq!['"'] + tail);
        lemma_entry_plain(pre, ps[0].0, ps[0].1, tail);
        let pre2 = pre + p0 + seq![','];
        assert forall|i: int| 0 <= i < rest.len() implies plain_key(#[trigger] rest[i].0) && plain(rest[i].1) by {
            assert(rest[i] == ps[i + 1]);
        }
        lemma_join_pieces(pre2, rest, post);
        assert(s =~= pre2 + join_pieces(rest) + post);
        assert(s[e as int] == ',');
        let e2 = pre2.len() + piece(rest[0].0, rest[0].1).len();
        lemma_more_step(
            s,
            e as int,
            e2 as int,
            (rest[0].0, quoted(rest[0].1)),
            ((pre2.len() + join_pieces(rest).len()) as int, pairs_entries(rest.drop_first())),
        );
        assert(seq![(rest[0].0, quoted(rest[0].1))] + pairs_entries(rest.drop_first()) =~= pairs_entries(rest));
    }
}

#[verifier::spinoff_prover]
#[verifier::rlimit(40)]
proof fn lemma_text_entries(f: UserFields)
    requires
        plain(f.0),
        plain(f.1),
        plain(f.2),
        plain(f.3),
        plain(f.4),
    ensures
        spec_map_entries(cached_user_text(f)) == Ok::<Seq<(Seq<char>, Seq<char>)>, SpecErr>(user_entries(f)),
{
    lemma_pairs_plain(f);
    lemma_text_shape(f);
    let ps = user_pairs(f);
    let s = cached_user_text(f);
    lemma_join_pieces(seq!['('], ps, seq![')']);
    let end = 1 + join_pieces(ps).len();
    assert(s[end as int] == ')');
    assert(end + 1 == s.len());
    lemma_map_entries_of(
        s,
        (1 + piece(ps[0].0, ps[0].1).len()) as int,
        (ps[0].0, quoted(ps[0].1)),
        end as int,
        pairs_entries(ps.drop_first()),
    );
    assert(seq![(ps[0].0, quoted(ps[0].1))] + pairs_entries(ps.drop_first()) =~= user_entries(f));
}

proof fn lemma_pairs_plain(f: UserFields)
    requires
        plain(f.0),
        plain(f.1),
        plain(f.2),
        plain(f.3),
        plain(f.4),
    ensures
        forall|i: int| 0 <= i < user_pairs(f).len() ==> plain_key(#[trigger] user_pairs(f)[i].0) && plain(user_pairs(f)[i].1),
{
    lemma_keys_plain();
    let ps = user_pairs(f);
    assert forall|i: int| 0 <= i < ps.len() implies plain_key(#[trigger] ps[i].0) && plain(ps[i].1) by {
        assert(i == 0 || i == 1 || i == 2 || i == 3 || i == 4);
    }
}

proof fn lemma_map_entries_of(
    s: Seq<char>,
    first_end: int,
    first: (Seq<char>, Seq<char>),
    rest_end: int,
    rest: Seq<(Seq<char>, Seq<char>)>,
)
    requires
        s.len() > 0,
        s[0] == '(',
        spec_entry(s, 1) == Ok::<(int, (Seq<char>, Seq<char>)), SpecErr>((first_end, first)),
        spec_more_entries(s, first_end) == (rest_end, rest),
        0 <= rest_end < s.len(),
        s[rest_end] == ')',
        rest_end + 1 == s.len(),
    ensures
        spec_map_entries(s) == Ok::<Seq<(Seq<char>, Seq<char>)>, SpecErr>(seq![first] + rest),
{
}

proof fn lemma_entries_fields(f: UserFields)
    requires
        plain(f.0),
        plain(f.1),
        plain(f.2),
        plain(f.3),
        plain(f.4),
    ensures
        first_of_each(user_entries(f)) == user_entries(f),
        fields_from_map(user_entries(f)) == f,
{
    reveal_strlit("MasterAccountId");
    reveal_strlit("TitlePlayerId");
    reveal_strlit("TitleDisplayName");
    reveal_strlit("PlatformId");
    reveal_strlit("UserToken");
    let es = user_entries(f);
    let k1 = key_master_account_id();
    let k2 = key_title_player_id();
    let k3 = key_platform_id();
    let k4 = key_title_display_name();
    let k5 = key_user_token();
    assert(k1.len() == 15 && k2.len() == 13 && k3.len() == 10 && k4.len() == 16 && k5.len() == 9);
    assert forall|i: int, j: int| 0 <= i < j < es.len() implies (#[trigger] es[i]).0 != (#[trigger] es[j]).0 by {
        assert(es[i].0.len() != es[j].0.len());
    }
    lemma_first_of_each_distinct(es);
    lemma_quoted_plain(f.0);
    lemma_quoted_plain(f.1);
    lemma_quoted_plain(f.2);
    lemma_quoted_plain(f.3);
    lemma_quoted_plain(f.4);
    let d1 = es.drop_first();
    let d2 = d1.drop_first();
    let d3 = d2.drop_first();
    let d4 = d3.drop_first();
    assert(d1[0] == (k2, quoted(f.1)));
    assert(d2[0] == (k3, quoted(f.3)));
    assert(d3[0] == (k4, quoted(f.2)));
    assert(d4[0] == (k5, quoted(f.4)));
    assert(lookup(es, k1) == Some(quoted(f.0)));
    assert(lookup(d1, k2) == Some(quoted(f.1)));
    assert(lookup(es, k2) == Some(quoted(f.1)));
    assert(lookup(d2, k3) == Some(quoted(f.3)));
    assert(lookup(d1, k3) == Some(quoted(f.3)));
    assert(lookup(es, k3) == Some(quoted(f.3)));
    assert(lookup(d3, k4) == Some(quoted(f.2)));
    assert(lookup(d2, k4) == Some(quoted(f.2)));
    assert(lookup(d1, k4) == Some(quoted(f.2)));
    assert(lookup(es, k4) == Some(quoted(f.2)));
    assert(lookup(d4, k5) == Some(quoted(f.4)));
    assert(lookup(d3, k5) == Some(quoted(f.4)));
    assert(lookup(d2, k5) == Some(quoted(f.4)));
    assert(lookup(d1, k5) == Some(quoted(f.4)));
    assert(lookup(es, k5) == Some(quoted(f.4)));
}

/// The text that `CachedUser::to_string` writes parses back to the same fields, when
/// every field is non-empty and holds no quote or backslash.
pub proof fn lemma_cached_user_text_round_trip(f: UserFields)
    requires
        plain(f.0),
        plain(f.1),
        plain(f.2),
        plain(f.3),
        plain(f.4),
    ensures
        spec_parse_map(cached_user_text(f)) == Ok::<Seq<(Seq<char>, Seq<char>)>, ParserError>(user_entries(f)),
        fields_from_map(user_entries(f)) == f,
{
    lemma_text_entries(f);
    lemma_entries_fields(f);
}


// ---------------------------------------------------------------------------
// What the home screen shows of the accounts
// ---------------------------------------------------------------------------

/// What the home screen shows of the player's accounts.
#[derive(Debug)]
pub struct AuthDisplay {
    pub platform_user_id: String,
    pub platform_user_name: String,
    pub can_refresh_platform: bool,
    pub fls_account_id: String,
    pub fls_account_name: String,
    pub can_refresh_fls: bool,
    pub online_play: String,
    pub single_player: String,
}

/// An error as the home screen shows it: in angle brackets.
pub open spec fn bracketed(e: Seq<char>) -> Seq<char> {
    seq!['<'] + e + seq!['>']
}

/// A capability as the home screen shows it.
pub open spec fn capability_text(c: TaskState<Capability>) -> Seq<char> {
    match c {
        TaskState::Pending => "<Checking...>"@,
        TaskState::Ready(Ok(())) => "Yes"@,
        TaskState::Ready(Err(e)) => "No, "@ + e@,
    }
}

fn bracket(e: &str) -> (r: String)
    ensures
        r@ == bracketed(e@),
{
    let mut s = String::new();
    s.push('<');
    push_str(&mut s, e);
    s.push('>');
    s
}

fn capability(c: &TaskState<Capability>) -> (r: String)
    ensures
        r@ == capability_text(*c),
{
    match c {
        TaskState::Pending => "<Checking...>".to_string(),
        TaskState::Ready(Ok(())) => "Yes".to_string(),
        TaskState::Ready(Err(e)) => {
            let mut s = String::new();
            push_str(&mut s, "No, ");
            push_str(&mut s, e.as_str());
            s
        },
    }
}

/// What the home screen shows for `state`: the platform user (or its error, which can
/// be refreshed), the Funcom Live Services account (pending, or its error, which can be
/// refreshed), and whether online and single-player play are possible.
pub fn auth_display(state: &AuthState) -> (r: AuthDisplay)
    ensures
        match &state.platform_user {
            Ok(u) => r.platform_user_id@ == u.id@ && r.platform_user_name@ == u.display_name@ && !r.can_refresh_platform,
            Err(e) => r.platform_user_id@ == bracketed(e@) && r.platform_user_name@ == bracketed(e@)
                && r.can_refresh_platform,
        },
        match &state.fls_account {
            TaskState::Pending => r.fls_account_id@ == "<Fetching...>"@ && r.fls_account_name@ == "<Fetching...>"@
                && !r.can_refresh_fls,
            TaskState::Ready(Ok(a)) => r.fls_account_id@ == a.master_id@ && r.fls_account_name@ == a.display_name@
                && !r.can_refresh_fls,
            TaskState::Ready(Err(e)) => r.fls_account_id@ == bracketed(e@) && r.fls_account_name@ == bracketed(e@)
                && r.can_refresh_fls,
        },
        r.online_play@ == capability_text(state.online_capability),
        r.single_player@ == capability_text(state.sp_capability),
{
    let (platform_user_id, platform_user_name, can_refresh_platform) = match &state.platform_user {
        Ok(u) => (u.id.clone(), u.display_name.clone(), false),
        Err(e) => (bracket(e.as_str()), bracket(e.as_str()), true),
    };
    let (fls_account_id, fls_account_name, can_refresh_fls) = match &state.fls_account {
        TaskState::Pending => ("<Fetching...>".to_string(), "<Fetching...>".to_string(), false),
        TaskState::Ready(Ok(a)) => (a.master_id.clone(), a.display_name.clone(), false),
        TaskState::Ready(Err(e)) => (bracket(e.as_str()), bracket(e.as_str()), true),
    };
    AuthDisplay {
        platform_user_id,
        platform_user_name,
        can_refresh_platform,
        fls_account_id,
        fls_account_name,
        can_refresh_fls,
        online_play: capability(&state.online_capability),
        single_player: capability(&state.sp_capability),
    }
}

} // verus!
