//! Logging in to Funcom Live Services (PlayFab) with a Steam ticket: the request that
//! is sent and the account that the reply gives.
use vstd::prelude::*;

use super::Account;
use crate::parser::utf8_size;
use crate::text::{chars_of, hex_encode, hex_string, push_str, string_of, sub_chars};

verus! {

/// The PlayFab title of the game.
pub const TITLE_ID: &'static str = "A5B4F";

/// The SDK that the game reports.
pub const SDK: &'static str = "UE4MKPL-1.31.200121";

/// The URL of a PlayFab endpoint: `https://A5B4F.playfabapi.com/` followed by `path`.
pub fn endpoint_url(path: &str) -> (r: String)
    ensures
        r@ == "https://"@ + TITLE_ID@ + ".playfabapi.com/"@ + path@,
{
    let mut s = String::new();
    push_str(&mut s, "https://");
    push_str(&mut s, TITLE_ID);
    push_str(&mut s, ".playfabapi.com/");
    push_str(&mut s, path);
    s
}

/// The Steam ticket as it is sent: upper-case hexadecimal.
pub fn steam_ticket_text(ticket: &[u8]) -> (r: String)
    ensures
        r@ == hex_encode(ticket@, true),
{
    hex_string(ticket, true)
}

/// Where a display name is split: the character position before its last five bytes of
/// UTF-8, when such a position exists.
pub open spec fn split_position(name: Seq<char>) -> Option<int> {
    if exists|k: int| 0 <= k <= name.len() && utf8_size(name.take(k)) + 5 == utf8_size(name) {
        Some(choose|k: int| 0 <= k <= name.len() && utf8_size(name.take(k)) + 5 == utf8_size(name))
    } else {
        None
    }
}

/// A display name as the game shows it: when its UTF-8 encoding is longer than five
/// bytes, a `#` goes before the last five bytes (the discriminator).
pub open spec fn spec_display_name_fixup(name: Seq<char>) -> Seq<char> {
    if utf8_size(name) <= 5 {
        name
    } else {
        match split_position(name) {
            Some(k) => name.take(k) + seq!['#'] + name.skip(k),
            None => name,
        }
    }
}

proof fn lemma_size_take_grows(s: Seq<char>, a: int, b: int)
    requires
        0 <= a < b <= s.len(),
    ensures
        utf8_size(s.take(a)) < utf8_size(s.take(b)),
    decreases b - a,
{
    let t = s.take(b);
    assert(t.drop_last() == s.take(b - 1));
    if a < b - 1 {
        lemma_size_take_grows(s, a, b - 1);
    }
}

fn utf8_len_exec(c: char) -> (n: u64)
    ensures
        n == crate::parser::utf8_len(c),
{
    let u = c as u32;
    if u < 0x80 {
        1
    } else if u < 0x800 {
        2
    } else if u < 0x10000 {
        3
    } else {
        4
    }
}

/// Whether `display_name_fixup` can show `name`: its UTF-8 encoding is at most five
/// bytes long, or a character starts five bytes before its end.
pub fn display_name_splits(name: &str) -> (r: bool)
    requires
        utf8_size(name@) <= isize::MAX,
    ensures
        r == (utf8_size(name@) <= 5 || split_position(name@) is Some),
{
    let cs = chars_of(name);
    let mut total: u64 = 0;
    let mut i: usize = 0;
    while i < cs.len()
        invariant
            cs@ == name@,
            i <= cs@.len(),
            total == utf8_size(cs@.take(i as int)),
            utf8_size(cs@) <= isize::MAX,
        decreases cs.len() - i,
    {
        assert(cs@.take(i + 1).drop_last() == cs@.take(i as int));
        assert(cs@.take(i + 1).last() == cs@[i as int]);
        proof {
            crate::parser::lemma_utf8_size_prefix(cs@, i + 1);
        }
        total = total + utf8_len_exec(cs[i]);
        i += 1;
    }
    assert(cs@.take(cs@.len() as int) == cs@);
    if total <= 5 {
        return true;
    }
    let target = total - 5;
    let mut k: usize = 0;
    let mut acc: u64 = 0;
    while k < cs.len() && acc < target
        invariant
            cs@ == name@,
            k <= cs@.len(),
            acc == utf8_size(cs@.take(k as int)),
            target + 5 == utf8_size(cs@),
            utf8_size(cs@) <= isize::MAX,
            forall|j: int| 0 <= j < k ==> #[trigger] utf8_size(cs@.take(j)) < target,
        decreases cs.len() - k,
    {
        assert(cs@.take(k + 1).drop_last() == cs@.take(k as int));
        assert(cs@.take(k + 1).last() == cs@[k as int]);
        proof {
            crate::parser::lemma_utf8_size_prefix(cs@, k + 1);
            if k + 1 < cs@.len() {
                lemma_size_take_grows(cs@, k + 1, cs@.len() as int);
            }
            assert(cs@.take(cs@.len() as int) == cs@);
        }
        acc = acc + utf8_len_exec(cs[k]);
        k += 1;
    }
    proof {
        if k == cs@.len() {
            assert(cs@.take(k as int) == cs@);
        }
        if acc == target {
            assert(0 <= k <= cs@.len() && utf8_size(cs@.take(k as int)) + 5 == utf8_size(cs@));
        } else {
            assert forall|j: int| 0 <= j <= cs@.len() implies utf8_size(#[trigger] cs@.take(j)) + 5 != utf8_size(cs@) by {
                if j > k {
                    lemma_size_take_grows(cs@, k as int, j);
                }
            }
        }
    }
    acc == target
}

/// A display name as the game shows it. The last five bytes must start a character.
pub fn display_name_fixup(name: String) -> (r: String)
    requires
        utf8_size(name@) <= isize::MAX,
        utf8_size(name@) <= 5 || split_position(name@) is Some,
    ensures
        r@ == spec_display_name_fixup(name@),
{
    let cs = chars_of(name.as_str());
    let mut total: u64 = 0;
    let mut i: usize = 0;
    while i < cs.len()
        invariant
            cs@ == name@,
            i <= cs@.len(),
            total == utf8_size(cs@.take(i as int)),
            utf8_size(cs@) <= isize::MAX,
        decreases cs.len() - i,
    {
        assert(cs@.take(i + 1).drop_last() == cs@.take(i as int));
        assert(cs@.take(i + 1).last() == cs@[i as int]);
        let c = cs[i] as u32;
        let n: u64 = if c < 0x80 {
            1
        } else if c < 0x800 {
            2
        } else if c < 0x10000 {
            3
        } else {
            4
        };
        proof {
            crate::parser::lemma_utf8_size_prefix(cs@, i + 1);
        }
        total = total + n;
        i += 1;
    }
    assert(cs@.take(cs@.len() as int) == cs@);
    if total <= 5 {
        return name;
    }
    let target = total - 5;
    let mut k: usize = 0;
    let mut acc: u64 = 0;
    while acc < target
        invariant
            cs@ == name@,
            k <= cs@.len(),
            acc == utf8_size(cs@.take(k as int)),
            target + 5 == utf8_size(cs@),
            split_position(cs@) is Some,
            acc <= target,
        decreases cs.len() - k,
    {
        let ghost kk = split_position(cs@).unwrap();
        if k >= cs.len() {
            proof {
                assert(cs@.take(cs@.len() as int) == cs@);
            }
        }
        proof {
            if kk <= k {
                if kk < k {
                    lemma_size_take_grows(cs@, kk, k as int);
                }
            }
        }
        assert(k < cs@.len()) by {
            if k == cs@.len() {
                assert(cs@.take(k as int) == cs@);
            }
        }
        assert(cs@.take(k + 1).drop_last() == cs@.take(k as int));
        assert(cs@.take(k + 1).last() == cs@[k as int]);
        let c = cs[k] as u32;
        let n: u64 = if c < 0x80 {
            1
        } else if c < 0x800 {
            2
        } else if c < 0x10000 {
            3
        } else {
            4
        };
        proof {
            if kk > k + 1 {
                lemma_size_take_grows(cs@, k + 1, kk);
                assert(utf8_size(cs@.take(k + 1)) <= utf8_size(cs@.take(kk)));
            }
            if kk == k + 1 {
                assert(utf8_size(cs@.take(k + 1)) == target);
            }
        }
        acc = acc + n;
        k += 1;
    }
    let ghost kk = split_position(cs@).unwrap();
    proof {
        if kk < k {
            lemma_size_take_grows(cs@, kk, k as int);
        } else if kk > k {
            lemma_size_take_grows(cs@, k as int, kk);
        }
    }
    let head = sub_chars(cs.as_slice(), 0, k);
    let tail = sub_chars(cs.as_slice(), k, cs.len());
    let mut r = string_of(head.as_slice());
    r.push('#');
    let t = string_of(tail.as_slice());
    push_str(&mut r, t.as_str());
    assert(head@ == cs@.take(k as int));
    assert(tail@ == cs@.skip(k as int));
    r
}

/// What can go wrong while logging in.
#[derive(Debug, Clone, PartialEq, Eq)]
pub enum LoginError {
    /// The reply is not a JSON object.
    NotAnObject,
    /// The reply has no `code`.
    MissingCode,
    /// The reply's `code` is not a non-negative integer.
    CodeNotANumber,
    /// The reply's `code` is not 200.
    BadCode(u64),
    /// The reply has no `data`.
    MissingData,
    /// The reply has no account information.
    MissingAccountInfo,
    /// The reply has no Steam information.
    MissingSteamInfo,
}

/// The request to log in with a Steam ticket: the title, no account creation, the
/// ticket as upper-case hexadecimal, and the user's account information asked for.
#[derive(Debug)]
pub struct LoginRequest {
    pub title_id: String,
    pub create_account: bool,
    pub steam_ticket: String,
    pub user_account_info: bool,
}

/// The request to log in with the Steam ticket `ticket`.
pub fn login_request(ticket: &[u8]) -> (r: LoginRequest)
    ensures
        r.title_id@ == TITLE_ID@,
        !r.create_account,
        r.steam_ticket@ == hex_encode(ticket@, true),
        r.user_account_info,
{
    LoginRequest {
        title_id: TITLE_ID.to_string(),
        create_account: false,
        steam_ticket: steam_ticket_text(ticket),
        user_account_info: true,
    }
}

/// The checks of a reply's envelope, in order: it is an object, it has a `code`, the code
/// is a non-negative integer, the code is 200, and it has `data`.
pub open spec fn spec_check_reply(is_object: bool, code: Option<Option<u64>>, has_data: bool) -> Result<(), LoginError> {
    if !is_object {
        Err(LoginError::NotAnObject)
    } else {
        match code {
            None => Err(LoginError::MissingCode),
            Some(None) => Err(LoginError::CodeNotANumber),
            Some(Some(c)) => if c != 200 {
                Err(LoginError::BadCode(c))
            } else if !has_data {
                Err(LoginError::MissingData)
            } else {
                Ok(())
            },
        }
    }
}

/// Checks a reply's envelope: whether the reply `is_object`, its `code` (absent, not a
/// non-negative integer, or that integer) and whether it `has_data`.
pub fn check_reply(is_object: bool, code: Option<Option<u64>>, has_data: bool) -> (r: Result<(), LoginError>)
    ensures
        r == spec_check_reply(is_object, code, has_data),
{
    if !is_object {
        return Err(LoginError::NotAnObject);
    }
    match code {
        None => Err(LoginError::MissingCode),
        Some(None) => Err(LoginError::CodeNotANumber),
        Some(Some(c)) => if c != 200 {
            Err(LoginError::BadCode(c))
        } else if !has_data {
            Err(LoginError::MissingData)
        } else {
            Ok(())
        },
    }
}

/// The account that a login reply gives: its PlayFab id, title account id, display
/// name (shown with its discriminator) and Steam id; an error when the reply lacks the
/// account or the Steam information.
pub fn account_from_reply(
    account_info: Option<(String, String, String, Option<String>)>,
) -> (r: Result<Account, LoginError>)
    requires
        account_info matches Some(info) ==> (utf8_size(info.2@) <= isize::MAX && (utf8_size(info.2@) <= 5
            || split_position(info.2@) is Some)),
    ensures
        match account_info {
            None => r == Err::<Account, LoginError>(LoginError::MissingAccountInfo),
            Some((id, title_id, display_name, steam_id)) => match steam_id {
                None => r == Err::<Account, LoginError>(LoginError::MissingSteamInfo),
                Some(sid) => r matches Ok(a) && a.master_id@ == id@ && a.title_id@ == title_id@
                    && a.display_name@ == spec_display_name_fixup(display_name@) && a.platform_id@ == sid@,
            },
        },
{
    match account_info {
        None => Err(LoginError::MissingAccountInfo),
        Some((id, title_id, display_name, steam_id)) => {
            let display_name = display_name_fixup(display_name);
            match steam_id {
                None => Err(LoginError::MissingSteamInfo),
                Some(sid) => Ok(Account { master_id: id, title_id, display_name, platform_id: sid }),
            }
        },
    }
}

/// The account that a login reply gives: the checks of its envelope first, then the
/// account in its data (`account_info`, as `account_from_reply` takes it).
pub fn account_from_login_reply(
    is_object: bool,
    code: Option<Option<u64>>,
    has_data: bool,
    account_info: Option<(String, String, String, Option<String>)>,
) -> (r: Result<Account, LoginError>)
    requires
        account_info matches Some(info) ==> (utf8_size(info.2@) <= isize::MAX && (utf8_size(info.2@) <= 5
            || split_position(info.2@) is Some)),
    ensures
        spec_check_reply(is_object, code, has_data) matches Err(e) ==> r == Err::<Account, LoginError>(e),
        spec_check_reply(is_object, code, has_data) is Ok ==> match account_info {
            None => r == Err::<Account, LoginError>(LoginError::MissingAccountInfo),
            Some((id, title_id, display_name, steam_id)) => match steam_id {
                None => r == Err::<Account, LoginError>(LoginError::MissingSteamInfo),
                Some(sid) => r matches Ok(a) && a.master_id@ == id@ && a.title_id@ == title_id@
                    && a.display_name@ == spec_display_name_fixup(display_name@) && a.platform_id@ == sid@,
            },
        },
{
    match check_reply(is_object, code, has_data) {
        Err(e) => Err(e),
        Ok(()) => account_from_reply(account_info),
    }
}

} // verus!
