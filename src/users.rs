//! User accounts: requests, and the numbered user names made from a template.

use crate::access::Claims;
use crate::text::{chars_of, decimal, has_prefix, push_char, push_decimal, text_of};
use vstd::prelude::*;

verus! {

/// A new user and the password it was given.
#[derive(Debug, PartialEq, Eq)]
pub struct UsernamePass {
    pub username: String,
    pub password: String,
}

/// `amount` new users of `user_group`; with more than one, `username`
/// holds one `{}` that a number replaces.
#[derive(Debug, PartialEq, Eq)]
pub struct CreateUsersRequest {
    pub username: String,
    pub amount: usize,
    pub user_group: String,
}

#[derive(Debug, PartialEq, Eq)]
pub struct CreateUsersResponse {
    pub new_users: Vec<UsernamePass>,
}

#[derive(Debug, PartialEq, Eq)]
pub struct UserInfo {
    pub username: String,
    pub user_group: String,
}

#[derive(Debug, PartialEq, Eq)]
pub struct LoginRequest {
    pub username: String,
    pub password: String,
}

#[derive(Debug, PartialEq, Eq)]
pub struct LoginResponse {
    pub token: String,
    pub claims: Claims,
}

#[derive(Debug, PartialEq, Eq)]
pub struct DeleteUserRequest {
    pub username: String,
}

#[derive(Debug, PartialEq, Eq)]
pub struct ChangePassReq {
    pub new_pass: String,
    pub old_pass: String,
}

/// `{}`
pub open spec fn placeholder() -> Seq<char> {
    seq!['{', '}']
}

/// How many `{}` occur in `s`, counted left to right without overlap.
pub open spec fn placeholder_count(s: Seq<char>) -> nat
    decreases s.len(),
{
    if s.len() == 0 {
        0
    } else if has_prefix(s, placeholder()) {
        1 + placeholder_count(s.subrange(2, s.len() as int))
    } else {
        placeholder_count(s.drop_first())
    }
}

/// `s` with every `{}` replaced by `r`, left to right.
pub open spec fn replace_placeholders(s: Seq<char>, r: Seq<char>) -> Seq<char>
    decreases s.len(),
{
    if s.len() == 0 {
        Seq::empty()
    } else if has_prefix(s, placeholder()) {
        r + replace_placeholders(s.subrange(2, s.len() as int), r)
    } else {
        seq![s[0]] + replace_placeholders(s.drop_first(), r)
    }
}

/// The user name with number `n`: every `{}` of `template` becomes `n`.
pub fn username_candidate(template: &str, n: u64) -> (r: String)
    ensures
        r@ == replace_placeholders(template@, decimal(n as nat)),
{
    let cs = chars_of(template);
    let len = cs.len();
    let mut number = String::new();
    push_decimal(&mut number, n);
    assert(number@ =~= decimal(n as nat));
    let mut out = String::new();
    let mut i: usize = 0;
    assert(cs@.subrange(0, len as int) =~= cs@);
    assert(out@ + replace_placeholders(cs@, number@) =~= replace_placeholders(cs@, number@));
    while i < len
        invariant
            len == cs@.len(),
            cs@ == template@,
            number@ == decimal(n as nat),
            i <= len,
            replace_placeholders(template@, number@) == out@ + replace_placeholders(
                cs@.subrange(i as int, len as int),
                number@,
            ),
        decreases len - i,
    {
        let ghost t = cs@.subrange(i as int, len as int);
        let ghost before = out@;
        if i + 1 < len && cs[i] == '{' && cs[i + 1] == '}' {
            assert(t.subrange(0, 2) =~= placeholder());
            assert(t.subrange(2, t.len() as int) =~= cs@.subrange(i + 2, len as int));
            crate::text::push_text(&mut out, number.as_str());
            assert(before + (number@ + replace_placeholders(cs@.subrange(i + 2, len as int), number@))
                =~= out@ + replace_placeholders(cs@.subrange(i + 2, len as int), number@));
            i += 2;
        } else {
            assert(!has_prefix(t, placeholder())) by {
                if has_prefix(t, placeholder()) {
                    assert(t.subrange(0, 2)[0] == t[0]);
                    assert(t.subrange(0, 2)[1] == t[1]);
                }
            }
            assert(t.drop_first() =~= cs@.subrange(i + 1, len as int));
            push_char(&mut out, cs[i]);
            assert(before + (seq![t[0]] + replace_placeholders(cs@.subrange(i + 1, len as int), number@))
                =~= out@ + replace_placeholders(cs@.subrange(i + 1, len as int), number@));
            i += 1;
        }
    }
    assert(cs@.subrange(len as int, len as int) =~= Seq::<char>::empty());
    assert(out@ + Seq::<char>::empty() =~= out@);
    out
}

/// How many `{}` occur in `s`.
pub fn count_placeholders(s: &str) -> (r: usize)
    ensures
        r == placeholder_count(s@),
{
    let cs = chars_of(s);
    let len = cs.len();
    let mut count: usize = 0;
    let mut i: usize = 0;
    assert(cs@.subrange(0, len as int) =~= cs@);
    while i < len
        invariant
            len == cs@.len(),
            cs@ == s@,
            i <= len,
            count <= i,
            placeholder_count(s@) == count + placeholder_count(cs@.subrange(i as int, len as int)),
        decreases len - i,
    {
        let ghost t = cs@.subrange(i as int, len as int);
        if i + 1 < len && cs[i] == '{' && cs[i + 1] == '}' {
            assert(t.subrange(0, 2) =~= placeholder());
            assert(t.subrange(2, t.len() as int) =~= cs@.subrange(i + 2, len as int));
            count += 1;
            i += 2;
        } else {
            assert(!has_prefix(t, placeholder())) by {
                if has_prefix(t, placeholder()) {
                    assert(t.subrange(0, 2)[0] == t[0]);
                    assert(t.subrange(0, 2)[1] == t[1]);
                }
            }
            assert(t.drop_first() =~= cs@.subrange(i + 1, len as int));
            i += 1;
        }
    }
    assert(cs@.subrange(len as int, len as int) =~= Seq::<char>::empty());
    count
}

/// Creating several users needs a template with exactly one `{}`.
pub fn check_username_template(username: &str, amount: usize) -> (r: Result<(), String>)
    ensures
        r is Ok <==> (amount <= 1 || placeholder_count(username@) == 1),
{
    if amount > 1 && count_placeholders(username) != 1 {
        return Err(
            text_of(
                "If creating multiple users, username must contain one \"{}\" to replace with sequence!",
            ),
        );
    }
    Ok(())
}

} // verus!
