//! The identity behind an image's `user` string, `<user>` or `<user>:<group>`,
//! each part a name or a decimal id, looked up in the host's databases.
use vstd::prelude::*;

verus! {

/// The byte `:`.
pub const COLON: u8 = 58;

/// The byte `+`.
pub const PLUS: u8 = 43;

/// Whether `b` is an ASCII decimal digit.
pub open spec fn is_digit(b: u8) -> bool {
    48 <= b && b <= 57
}

/// The value of a sequence of decimal digits, most significant first.
pub open spec fn digits_value(d: Seq<u8>) -> int
    decreases d.len(),
{
    if d.len() == 0 {
        0
    } else {
        digits_value(d.drop_last()) * 10 + (d.last() as int - 48)
    }
}

/// The digits of a numeric token: an optional leading `+` is dropped.
pub open spec fn unsigned_digits(s: Seq<u8>) -> Seq<u8> {
    if s.len() > 0 && s[0] == PLUS {
        s.drop_first()
    } else {
        s
    }
}

/// How a token reads as a `u32`, in the decimal form std's `u32::from_str`
/// takes: an optional `+`, then one digit or more, the value below 2^32.
pub open spec fn u32_of(s: Seq<u8>) -> Option<u32> {
    let d = unsigned_digits(s);
    if d.len() > 0 && (forall|i: int| 0 <= i < d.len() ==> is_digit(#[trigger] d[i]))
        && digits_value(d) <= u32::MAX {
        Some(digits_value(d) as u32)
    } else {
        None
    }
}

/// More digits never make a smaller value.
proof fn lemma_prefix_value_bounded(d: Seq<u8>, k: int)
    requires
        0 <= k <= d.len(),
        forall|i: int| 0 <= i < d.len() ==> is_digit(#[trigger] d[i]),
    ensures
        0 <= digits_value(d.subrange(0, k)) <= digits_value(d),
    decreases d.len(),
{
    if k == d.len() {
        assert(d.subrange(0, k) =~= d);
        if d.len() > 0 {
            lemma_prefix_value_bounded(d.drop_last(), d.len() - 1);
            assert(d.drop_last().subrange(0, d.len() - 1) =~= d.drop_last());
        }
    } else {
        lemma_prefix_value_bounded(d.drop_last(), k);
        assert(d.drop_last().subrange(0, k) =~= d.subrange(0, k));
        lemma_prefix_value_bounded(d.drop_last(), d.len() - 1);
        assert(d.drop_last().subrange(0, d.len() - 1) =~= d.drop_last());
    }
}

/// Reads `s` as a decimal `u32`.
pub fn parse_u32(s: &[u8]) -> (r: Option<u32>)
    ensures
        r == u32_of(s@),
{
    let ghost d = unsigned_digits(s@);
    let start: usize = if s.len() > 0 && s[0] == PLUS {
        1
    } else {
        0
    };
    assert(d =~= s@.subrange(start as int, s@.len() as int));
    if start == s.len() {
        return None;
    }
    let mut v: u64 = 0;
    let mut i: usize = start;
    while i < s.len()
        invariant
            start <= i <= s@.len(),
            d == unsigned_digits(s@),
            d =~= s@.subrange(start as int, s@.len() as int),
            forall|j: int| 0 <= j < i - start ==> is_digit(#[trigger] d[j]),
            v == digits_value(d.subrange(0, i - start)),
            v <= u32::MAX,
        decreases s@.len() - i,
    {
        let b = s[i];
        if b < 48 || b > 57 {
            assert(!is_digit(d[i - start]));
            assert(!(forall|j: int| 0 <= j < d.len() ==> is_digit(#[trigger] d[j])));
            return None;
        }
        assert(d.subrange(0, i + 1 - start).drop_last() =~= d.subrange(0, i - start));
        let w: u64 = v * 10 + (b - 48) as u64;
        assert(d.subrange(0, i + 1 - start).last() == b);
        assert(digits_value(d.subrange(0, i + 1 - start)) == w);
        if w > 4294967295 {
            proof {
                if forall|j: int| 0 <= j < d.len() ==> is_digit(#[trigger] d[j]) {
                    lemma_prefix_value_bounded(d, i + 1 - start);
                }
            }
            return None;
        }
        v = w;
        i += 1;
    }
    assert(d.subrange(0, d.len() as int) =~= d);
    Some(v as u32)
}

/// At least two colons.
pub open spec fn has_two_colons(s: Seq<u8>) -> bool {
    exists|i: int, j: int| 0 <= i < j < s.len() && #[trigger] s[i] == COLON && #[trigger] s[j] == COLON
}

/// Why a user string could not be resolved.
#[derive(Debug)]
pub enum UserError {
    /// More than one colon.
    InvalidFormat,
    /// No user has this uid.
    UnknownUid(u32),
    /// No user has this name.
    UnknownUser(Vec<u8>),
    /// No group has this gid.
    UnknownGid(u32),
    /// No group has this name.
    UnknownGroup(Vec<u8>),
}

/// Splits `<user>` or `<user>:<group>`; two colons or more are refused.
pub fn split_user(s: &[u8]) -> (r: Result<(Vec<u8>, Option<Vec<u8>>), UserError>)
    ensures
        has_two_colons(s@) <==> r is Err,
        r is Err ==> r matches Err(UserError::InvalidFormat),
        r matches Ok((u, None)) ==> u@ == s@ && forall|j: int|
            0 <= j < s@.len() ==> #[trigger] s@[j] != COLON,
        r matches Ok((u, Some(g))) ==> exists|i: int|
            0 <= i < s@.len() && #[trigger] s@[i] == COLON && u@ == s@.subrange(0, i) && g@
                == s@.subrange(i + 1, s@.len() as int),
{
    let mut first: Vec<u8> = Vec::new();
    let mut i: usize = 0;
    while i < s.len() && s[i] != COLON
        invariant
            i <= s@.len(),
            first@ =~= s@.subrange(0, i as int),
            forall|j: int| 0 <= j < i ==> #[trigger] s@[j] != COLON,
        decreases s@.len() - i,
    {
        first.push(s[i]);
        i += 1;
    }
    if i == s.len() {
        assert(first@ =~= s@);
        return Ok((first, None));
    }
    let colon = i;
    let mut rest: Vec<u8> = Vec::new();
    i += 1;
    while i < s.len()
        invariant
            colon < i <= s@.len(),
            s@[colon as int] == COLON,
            rest@ =~= s@.subrange(colon + 1, i as int),
            forall|j: int| 0 <= j < colon ==> #[trigger] s@[j] != COLON,
            forall|j: int| colon < j < i ==> #[trigger] s@[j] != COLON,
        decreases s@.len() - i,
    {
        if s[i] == COLON {
            assert(s@[colon as int] == COLON && s@[i as int] == COLON);
            return Err(UserError::InvalidFormat);
        }
        rest.push(s[i]);
        i += 1;
    }
    assert(!has_two_colons(s@)) by {
        assert forall|a: int, b: int| 0 <= a < b < s@.len() && #[trigger] s@[a] == COLON implies #[trigger] s@[b]
            != COLON by {
            assert(a == colon);
        }
    }
    Ok((first, Some(rest)))
}

/// Relies on users::get_user_by_uid: the user's uid, primary gid and name,
/// when the host knows the uid.
#[verifier::external_body]
fn user_by_uid(uid: u32) -> (r: Option<(u32, u32, Vec<u8>)>)
    ensures
        r matches Some(u) ==> u.0 == uid,
{
    users::get_user_by_uid(uid).map(
        |u| (u.uid(), u.primary_group_id(), u.name().as_encoded_bytes().to_vec()),
    )
}

/// Relies on users::get_user_by_name: the user's uid, primary gid and name,
/// when the host knows the name.
#[verifier::external_body]
fn user_by_name(name: &[u8]) -> (r: Option<(u32, u32, Vec<u8>)>) {
    let name = String::from_utf8_lossy(name);
    users::get_user_by_name(&*name).map(
        |u| (u.uid(), u.primary_group_id(), u.name().as_encoded_bytes().to_vec()),
    )
}

/// Relies on users::get_group_by_gid: the group's gid, when the host knows it.
#[verifier::external_body]
fn group_by_gid(gid: u32) -> (r: Option<u32>) {
    users::get_group_by_gid(gid).map(|g| g.gid())
}

/// Relies on users::get_group_by_name: the group's gid, when the host knows
/// the name.
#[verifier::external_body]
fn group_by_name(name: &[u8]) -> (r: Option<u32>) {
    let name = String::from_utf8_lossy(name);
    users::get_group_by_name(&*name).map(|g| g.gid())
}

/// Relies on users::get_user_groups (getgrouplist, then a lookup of each gid):
/// for groups the host relates to the user, each gid with its member names.
/// It panics on a name holding a zero byte.
#[verifier::external_body]
fn user_groups(name: &[u8], gid: u32) -> (r: Option<Vec<(u32, Vec<Vec<u8>>)>>)
    requires
        forall|i: int| 0 <= i < name@.len() ==> #[trigger] name@[i] != 0,
{
    let name = String::from_utf8_lossy(name);
    users::get_user_groups(&*name, gid).map(
        |gs| gs.iter().map(
            |g| (g.gid(), users::os::unix::GroupExt::members(g).iter().map(
                |m| m.as_encoded_bytes().to_vec(),
            ).collect()),
        ).collect(),
    )
}

/// An owned copy of `s`.
fn copy_bytes(s: &[u8]) -> (r: Vec<u8>)
    ensures
        r@ == s@,
{
    let mut r: Vec<u8> = Vec::new();
    let mut i: usize = 0;
    while i < s.len()
        invariant
            i <= s@.len(),
            r@ =~= s@.subrange(0, i as int),
        decreases s@.len() - i,
    {
        r.push(s[i]);
        i += 1;
    }
    assert(r@ =~= s@);
    r
}

/// A user looked up by a token: (uid, primary gid, name).
pub fn resolve_user(token: &[u8]) -> (r: Result<(u32, u32, Vec<u8>), UserError>)
    ensures
        u32_of(token@) is Some ==> (r matches Ok(u) ==> u.0 == u32_of(token@)->0),
        u32_of(token@) is Some ==> (r is Err ==> r == Err::<(u32, u32, Vec<u8>), UserError>(
            UserError::UnknownUid(u32_of(token@)->0),
        )),
        u32_of(token@) is None ==> (r is Err ==> (r matches Err(UserError::UnknownUser(t))
            && t@ == token@)),
{
    match parse_u32(token) {
        Some(uid) => match user_by_uid(uid) {
            Some(u) => Ok(u),
            None => Err(UserError::UnknownUid(uid)),
        },
        None => match user_by_name(token) {
            Some(u) => Ok(u),
            None => Err(UserError::UnknownUser(copy_bytes(token))),
        },
    }
}

/// A group looked up by a token: a number must be a known gid and is the
/// result; a name gives its group's gid.
pub fn resolve_group(token: &[u8]) -> (r: Result<u32, UserError>)
    ensures
        u32_of(token@) is Some ==> (r is Ok ==> r == Ok::<u32, UserError>(u32_of(token@)->0)),
        u32_of(token@) is Some ==> (r is Err ==> r == Err::<u32, UserError>(
            UserError::UnknownGid(u32_of(token@)->0),
        )),
        u32_of(token@) is None ==> (r is Err ==> (r matches Err(UserError::UnknownGroup(t))
            && t@ == token@)),
{
    match parse_u32(token) {
        Some(gid) => match group_by_gid(gid) {
            Some(_) => Ok(gid),
            None => Err(UserError::UnknownGid(gid)),
        },
        None => match group_by_name(token) {
            Some(gid) => Ok(gid),
            None => Err(UserError::UnknownGroup(copy_bytes(token))),
        },
    }
}

/// `name` is one of `members`.
pub open spec fn lists(members: Seq<Vec<u8>>, name: Seq<u8>) -> bool {
    exists|i: int| 0 <= i < members.len() && #[trigger] members[i]@ == name
}

/// The gids of the groups, out of `groups` (gid and member names), whose
/// member list holds `name`, in order.
pub open spec fn listing_gids(groups: Seq<(u32, Vec<Vec<u8>>)>, name: Seq<u8>) -> Seq<u32>
    decreases groups.len(),
{
    if groups.len() == 0 {
        Seq::empty()
    } else {
        let rest = listing_gids(groups.drop_last(), name);
        if lists(groups.last().1@, name) {
            rest.push(groups.last().0)
        } else {
            rest
        }
    }
}

/// Whether `name` is one of `members`.
pub fn is_member(members: &Vec<Vec<u8>>, name: &[u8]) -> (r: bool)
    ensures
        r == lists(members@, name@),
{
    let mut i: usize = 0;
    while i < members.len()
        invariant
            i <= members@.len(),
            forall|j: int| 0 <= j < i ==> #[trigger] members@[j]@ != name@,
        decreases members@.len() - i,
    {
        if bytes_equal(members[i].as_slice(), name) {
            return true;
        }
        i += 1;
    }
    false
}

/// Whether `a` and `b` hold the same bytes.
fn bytes_equal(a: &[u8], b: &[u8]) -> (r: bool)
    ensures
        r == (a@ == b@),
{
    if a.len() != b.len() {
        return false;
    }
    let mut i: usize = 0;
    while i < a.len()
        invariant
            i <= a@.len(),
            a@.len() == b@.len(),
            forall|j: int| 0 <= j < i ==> a@[j] == b@[j],
        decreases a@.len() - i,
    {
        if a[i] != b[i] {
            return false;
        }
        i += 1;
    }
    assert(a@ =~= b@);
    true
}

/// The gids of the groups whose member list holds `name`.
pub fn listing_groups(groups: &Vec<(u32, Vec<Vec<u8>>)>, name: &[u8]) -> (r: Vec<u32>)
    ensures
        r@ == listing_gids(groups@, name@),
{
    let mut r: Vec<u32> = Vec::new();
    let mut i: usize = 0;
    while i < groups.len()
        invariant
            i <= groups@.len(),
            r@ == listing_gids(groups@.subrange(0, i as int), name@),
        decreases groups@.len() - i,
    {
        assert(groups@.subrange(0, i + 1).drop_last() =~= groups@.subrange(0, i as int));
        if is_member(&groups[i].1, name) {
            r.push(groups[i].0);
        }
        i += 1;
    }
    assert(groups@.subrange(0, groups@.len() as int) =~= groups@);
    r
}

/// A zero byte somewhere in `name`.
pub open spec fn has_zero(name: Seq<u8>) -> bool {
    exists|i: int| 0 <= i < name.len() && #[trigger] name[i] == 0
}

/// The supplementary gids of the user named `name`, whose primary gid is
/// `primary`: the groups the host relates to the user whose member list
/// holds the name. None when the name holds a zero byte, which no user name
/// does, or when the host gives no list.
pub fn resolve_additional_gids(name: &[u8], primary: u32) -> (r: Vec<u32>)
    ensures
        has_zero(name@) ==> r@.len() == 0,
{
    let mut k: usize = 0;
    while k < name.len()
        invariant
            k <= name@.len(),
            forall|i: int| 0 <= i < k ==> #[trigger] name@[i] != 0,
        decreases name@.len() - k,
    {
        if name[k] == 0 {
            return Vec::new();
        }
        k += 1;
    }
    match user_groups(name, primary) {
        Some(groups) => listing_groups(&groups, name),
        None => Vec::new(),
    }
}

/// The ids that a user string stands for.
#[derive(Debug)]
pub struct UserIds {
    pub uid: u32,
    pub gid: u32,
    pub additional_gids: Vec<u32>,
}

/// Puts the ids together from the user found (uid, primary gid, name), the
/// group's gid when the string names one, and the user's supplementary gids.
pub fn user_ids_of(user: (u32, u32, Vec<u8>), group: Option<u32>, additional: Vec<u32>) -> (r:
    UserIds)
    ensures
        r.uid == user.0,
        r.gid == match group {
            Some(g) => g,
            None => user.1,
        },
        r.additional_gids@ == if group is Some {
            Seq::<u32>::empty()
        } else {
            additional@
        },
{
    match group {
        Some(g) => UserIds { uid: user.0, gid: g, additional_gids: Vec::new() },
        None => UserIds { uid: user.0, gid: user.1, additional_gids: additional },
    }
}

/// A colon at `i` and nowhere else.
pub open spec fn only_colon_at(s: Seq<u8>, i: int) -> bool {
    0 <= i < s.len() && s[i] == COLON && !has_two_colons(s)
}

/// No colon at all.
pub open spec fn no_colon(s: Seq<u8>) -> bool {
    forall|j: int| 0 <= j < s.len() ==> #[trigger] s[j] != COLON
}

/// Resolves `<user>` to the user's uid, primary gid and supplementary gids,
/// and `<user>:<group>` to the user's uid and the group's gid with no
/// supplementary gids. Two colons or more are an error.
pub fn resolve_user_ids(user: &[u8]) -> (r: Result<UserIds, UserError>)
    ensures
        has_two_colons(user@) <==> r matches Err(UserError::InvalidFormat),
        no_colon(user@) ==> (u32_of(user@) matches Some(n) ==> (r matches Ok(ids) ==> ids.uid
            == n)),
        forall|i: int|
            #![trigger only_colon_at(user@, i)]
            only_colon_at(user@, i) ==> {
                &&& (u32_of(user@.subrange(0, i)) matches Some(n) ==> (r matches Ok(ids)
                    ==> ids.uid == n))
                &&& (u32_of(user@.subrange(i + 1, user@.len() as int)) matches Some(n) ==> (
                r matches Ok(ids) ==> ids.gid == n))
                &&& (r matches Ok(ids) ==> ids.additional_gids@.len() == 0)
            },
{
    let (u, g) = split_user(user)?;
    let found = resolve_user(u.as_slice())?;
    match g {
        None => {
            let additional = resolve_additional_gids(found.2.as_slice(), found.1);
            proof {
                assert forall|i: int| !only_colon_at(user@, i) by {
                    if only_colon_at(user@, i) {
                        assert(user@[i] != COLON);
                    }
                }
            }
            Ok(user_ids_of(found, None, additional))
        },
        Some(g) => {
            let gid = resolve_group(g.as_slice())?;
            let ghost j = choose|j: int|
                0 <= j < user@.len() && #[trigger] user@[j] == COLON && u@ == user@.subrange(0, j)
                    && g@ == user@.subrange(j + 1, user@.len() as int);
            proof {
                assert forall|i: int| only_colon_at(user@, i) implies i == j by {
                    if i < j {
                        assert(user@[i] == COLON && user@[j] == COLON);
                    } else if j < i {
                        assert(user@[j] == COLON && user@[i] == COLON);
                    }
                }
                assert(!no_colon(user@)) by {
                    assert(user@[j] == COLON);
                }
            }
            Ok(user_ids_of(found, Some(gid), Vec::new()))
        },
    }
}

} // verus!
