//! The claims that a session token carries.
use vstd::prelude::*;

verus! {

/// A token's claims: the subject (the user, as JSON) and when it expires.
pub struct Claims {
    pub sub: String,
    pub exp: usize,
}

/// The characters that `char::is_whitespace` accepts: those with the
/// Unicode `White_Space` property.
pub open spec fn is_space(c: char) -> bool {
    let u = c as u32;
    ||| 0x09 <= u <= 0x0D
    ||| u == 0x20
    ||| u == 0x85
    ||| u == 0xA0
    ||| u == 0x1680
    ||| 0x2000 <= u <= 0x200A
    ||| u == 0x2028
    ||| u == 0x2029
    ||| u == 0x202F
    ||| u == 0x205F
    ||| u == 0x3000
}

/// `s` without its leading whitespace.
pub open spec fn trim_start(s: Seq<char>) -> Seq<char>
    decreases s.len(),
{
    if s.len() > 0 && is_space(s[0]) {
        trim_start(s.drop_first())
    } else {
        s
    }
}

/// `s` without its trailing whitespace.
pub open spec fn trim_end(s: Seq<char>) -> Seq<char>
    decreases s.len(),
{
    if s.len() > 0 && is_space(s.last()) {
        trim_end(s.drop_last())
    } else {
        s
    }
}

/// The scheme that starts an `Authorization` header carrying a token.
pub open spec fn bearer() -> Seq<char> {
    seq!['B', 'e', 'a', 'r', 'e', 'r', ' ']
}

/// `s` starts with `p`.
pub open spec fn starts_with(s: Seq<char>, p: Seq<char>) -> bool {
    p.len() <= s.len() && s.take(p.len() as int) == p
}

/// `s` with every leading copy of the scheme removed.
pub open spec fn strip_bearer(s: Seq<char>) -> Seq<char>
    decreases s.len(),
{
    if starts_with(s, bearer()) {
        strip_bearer(s.skip(7))
    } else {
        s
    }
}

/// The token that an `Authorization` header carries: after the scheme
/// (every repetition of it), without surrounding whitespace.
pub open spec fn header_token(header: Seq<char>) -> Option<Seq<char>> {
    if starts_with(header, bearer()) {
        Some(trim_end(trim_start(strip_bearer(header))))
    } else {
        None
    }
}

/// Whether `c` is whitespace (see `is_space`).
pub fn is_space_char(c: char) -> (r: bool)
    ensures
        r == is_space(c),
{
    let u = c as u32;
    (0x09 <= u && u <= 0x0D) || u == 0x20 || u == 0x85 || u == 0xA0 || u == 0x1680 || (0x2000 <= u && u
        <= 0x200A) || u == 0x2028 || u == 0x2029 || u == 0x202F || u == 0x205F || u == 0x3000
}

/// Whether the scheme starts at character `i` of `s`.
fn bearer_at(s: &str, i: usize) -> (r: bool)
    requires
        i <= s@.len(),
    ensures
        r == starts_with(s@.skip(i as int), bearer()),
{
    let n = s.unicode_len();
    if n - i < 7 {
        return false;
    }
    let p = "Bearer ";
    proof {
        reveal_strlit("Bearer ");
        assert(p@ =~= bearer());
    }
    let mut k: usize = 0;
    while k < 7
        invariant
            n == s@.len(),
            i + 7 <= n,
            p@ == bearer(),
            k <= 7,
            forall|j: int| 0 <= j < k ==> s@[i + j] == bearer()[j],
        decreases 7 - k,
    {
        if s.get_char(i + k) != p.get_char(k) {
            proof {
                assert(s@.skip(i as int).take(7)[k as int] != bearer()[k as int]);
            }
            return false;
        }
        k = k + 1;
    }
    proof {
        assert(s@.skip(i as int).take(7) =~= bearer());
    }
    true
}

/// The token of an `Authorization` header (see `header_token`).
pub fn bearer_token(header: &str) -> (r: Option<String>)
    ensures
        match header_token(header@) {
            Some(t) => r matches Some(x) && x@ == t,
            None => r is None,
        },
{
    let n = header.unicode_len();
    proof {
        assert(header@.skip(0) =~= header@);
    }
    if !bearer_at(header, 0) {
        return None;
    }
    let mut i: usize = 0;
    while n - i >= 7 && bearer_at(header, i)
        invariant
            n == header@.len(),
            i <= n,
            strip_bearer(header@) == strip_bearer(header@.skip(i as int)),
        decreases n - i,
    {
        proof {
            assert(header@.skip(i as int).skip(7) =~= header@.skip(i + 7));
        }
        i = i + 7;
    }
    proof {
        if n - i < 7 {
            assert(!starts_with(header@.skip(i as int), bearer()));
        }
        assert(strip_bearer(header@) == header@.subrange(i as int, n as int)) by {
            assert(header@.skip(i as int) =~= header@.subrange(i as int, n as int));
        }
    }
    let mut a: usize = i;
    while a < n && is_space_char(header.get_char(a))
        invariant
            n == header@.len(),
            i <= a <= n,
            trim_start(header@.subrange(i as int, n as int)) == trim_start(header@.subrange(a as int, n as int)),
        decreases n - a,
    {
        proof {
            assert(header@.subrange(a as int, n as int).drop_first() =~= header@.subrange(a + 1, n as int));
        }
        a = a + 1;
    }
    let mut b: usize = n;
    proof {
        assert(trim_start(header@.subrange(a as int, n as int)) == header@.subrange(a as int, n as int));
    }
    while b > a && is_space_char(header.get_char(b - 1))
        invariant
            n == header@.len(),
            a <= b <= n,
            trim_end(header@.subrange(a as int, n as int)) == trim_end(header@.subrange(a as int, b as int)),
        decreases b - a,
    {
        proof {
            assert(header@.subrange(a as int, b as int).drop_last() =~= header@.subrange(a as int, b - 1));
        }
        b = b - 1;
    }
    Some(String::from_str(header.substring_char(a, b)))
}

/// How long a token stays valid: a day, in seconds.
pub const TOKEN_LIFETIME_SECS: i64 = 86400i64;

/// When a token issued at `now` (seconds since the Unix epoch) expires: a
/// day later, as the claims carry it.
pub fn token_expiration(now: i64) -> (exp: usize)
    requires
        now <= i64::MAX - TOKEN_LIFETIME_SECS,
    ensures
        exp == (now + TOKEN_LIFETIME_SECS) as usize,
{
    let t: i64 = now + TOKEN_LIFETIME_SECS;
    t as usize
}

} // verus!
