//! Tokens of signed-in users: the claims they carry and where a request
//! holds them.
use vstd::prelude::*;
use crate::text::{starts_with, split_char, split_spec};

verus! {

/// The claims of a session token.
pub struct Claims {
    /// The user's id.
    pub sub: String,
    pub email: String,
    pub role: String,
    /// Expiry, in seconds since the Unix epoch.
    pub exp: i64,
    /// Issue time, in seconds since the Unix epoch.
    pub iat: i64,
}

/// The signed-in user of a request.
pub struct CurrentUser {
    pub id: String,
    pub email: String,
    pub role: String,
}

impl From<Claims> for CurrentUser {
    fn from(claims: Claims) -> (r: CurrentUser) {
        CurrentUser { id: claims.sub, email: claims.email, role: claims.role }
    }
}

impl vstd::std_specs::convert::FromSpecImpl<Claims> for CurrentUser {
    open spec fn obeys_from_spec() -> bool {
        true
    }

    open spec fn from_spec(claims: Claims) -> CurrentUser {
        CurrentUser { id: claims.sub, email: claims.email, role: claims.role }
    }
}

/// The body of an authentication failure.
pub struct AuthError {
    pub error: String,
    pub message: String,
}

/// Issues and checks session tokens signed with a secret.
pub struct JwtService {
    secret: String,
    expiration_hours: u64,
}

impl JwtService {
    pub fn new(secret: String, expiration_hours: u64) -> (r: JwtService)
        ensures
            r.secret_view() == secret@,
            r.hours() == expiration_hours,
    {
        JwtService { secret, expiration_hours }
    }

    pub closed spec fn secret_view(&self) -> Seq<char> {
        self.secret@
    }

    pub closed spec fn hours(&self) -> u64 {
        self.expiration_hours
    }

    /// The signing secret.
    pub fn secret(&self) -> (r: &str)
        ensures
            r@ == self.secret_view(),
    {
        self.secret.as_str()
    }

    /// The claims of a token issued at `now` for a user: it expires after
    /// the service's number of hours, or at the latest representable time.
    pub fn claims_for(&self, user_id: &str, email: &str, role: &str, now: i64) -> (r: Claims)
        ensures
            r.sub@ == user_id@,
            r.email@ == email@,
            r.role@ == role@,
            r.iat == now,
            r.exp == if now + self.hours() * 3600 > i64::MAX { i64::MAX } else { (now + self.hours() * 3600) as i64 },
    {
        let total: i128 = now as i128 + (self.expiration_hours as i128) * 3600;
        let exp: i64 = if total > i64::MAX as i128 {
            i64::MAX
        } else {
            total as i64
        };
        Claims { sub: user_id.to_owned(), email: email.to_owned(), role: role.to_owned(), exp, iat: now }
    }
}

/// The token a request carries: the `Authorization` header's value after
/// `Bearer `, or else the value of the first `token=` pair of the query.
pub open spec fn request_token(header: Option<Seq<char>>, query: Option<Seq<char>>) -> Option<Seq<char>> {
    match bearer_of(header) {
        Some(t) => Some(t),
        None => match query {
            Some(q) => query_token(q),
            None => None,
        },
    }
}

/// The header's value after `Bearer `.
pub open spec fn bearer_of(header: Option<Seq<char>>) -> Option<Seq<char>> {
    match header {
        Some(h) => if "Bearer "@.is_prefix_of(h) {
            Some(h.subrange("Bearer "@.len() as int, h.len() as int))
        } else {
            None
        },
        None => None,
    }
}

/// The value of the first `token=` pair of a query.
pub open spec fn query_token(q: Seq<char>) -> Option<Seq<char>> {
    let parts = split_spec(q, '&');
    if exists|i: int| 0 <= i < parts.len() && "token="@.is_prefix_of(#[trigger] parts[i]) {
        let i = choose|i: int| 0 <= i < parts.len() && "token="@.is_prefix_of(#[trigger] parts[i])
            && forall|j: int| 0 <= j < i ==> !"token="@.is_prefix_of(#[trigger] parts[j]);
        Some(parts[i].subrange("token="@.len() as int, parts[i].len() as int))
    } else {
        None
    }
}

/// The characters of `s` from position `from` on.
fn tail_from(s: &str, from: usize) -> (r: String)
    requires
        from <= s@.len(),
    ensures
        r@ == s@.subrange(from as int, s@.len() as int),
{
    let n = s.unicode_len();
    s.substring_char(from, n).to_owned()
}

/// The token a request carries, from its `Authorization` header or its query.
pub fn request_token_of(header: Option<&str>, query: Option<&str>) -> (r: Option<String>)
    ensures
        match r {
            Some(t) => request_token(opt_str(header), opt_str(query)) == Some(t@),
            None => request_token(opt_str(header), opt_str(query)) is None,
        },
{
    proof {
        reveal_strlit("Bearer ");
        reveal_strlit("token=");
    }
    if let Some(h) = header {
        if starts_with(h, "Bearer ") {
            return Some(tail_from(h, 7));
        }
    }
    if let Some(q) = query {
        let parts = split_char(q, '&');
        let ghost ps = split_spec(q@, '&');
        assert(bearer_of(opt_str(header)) is None);
        let mut i: usize = 0;
        while i < parts.len()
            invariant
                i <= parts@.len(),
                ps == split_spec(q@, '&'),
                bearer_of(opt_str(header)) is None,
                opt_str(query) == Some(q@),
                parts@.map_values(|p: String| p@) == ps,
                "token="@.len() == 6,
                forall|j: int| 0 <= j < i ==> !"token="@.is_prefix_of(#[trigger] ps[j]),
            decreases parts.len() - i,
        {
            assert(ps[i as int] == parts@[i as int]@);
            if starts_with(parts[i].as_str(), "token=") {
                let t = tail_from(parts[i].as_str(), 6);
                proof {
                    let c = choose|c: int| 0 <= c < ps.len() && "token="@.is_prefix_of(#[trigger] ps[c])
                        && forall|j: int| 0 <= j < c ==> !"token="@.is_prefix_of(#[trigger] ps[j]);
                    assert(0 <= i < ps.len() && "token="@.is_prefix_of(ps[i as int])
                        && forall|j: int| 0 <= j < i ==> !"token="@.is_prefix_of(#[trigger] ps[j]));
                    if c < i {
                        assert(!"token="@.is_prefix_of(ps[c]));
                    } else if i < c {
                        assert(!"token="@.is_prefix_of(ps[i as int]));
                    }
                    assert(query_token(q@) == Some(t@));
                    assert(bearer_of(opt_str(header)) is None);
                }
                return Some(t);
            }
            i = i + 1;
        }
    }
    None
}

pub open spec fn opt_str(o: Option<&str>) -> Option<Seq<char>> {
    match o {
        Some(s) => Some(s@),
        None => None,
    }
}

} // verus!
