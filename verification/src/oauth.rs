//! The GitHub OAuth client's decision logic.
//!
//! The HTTP exchange itself happens outside the library; everything that
//! can be decided from the response — picking the token apart, checking
//! the granted scopes, mapping failures — is verified here.

use vstd::prelude::*;
use vstd::string::StrSliceExecFns;
use vstd::string::StringExecFns;

verus! {

/// Knows how to talk to a GitHub OAuth application.
pub struct GitHubClient {
    pub url: String,
    pub client_id: String,
    pub client_secret: String,
}

/// What a GitHub client needs from the service configuration.
pub struct Config {
    pub github_url: String,
    pub github_client_id: String,
    pub github_client_secret: String,
}

impl GitHubClient {
    /// A client for the application the configuration names.
    pub fn new(config: &Config) -> (c: GitHubClient)
        ensures
            c.url@ == config.github_url@,
            c.client_id@ == config.github_client_id@,
            c.client_secret@ == config.github_client_secret@,
    {
        GitHubClient {
            url: config.github_url.clone(),
            client_id: config.github_client_id.clone(),
            client_secret: config.github_client_secret.clone(),
        }
    }
}

/// A GitHub user record, as the `/user` endpoint reports it.
#[derive(Debug)]
pub struct User {
    pub login: String,
    pub id: u64,
    pub avatar_url: String,
    pub gravatar_id: String,
    pub url: String,
    pub html_url: String,
    pub followers_url: String,
    pub following_url: String,
    pub gists_url: String,
    pub starred_url: String,
    pub subscriptions_url: String,
    pub organizations_url: String,
    pub repos_url: String,
    pub events_url: String,
    pub received_events_url: String,
    pub site_admin: bool,
    pub name: String,
    pub company: String,
    pub blog: String,
    pub location: String,
    pub email: String,
    pub hireable: Option<bool>,
    pub bio: Option<String>,
    pub public_repos: u32,
    pub public_gists: u32,
    pub followers: u32,
    pub following: u32,
    pub created_at: String,
    pub updated_at: String,
}

/// A session account, made from a GitHub user: its name and mail address.
#[derive(Debug)]
pub struct Account {
    pub name: String,
    pub email: String,
}

impl Account {
    /// The account a GitHub user signs in as.
    pub fn from_user(user: User) -> (a: Account)
        ensures
            a.name@ == user.login@,
            a.email@ == user.email@,
    {
        Account { name: user.login, email: user.email }
    }
}

/// A GitHub e-mail address record.
#[derive(Debug)]
pub struct Email {
    pub email: String,
    pub primary: bool,
    pub verified: bool,
}

/// A successful token exchange: the token, the comma-separated scopes it
/// grants, and its type.
#[derive(Debug)]
pub struct AuthOk {
    pub access_token: String,
    pub scope: String,
    pub token_type: String,
}

/// `[lo, hi)` delimits one comma-separated segment of `s`.
pub open spec fn is_comma_segment(s: Seq<char>, lo: int, hi: int) -> bool {
    &&& 0 <= lo <= hi <= s.len()
    &&& (lo == 0 || s[lo - 1] == ',')
    &&& (hi == s.len() || s[hi] == ',')
    &&& forall|i: int| lo <= i < hi ==> s[i] != ','
}

/// Whether `grant` is one of the comma-separated entries of `scope`.
pub open spec fn spec_has_scope(scope: Seq<char>, grant: Seq<char>) -> bool {
    exists|lo: int, hi: int| is_comma_segment(scope, lo, hi) && scope.subrange(lo, hi) == grant
}

/// Whether `s[start..end]` spells exactly `grant`.
fn segment_matches(s: &str, start: usize, end: usize, grant: &str, m: usize) -> (r: bool)
    requires
        start <= end <= s@.len(),
        m == grant@.len(),
    ensures
        r == (s@.subrange(start as int, end as int) == grant@),
{
    if end - start != m {
        proof {
            assert(s@.subrange(start as int, end as int).len() != grant@.len());
        }
        return false;
    }
    let mut j: usize = 0;
    while j < m
        invariant
            start + m == end,
            end <= s@.len(),
            m == grant@.len(),
            0 <= j <= m,
            forall|k: int| 0 <= k < j ==> s@[start + k] == grant@[k],
        decreases m - j,
    {
        let a = s.get_char(start + j);
        let b = grant.get_char(j);
        if a != b {
            proof {
                assert(s@.subrange(start as int, end as int)[j as int] != grant@[j as int]);
            }
            return false;
        }
        j = j + 1;
    }
    proof {
        assert(s@.subrange(start as int, end as int) =~= grant@);
    }
    true
}

impl AuthOk {
    /// Whether the exchange granted `grant`: true exactly when `grant` is
    /// one of the comma-separated entries of `scope`.
    pub fn has_scope(&self, grant: &str) -> (r: bool)
        ensures
            r == spec_has_scope(self.scope@, grant@),
    {
        let scope: &str = self.scope.as_str();
        let n = scope.unicode_len();
        let m = grant.unicode_len();
        let mut start: usize = 0;
        let mut i: usize = 0;
        while i < n
            invariant
                scope@ == self.scope@,
                n == scope@.len(),
                m == grant@.len(),
                0 <= start <= i <= n,
                start == 0 || (start - 1 < n && scope@[start - 1] == ','),
                forall|j: int| start <= j < i ==> scope@[j] != ',',
                forall|lo: int, hi: int|
                    is_comma_segment(scope@, lo, hi) && hi < i ==> scope@.subrange(lo, hi)
                        != grant@,
            decreases n - i,
        {
            if scope.get_char(i) == ',' {
                proof {
                    assert(is_comma_segment(scope@, start as int, i as int));
                }
                if segment_matches(scope, start, i, grant, m) {
                    proof {
                        assert(spec_has_scope(self.scope@, grant@));
                    }
                    return true;
                }
                proof {
                    assert forall|lo: int, hi: int|
                        is_comma_segment(scope@, lo, hi) && hi < i + 1 implies scope@.subrange(
                        lo,
                        hi,
                    ) != grant@ by {
                        if hi == i {
                            if lo < start {
                                assert(scope@[start - 1] == ',');
                            }
                            if lo > start {
                                assert(scope@[lo - 1] == ',');
                            }
                            assert(lo == start);
                        }
                    }
                }
                start = i + 1;
            }
            i = i + 1;
        }
        proof {
            assert(is_comma_segment(scope@, start as int, n as int));
        }
        if segment_matches(scope, start, n, grant, m) {
            proof {
                assert(spec_has_scope(self.scope@, grant@));
            }
            return true;
        }
        proof {
            assert forall|lo: int, hi: int|
                is_comma_segment(self.scope@, lo, hi) implies self.scope@.subrange(lo, hi)
                != grant@ by {
                if hi == n {
                    if lo < start {
                        assert(scope@[start - 1] == ',');
                    }
                    if lo > start {
                        assert(scope@[lo - 1] == ',');
                    }
                    assert(lo == start);
                }
            }
        }
        false
    }
}

/// A failed token exchange, as GitHub reports it.
#[derive(Debug)]
pub struct AuthErr {
    pub error: String,
    pub error_description: String,
    pub error_uri: String,
}

impl AuthErr {
    /// The failure on one line, for diagnostics.
    pub fn to_text(&self) -> (r: String)
        ensures
            r@ == "err="@ + self.error@ + ", desc="@ + self.error_description@ + ", uri="@
                + self.error_uri@,
    {
        let mut r = String::from_str("err=");
        r.append(self.error.as_str());
        r.append(", desc=");
        r.append(self.error_description.as_str());
        r.append(", uri=");
        r.append(self.error_uri.as_str());
        r
    }
}

/// The two shapes a token-exchange response takes.
#[derive(Debug)]
pub enum AuthResp {
    AuthOk,
    AuthErr,
}

/// Why an authentication attempt failed.
#[derive(Debug)]
pub enum AuthError {
    /// The exchange succeeded but did not grant the named scope.
    MissingScope(String),
    /// GitHub answered with this non-success HTTP status.
    Http(u16),
    /// GitHub reported this error.
    Auth(AuthErr),
    /// The response body parsed as neither a token nor an error report.
    BadResponse,
    /// The response body exceeds the size a token exchange can produce;
    /// it is rejected before any parse.
    TooLarge,
}

/// Characters of response body accepted before parsing. A token exchange
/// answers with a few hundred bytes, so a kibibyte is ample. The bound
/// also caps the JSON parser's recursion, one level per nesting
/// character: a thousand levels fit comfortably in any thread's stack,
/// where tens of thousands would exhaust it.
pub const AUTH_BODY_LIMIT: usize = 1024;

/// The fields of a token response body, if it is one: access token,
/// scope list, token type.
pub uninterp spec fn auth_ok_fields(body: Seq<char>) -> Option<(Seq<char>, Seq<char>, Seq<char>)>;

/// The fields of an error response body, if it is one: error, its
/// description, its reference.
pub uninterp spec fn auth_err_fields(body: Seq<char>) -> Option<(Seq<char>, Seq<char>, Seq<char>)>;

/// Relies on rustc_serialize's JSON parser: a body whose object carries
/// the string fields access_token, scope and token_type yields them; the
/// result depends on the body alone. The parser recurses on nesting, so
/// the input must stay under the size bound that keeps it on the stack.
#[verifier::external_body]
fn parse_auth_ok(body: &str) -> (r: Option<AuthOk>)
    requires
        body@.len() <= AUTH_BODY_LIMIT,
    ensures
        match r {
            Some(a) => auth_ok_fields(body@) == Some((a.access_token@, a.scope@, a.token_type@)),
            None => auth_ok_fields(body@) is None,
        },
{
    let json = rustc_serialize::json::Json::from_str(body).ok()?;
    let access_token = json.find("access_token")?.as_string()?;
    let scope = json.find("scope")?.as_string()?;
    let token_type = json.find("token_type")?.as_string()?;
    Some(AuthOk {
        access_token: access_token.to_string(),
        scope: scope.to_string(),
        token_type: token_type.to_string(),
    })
}

/// Relies on rustc_serialize's JSON parser: a body whose object carries
/// the string fields error, error_description and error_uri yields them;
/// the result depends on the body alone. The parser recurses on nesting,
/// so the input must stay under the size bound that keeps it on the stack.
#[verifier::external_body]
fn parse_auth_err(body: &str) -> (r: Option<AuthErr>)
    requires
        body@.len() <= AUTH_BODY_LIMIT,
    ensures
        match r {
            Some(e) => auth_err_fields(body@) == Some((
                e.error@,
                e.error_description@,
                e.error_uri@,
            )),
            None => auth_err_fields(body@) is None,
        },
{
    let json = rustc_serialize::json::Json::from_str(body).ok()?;
    let error = json.find("error")?.as_string()?;
    let error_description = json.find("error_description")?.as_string()?;
    let error_uri = json.find("error_uri")?.as_string()?;
    Some(AuthErr {
        error: error.to_string(),
        error_description: error_description.to_string(),
        error_uri: error_uri.to_string(),
    })
}

/// What an authentication attempt decided, given GitHub's response to the
/// token exchange.
///
/// A non-success status fails with that status. An oversized body is
/// rejected unparsed. A token response carrying the `user:email` scope
/// yields its token; one without that scope fails with `MissingScope`. A
/// body that is no token response is read as an error report, and failing
/// that rejected outright.
pub fn authenticate_response(status_success: bool, status_code: u16, body: &str) -> (r: Result<
    String,
    AuthError,
>)
    ensures
        !status_success ==> (r matches Err(AuthError::Http(c)) && c == status_code),
        status_success && body@.len() > AUTH_BODY_LIMIT ==> (r matches Err(
            AuthError::TooLarge,
        )),
        status_success && body@.len() <= AUTH_BODY_LIMIT ==> match auth_ok_fields(
            body@,
        ) {
            Some(fields) => {
                if spec_has_scope(fields.1, "user:email"@) {
                    r matches Ok(token) && token@ == fields.0
                } else {
                    r matches Err(AuthError::MissingScope(s)) && s@ == "user:email"@
                }
            },
            None => match auth_err_fields(body@) {
                Some(fields) => r matches Err(AuthError::Auth(e)) && e.error@ == fields.0
                    && e.error_description@ == fields.1 && e.error_uri@ == fields.2,
                None => r matches Err(AuthError::BadResponse),
            },
        },
{
    if !status_success {
        return Err(AuthError::Http(status_code));
    }
    if body.unicode_len() > AUTH_BODY_LIMIT {
        return Err(AuthError::TooLarge);
    }
    match parse_auth_ok(body) {
        Some(msg) => {
            let scope = String::from_str("user:email");
            if msg.has_scope(scope.as_str()) {
                Ok(msg.access_token)
            } else {
                Err(AuthError::MissingScope(scope))
            }
        },
        None => match parse_auth_err(body) {
            Some(err) => Err(AuthError::Auth(err)),
            None => Err(AuthError::BadResponse),
        },
    }
}

} // verus!
