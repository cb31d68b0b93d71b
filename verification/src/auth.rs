//! Credentials and access tokens.

use crate::text::same_text;
use vstd::prelude::*;
use vstd::string::*;

verus! {

/// A credentials file, read as the login of a user.
pub struct AdcCredentials {
    pub client_id: String,
    pub client_secret: String,
    pub refresh_token: String,
    pub cred_type: String,
    pub quota_project_id: Option<String>,
}

/// A credentials file, read as the key of a service account.
pub struct ServiceAccountKey {
    pub client_email: String,
    pub private_key: String,
    pub token_uri: String,
    pub cred_type: String,
    pub quota_project_id: Option<String>,
}

/// What it takes to get an access token.
pub enum Credentials {
    /// The login of a user.
    User { client_id: String, client_secret: String, refresh_token: String },
    /// The key of a service account.
    ServiceAccount { client_email: String, private_key: String, token_uri: String },
}

/// Where the credentials file is.
pub enum CredentialsPath {
    /// At this path.
    Explicit(String),
    /// At the usual place under this home directory.
    UnderHome(String),
}

/// Why there are no credentials.
pub enum CredentialsError {
    Unreadable { path: String, cause: String },
    Malformed { cause: String },
    Unsupported { cred_type: String },
}

/// Why there is no access token.
pub enum TokenError {
    /// The request for it cannot be signed.
    Unsigned { cause: String },
    Unreachable { cause: String },
    Refused { body: String },
    Malformed { cause: String },
}

/// The text that tells about missing credentials.
pub open spec fn credentials_error_text(error: CredentialsError) -> Seq<char> {
    match error {
        CredentialsError::Unreadable { path, cause } => "Cannot read credentials at "@ + path@
            + ": "@ + cause@ + "\nRun: gcloud auth application-default login"@,
        CredentialsError::Malformed { cause } => "Failed to parse credentials: "@ + cause@,
        CredentialsError::Unsupported { cred_type } => "Unsupported credential type '"@ + cred_type@
            + "'. Expected 'authorized_user'.\nRun: gcloud auth application-default login"@,
    }
}

impl CredentialsError {
    /// The text that tells about missing credentials.
    pub fn message(&self) -> (text: String)
        ensures
            text@ == credentials_error_text(*self),
    {
        match self {
            CredentialsError::Unreadable { path, cause } => {
                let mut text = "Cannot read credentials at ".to_owned();
                text.append(path.as_str());
                text.append(": ");
                text.append(cause.as_str());
                text.append("\nRun: gcloud auth application-default login");
                text
            },
            CredentialsError::Malformed { cause } => {
                let mut text = "Failed to parse credentials: ".to_owned();
                text.append(cause.as_str());
                text
            },
            CredentialsError::Unsupported { cred_type } => {
                let mut text = "Unsupported credential type '".to_owned();
                text.append(cred_type.as_str());
                text.append(
                    "'. Expected 'authorized_user'.\nRun: gcloud auth application-default login",
                );
                text
            },
        }
    }
}

/// The text that tells about a missing access token.
pub open spec fn token_error_text(error: TokenError) -> Seq<char> {
    match error {
        TokenError::Unsigned { cause } => "Failed to sign token request: "@ + cause@,
        TokenError::Unreachable { cause } => "Token refresh request failed: "@ + cause@,
        TokenError::Refused { body } => "Token refresh failed: "@ + body@,
        TokenError::Malformed { cause } => "Failed to parse token response: "@ + cause@,
    }
}

impl TokenError {
    /// The text that tells about a missing access token.
    pub fn message(&self) -> (text: String)
        ensures
            text@ == token_error_text(*self),
    {
        match self {
            TokenError::Unsigned { cause } => {
                let mut text = "Failed to sign token request: ".to_owned();
                text.append(cause.as_str());
                text
            },
            TokenError::Unreachable { cause } => {
                let mut text = "Token refresh request failed: ".to_owned();
                text.append(cause.as_str());
                text
            },
            TokenError::Refused { body } => {
                let mut text = "Token refresh failed: ".to_owned();
                text.append(body.as_str());
                text
            },
            TokenError::Malformed { cause } => {
                let mut text = "Failed to parse token response: ".to_owned();
                text.append(cause.as_str());
                text
            },
        }
    }
}

/// Where the credentials file is: at the path that the environment gives, or else
/// under the home directory, or else under `/root`.
pub fn credentials_path(explicit: Option<String>, home: Option<String>) -> (path: CredentialsPath)
    ensures
        match path {
            CredentialsPath::Explicit(p) => explicit == Some(p),
            CredentialsPath::UnderHome(h) => explicit is None && h@ == match home {
                Some(dir) => dir@,
                None => "/root"@,
            },
        },
{
    match explicit {
        Some(path) => CredentialsPath::Explicit(path),
        None => match home {
            Some(dir) => CredentialsPath::UnderHome(dir),
            None => CredentialsPath::UnderHome("/root".to_owned()),
        },
    }
}

/// The file is the key of a service account.
pub open spec fn is_account_key(key: Option<ServiceAccountKey>) -> bool {
    key matches Some(k) && k.cred_type@ == "service_account"@
}

/// The credentials in a file, and the project that it names. `login` is the file
/// read as the login of a user, or the text that tells why it cannot be read so;
/// `key` is the file read as the key of a service account, where it can be. The
/// login of a user and the key of a service account can be used.
pub fn accept_credentials(
    login: Result<AdcCredentials, String>,
    key: Option<ServiceAccountKey>,
) -> (accepted: Result<(Credentials, Option<String>), CredentialsError>)
    ensures
        is_account_key(key) ==> accepted == Ok::<(Credentials, Option<String>), CredentialsError>(
            (
                Credentials::ServiceAccount {
                    client_email: key->0.client_email,
                    private_key: key->0.private_key,
                    token_uri: key->0.token_uri,
                },
                key->0.quota_project_id,
            ),
        ),
        !is_account_key(key) ==> match login {
            Ok(file) => if file.cred_type@ == "authorized_user"@ {
                accepted == Ok::<(Credentials, Option<String>), CredentialsError>(
                    (
                        Credentials::User {
                            client_id: file.client_id,
                            client_secret: file.client_secret,
                            refresh_token: file.refresh_token,
                        },
                        file.quota_project_id,
                    ),
                )
            } else {
                accepted == Err::<(Credentials, Option<String>), CredentialsError>(
                    CredentialsError::Unsupported { cred_type: file.cred_type },
                )
            },
            Err(cause) => accepted == Err::<(Credentials, Option<String>), CredentialsError>(
                CredentialsError::Malformed { cause },
            ),
        },
{
    if let Some(k) = key {
        if same_text(k.cred_type.as_str(), "service_account") {
            let credentials = Credentials::ServiceAccount {
                client_email: k.client_email,
                private_key: k.private_key,
                token_uri: k.token_uri,
            };
            return Ok((credentials, k.quota_project_id));
        }
    }
    match login {
        Ok(file) => if same_text(file.cred_type.as_str(), "authorized_user") {
            let credentials = Credentials::User {
                client_id: file.client_id,
                client_secret: file.client_secret,
                refresh_token: file.refresh_token,
            };
            Ok((credentials, file.quota_project_id))
        } else {
            Err(CredentialsError::Unsupported { cred_type: file.cred_type })
        },
        Err(cause) => Err(CredentialsError::Malformed { cause }),
    }
}

/// Where access tokens are asked for: a service account's key says it.
pub fn token_url(credentials: &Credentials) -> (url: String)
    ensures
        url@ == match *credentials {
            Credentials::User { .. } => "https://oauth2.googleapis.com/token"@,
            Credentials::ServiceAccount { token_uri, .. } => token_uri@,
        },
{
    match credentials {
        Credentials::User { .. } => "https://oauth2.googleapis.com/token".to_owned(),
        Credentials::ServiceAccount { token_uri, .. } => token_uri.clone(),
    }
}

/// The form that asks for an access token, as keys and values. A service account
/// sends the signed `assertion`; a user's login does without.
pub open spec fn refresh_fields(credentials: Credentials, assertion: Seq<char>) -> Seq<
    (Seq<char>, Seq<char>),
> {
    match credentials {
        Credentials::User { client_id, client_secret, refresh_token } => seq![
            ("client_id"@, client_id@),
            ("client_secret"@, client_secret@),
            ("refresh_token"@, refresh_token@),
            ("grant_type"@, "refresh_token"@),
        ],
        Credentials::ServiceAccount { .. } => seq![
            ("grant_type"@, "urn:ietf:params:oauth:grant-type:jwt-bearer"@),
            ("assertion"@, assertion),
        ],
    }
}

/// The views of a list of keys and values.
pub open spec fn pairs_view(pairs: Seq<(String, String)>) -> Seq<(Seq<char>, Seq<char>)> {
    pairs.map_values(|p: (String, String)| (p.0@, p.1@))
}

/// The form that asks for an access token, with the signed `assertion` where a
/// service account asks.
pub fn refresh_form(credentials: &Credentials, assertion: &str) -> (fields: Vec<(String, String)>)
    ensures
        pairs_view(fields@) == refresh_fields(*credentials, assertion@),
{
    let mut fields: Vec<(String, String)> = Vec::new();
    match credentials {
        Credentials::User { client_id, client_secret, refresh_token } => {
            fields.push(("client_id".to_owned(), client_id.clone()));
            fields.push(("client_secret".to_owned(), client_secret.clone()));
            fields.push(("refresh_token".to_owned(), refresh_token.clone()));
            fields.push(("grant_type".to_owned(), "refresh_token".to_owned()));
        },
        Credentials::ServiceAccount { .. } => {
            fields.push(
                (
                    "grant_type".to_owned(),
                    "urn:ietf:params:oauth:grant-type:jwt-bearer".to_owned(),
                ),
            );
            fields.push(("assertion".to_owned(), assertion.to_owned()));
        },
    }
    assert(pairs_view(fields@) =~= refresh_fields(*credentials, assertion@));
    fields
}

/// How long before it expires a token is no longer used, in seconds.
pub const EXPIRY_MARGIN: u64 = 60;

/// The nanoseconds of a second.
pub const SECOND: u128 = 1_000_000_000;

/// For how many nanoseconds a token is used that expires in `expires_in` seconds.
pub open spec fn usable_for(expires_in: u64) -> nat {
    if expires_in > EXPIRY_MARGIN {
        ((expires_in - EXPIRY_MARGIN) * SECOND) as nat
    } else {
        0
    }
}

/// The access token that was last obtained, with the time until which it is used.
/// Times are nanoseconds on a clock that does not go back.
pub struct TokenCache {
    pub token: Option<(String, u128)>,
}

impl TokenCache {
    /// The cache before a token was obtained.
    pub fn new() -> (cache: TokenCache)
        ensures
            cache.token is None,
    {
        TokenCache { token: None }
    }

    /// The token that can be used at the time `now`.
    pub open spec fn usable_at(self, now: u128) -> Option<Seq<char>> {
        match self.token {
            Some((token, until)) => if now < until {
                Some(token@)
            } else {
                None
            },
            None => None,
        }
    }

    /// The token that can be used at the time `now`; without one a new token has to
    /// be obtained.
    pub fn lookup(&self, now: u128) -> (token: Option<String>)
        ensures
            crate::text::opt_view(token) == self.usable_at(now),
    {
        match &self.token {
            Some((token, until)) => if now < *until {
                Some(token.clone())
            } else {
                None
            },
            None => None,
        }
    }

    /// Keeps a token that was obtained at the time `now` and expires in
    /// `expires_in` seconds.
    pub fn store(&mut self, token: &str, expires_in: u64, now: u128)
        requires
            now + usable_for(expires_in) <= u128::MAX,
        ensures
            final(self).token matches Some((kept, until)) && kept@ == token@ && until == now
                + usable_for(expires_in),
    {
        let seconds = expires_in.saturating_sub(EXPIRY_MARGIN);
        let until = now + seconds as u128 * SECOND;
        self.token = Some((token.to_owned(), until));
    }
}

/// A token is handed out as long as it has more than a minute left, and not in the
/// last minute before it expires, nor after that.
pub proof fn law_token_is_fresh(
    cache: TokenCache,
    token: Seq<char>,
    expires_in: u64,
    stored: u128,
    now: u128,
)
    requires
        cache.token matches Some((kept, until)) && kept@ == token && until == stored + usable_for(
            expires_in,
        ),
        stored <= now,
    ensures
        now + EXPIRY_MARGIN * SECOND < stored + expires_in * SECOND ==> cache.usable_at(now)
            == Some(token),
        now + EXPIRY_MARGIN * SECOND >= stored + expires_in * SECOND ==> cache.usable_at(now)
            is None,
{
}

/// A failure to read the credentials says where they were looked for and why they
/// could not be read; one to understand them, why not; one to accept them, of which
/// type they are.
pub proof fn law_credentials_errors(path: String, cause: String)
    ensures
        credentials_error_text(CredentialsError::Unreadable { path, cause })
            == "Cannot read credentials at "@ + path@ + ": "@ + cause@
            + "\nRun: gcloud auth application-default login"@,
        credentials_error_text(CredentialsError::Malformed { cause })
            == "Failed to parse credentials: "@ + cause@,
        credentials_error_text(CredentialsError::Unsupported { cred_type: cause })
            == "Unsupported credential type '"@ + cause@
            + "'. Expected 'authorized_user'.\nRun: gcloud auth application-default login"@,
{
}

/// A failure to get a token says in which step and why.
pub proof fn law_token_errors(cause: String)
    ensures
        token_error_text(TokenError::Unsigned { cause }) == "Failed to sign token request: "@
            + cause@,
        token_error_text(TokenError::Unreachable { cause }) == "Token refresh request failed: "@
            + cause@,
        token_error_text(TokenError::Refused { body: cause }) == "Token refresh failed: "@ + cause@,
        token_error_text(TokenError::Malformed { cause }) == "Failed to parse token response: "@
            + cause@,
{
}

/// A user's login sends its id, its secret and its refresh token, and nothing of an
/// assertion.
pub proof fn law_login_form(
    client_id: String,
    client_secret: String,
    refresh_token: String,
    assertion: Seq<char>,
)
    ensures
        ({
            let login = Credentials::User { client_id, client_secret, refresh_token };
            let fields = refresh_fields(login, assertion);
            &&& fields.len() == 4
            &&& fields.contains(("client_id"@, client_id@))
            &&& fields.contains(("client_secret"@, client_secret@))
            &&& fields.contains(("refresh_token"@, refresh_token@))
            &&& fields.contains(("grant_type"@, "refresh_token"@))
        }),
{
    let login = Credentials::User { client_id, client_secret, refresh_token };
    let fields = refresh_fields(login, assertion);
    assert(fields[0] == ("client_id"@, client_id@));
    assert(fields[1] == ("client_secret"@, client_secret@));
    assert(fields[2] == ("refresh_token"@, refresh_token@));
    assert(fields[3] == ("grant_type"@, "refresh_token"@));
}

/// A service account sends the assertion, and nothing of its key.
pub proof fn law_account_form(
    client_email: String,
    private_key: String,
    token_uri: String,
    assertion: Seq<char>,
)
    ensures
        ({
            let account = Credentials::ServiceAccount { client_email, private_key, token_uri };
            let fields = refresh_fields(account, assertion);
            &&& fields.len() == 2
            &&& fields.contains(("grant_type"@, "urn:ietf:params:oauth:grant-type:jwt-bearer"@))
            &&& fields.contains(("assertion"@, assertion))
        }),
{
    let account = Credentials::ServiceAccount { client_email, private_key, token_uri };
    let fields = refresh_fields(account, assertion);
    assert(fields[0] == ("grant_type"@, "urn:ietf:params:oauth:grant-type:jwt-bearer"@));
    assert(fields[1] == ("assertion"@, assertion));
}

/// A file is a service account's key exactly when it can be read as one and says so.
pub proof fn law_account_keys(key: ServiceAccountKey)
    ensures
        is_account_key(Some(key)) <==> key.cred_type@ == "service_account"@,
        !is_account_key(None),
{
}

/// A token is used until a minute before it expires, and handed out unchanged until
/// then; without one nothing is handed out.
pub proof fn law_tokens_are_used_in_time(token: String, until: u128, now: u128, expires_in: u64)
    ensures
        expires_in <= 60 ==> usable_for(expires_in) == 0,
        expires_in >= 60 ==> usable_for(expires_in) == (expires_in - 60) * 1_000_000_000,
        now < until ==> (TokenCache { token: Some((token, until)) }).usable_at(now) == Some(token@),
        now >= until ==> (TokenCache { token: Some((token, until)) }).usable_at(now) is None,
        (TokenCache { token: None }).usable_at(now) is None,
{
}

} // verus!
