//! Signing up: what a new user sends to the service, and where.

use vstd::prelude::*;
use vstd::string::*;

verus! {

/// Why a command could not be set up.
#[derive(Clone, Copy, Debug, PartialEq, Eq, Structural)]
pub enum BencherError {
    /// The address of the service is not one that begins with `http://` or
    /// `https://` and goes on after that.
    Url,
}

/// Whether `text` begins with `prefix`.
pub open spec fn has_prefix(text: Seq<char>, prefix: Seq<char>) -> bool {
    prefix.len() <= text.len() && text.subrange(0, prefix.len() as int) == prefix
}

/// Whether `url` can be the address of the service.
pub open spec fn url_ok(url: Seq<char>) -> bool {
    ||| has_prefix(url, "http://"@) && url.len() > "http://"@.len()
    ||| has_prefix(url, "https://"@) && url.len() > "https://"@.len()
}

/// Whether `text` begins with `prefix`.
pub fn starts_with(text: &str, prefix: &str) -> (b: bool)
    ensures
        b == has_prefix(text@, prefix@),
{
    let n = prefix.unicode_len();
    if n > text.unicode_len() {
        return false;
    }
    let mut i: usize = 0;
    while i < n
        invariant
            i <= n,
            n == prefix@.len(),
            n <= text@.len(),
            forall|k: int| 0 <= k < i ==> text@[k] == prefix@[k],
        decreases n - i,
    {
        if text.get_char(i) != prefix.get_char(i) {
            assert(text@.subrange(0, n as int)[i as int] != prefix@[i as int]);
            return false;
        }
        i += 1;
    }
    assert(text@.subrange(0, n as int) =~= prefix@);
    true
}

/// The service that commands talk to.
#[derive(Debug)]
pub struct Backend {
    /// The address of the service.
    pub url: String,
    /// The token that requests carry, if any.
    pub token: Option<String>,
}

impl Backend {
    /// The service at `url`, or at its usual address where none is given,
    /// talked to with `token`. An address that is no address of the service
    /// is refused.
    pub fn new(token: Option<String>, url: Option<String>) -> (r: Result<Backend, BencherError>)
        ensures
            match url {
                None => r matches Ok(backend) && backend.url@ == "https://api.bencher.dev"@
                    && backend.token == token,
                Some(given) => if url_ok(given@) {
                    r matches Ok(backend) && backend.url == given && backend.token == token
                } else {
                    r == Err::<Backend, BencherError>(BencherError::Url)
                },
            },
    {
        match url {
            None => Ok(Backend { url: String::from_str("https://api.bencher.dev"), token }),
            Some(given) => {
                let n = given.as_str().unicode_len();
                let http = starts_with(given.as_str(), "http://") && n > "http://".unicode_len();
                let https = starts_with(given.as_str(), "https://") && n
                    > "https://".unicode_len();
                if http || https {
                    Ok(Backend { url: given, token })
                } else {
                    Err(BencherError::Url)
                }
            },
        }
    }
}

/// Signing up as asked for on the command line.
#[derive(Debug)]
pub struct CliAuthSignup {
    pub name: String,
    pub slug: Option<String>,
    pub email: String,
    pub url: Option<String>,
}

/// The command that signs a new user up.
#[derive(Debug)]
pub struct Signup {
    pub name: String,
    pub slug: Option<String>,
    pub email: String,
    pub backend: Backend,
}

/// What a new user sends to sign up.
#[derive(Debug)]
pub struct JsonSignup {
    pub name: String,
    pub slug: Option<String>,
    pub email: String,
}

impl Signup {
    /// The command for what was asked on the command line: the same name,
    /// slug and email, and the service at the given address, talked to
    /// without a token. Fails when the address is refused.
    pub fn try_from(signup: CliAuthSignup) -> (r: Result<Signup, BencherError>)
        ensures
            match signup.url {
                None => r matches Ok(command) && command.backend.url@
                    == "https://api.bencher.dev"@,
                Some(given) => if url_ok(given@) {
                    r matches Ok(command) && command.backend.url == given
                } else {
                    r is Err
                },
            },
            r matches Ok(command) ==> command.name == signup.name && command.slug == signup.slug
                && command.email == signup.email && command.backend.token is None,
            r matches Err(e) ==> e == BencherError::Url,
    {
        let CliAuthSignup { name, slug, email, url } = signup;
        let backend = match Backend::new(None, url) {
            Ok(backend) => backend,
            Err(e) => { return Err(e); },
        };
        Ok(Signup { name, slug, email, backend })
    }

    /// The path of the service that signing up is sent to.
    pub fn path() -> (r: &'static str)
        ensures
            r@ == "/v0/auth/signup"@,
    {
        "/v0/auth/signup"
    }

    /// What this command sends.
    pub fn body(&self) -> (json: JsonSignup)
        ensures
            json.name == self.name,
            json.slug == self.slug,
            json.email == self.email,
    {
        JsonSignup {
            name: self.name.clone(),
            slug: match &self.slug {
                Some(slug) => Some(slug.clone()),
                None => None,
            },
            email: self.email.clone(),
        }
    }
}

} // verus!
