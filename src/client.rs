use vstd::prelude::*;

use crate::extract::lower_char;
use crate::model::{Auth, Config, KeyValue};
use crate::stats::{base64_of, encoded_credentials};
use crate::text::{chars_of, ends_with, str_eq};

verus! {

/// The encoding of a trusted certificate file.
#[derive(Clone, Copy, Debug, PartialEq, Eq, Structural)]
pub enum CertFormat {
    Der,
    Pem,
}

/// How the HTTP client of a run is to be built.
#[derive(Clone, Debug)]
pub struct ClientPlan {
    pub cookie_store: bool,
    pub accept_invalid_certs: bool,
    pub accept_invalid_hostnames: bool,
    /// A certificate to trust, with its encoding.
    pub root_certificate: Option<(String, CertFormat)>,
    /// A PKCS#12 client identity and its password.
    pub identity: Option<(String, String)>,
}

/// Why the TLS settings cannot be used.
#[derive(Clone, Copy, Debug, PartialEq, Eq, Structural)]
pub enum TlsError {
    /// The certificate is neither `.pem` nor `.der` (in any case).
    CertificateType,
}

/// `s` with ASCII letters in lower case.
pub open spec fn lower(s: Seq<char>) -> Seq<char> {
    s.map_values(|c: char| lower_char(c))
}

/// The characters of `s` with ASCII letters in lower case.
pub fn lower_chars(s: &str) -> (r: Vec<char>)
    ensures
        r@ == lower(s@),
{
    let v = chars_of(s);
    let mut out: Vec<char> = Vec::new();
    let mut i: usize = 0;
    while i < v.len()
        invariant
            v@ == s@,
            i <= v@.len(),
            out@ == v@.subrange(0, i as int).map_values(|c: char| lower_char(c)),
        decreases v@.len() - i,
    {
        let c = v[i];
        let l = if c >= 'A' && c <= 'Z' { ((c as u8) + 32) as char } else { c };
        out.push(l);
        i += 1;
        assert(out@ =~= v@.subrange(0, i as int).map_values(|c: char| lower_char(c)));
    }
    assert(v@.subrange(0, v@.len() as int) =~= v@);
    out
}

fn chars_end_with(v: &Vec<char>, a: char, b: char, c: char) -> (r: bool)
    ensures
        r == ends_with(v@, seq!['.', a, b, c]),
{
    let n = v.len();
    if n < 4 {
        return false;
    }
    let r = v[n - 4] == '.' && v[n - 3] == a && v[n - 2] == b && v[n - 1] == c;
    assert(r == (v@.subrange(n - 4, n as int) =~= seq!['.', a, b, c]));
    r
}

/// The plan for the client of `config`: cookies when asked; with
/// certificate checks off nothing else is set; otherwise invalid host names
/// when asked, the trusted certificate (its encoding by its extension, in
/// any case) and the client identity when given.
pub fn client_plan(config: &Config) -> (r: Result<ClientPlan, TlsError>)
    ensures
        config.ssl.ignore_ssl ==> (r matches Ok(p) && p.cookie_store == config.handle_cookies
            && p.accept_invalid_certs && !p.accept_invalid_hostnames && p.root_certificate is None
            && p.identity is None),
        !config.ssl.ignore_ssl ==> {
            let cert = lower(config.ssl.certificate@);
            let der = ends_with(cert, ".der"@);
            let pem = ends_with(cert, ".pem"@);
            &&& (r is Err <==> config.ssl.certificate@.len() > 0 && !der && !pem)
            &&& r matches Ok(p) ==> {
                &&& p.cookie_store == config.handle_cookies
                &&& !p.accept_invalid_certs
                &&& p.accept_invalid_hostnames == config.ssl.accept_invalid_hostnames
                &&& (config.ssl.certificate@.len() == 0 <==> p.root_certificate is None)
                &&& p.root_certificate matches Some((path, f)) ==> path@ == config.ssl.certificate@
                    && f == (if der { CertFormat::Der } else { CertFormat::Pem })
                &&& (config.ssl.keystore@.len() == 0 <==> p.identity is None)
                &&& p.identity matches Some((path, pw)) ==> path@ == config.ssl.keystore@
                    && pw@ == config.ssl.keystore_password@
            }
        },
{
    if config.ssl.ignore_ssl {
        return Ok(ClientPlan {
            cookie_store: config.handle_cookies,
            accept_invalid_certs: true,
            accept_invalid_hostnames: false,
            root_certificate: None,
            identity: None,
        });
    }
    proof {
        reveal_strlit(".der");
        reveal_strlit(".pem");
    }
    assert(".der"@ =~= seq!['.', 'd', 'e', 'r']);
    assert(".pem"@ =~= seq!['.', 'p', 'e', 'm']);
    let root_certificate = if config.ssl.certificate.as_str().is_empty() {
        None
    } else {
        let low = lower_chars(config.ssl.certificate.as_str());
        if chars_end_with(&low, 'd', 'e', 'r') {
            Some((config.ssl.certificate.clone(), CertFormat::Der))
        } else if chars_end_with(&low, 'p', 'e', 'm') {
            Some((config.ssl.certificate.clone(), CertFormat::Pem))
        } else {
            return Err(TlsError::CertificateType);
        }
    };
    let identity = if config.ssl.keystore.as_str().is_empty() {
        None
    } else {
        Some((config.ssl.keystore.clone(), config.ssl.keystore_password.clone()))
    };
    Ok(ClientPlan {
        cookie_store: config.handle_cookies,
        accept_invalid_certs: false,
        accept_invalid_hostnames: config.ssl.accept_invalid_hostnames,
        root_certificate,
        identity,
    })
}

/// The value of the first entry named `key`, if any.
pub open spec fn first_value(s: Seq<KeyValue>, key: Seq<char>) -> Option<Seq<char>>
    decreases s.len(),
{
    if s.len() == 0 {
        None
    } else if s[0].key@ == key {
        Some(s[0].value@)
    } else {
        first_value(s.drop_first(), key)
    }
}

fn find_value<'a>(s: &'a Vec<KeyValue>, key: &str) -> (r: Option<&'a String>)
    ensures
        match first_value(s@, key@) {
            Some(v) => r matches Some(x) && x@ == v,
            None => r is None,
        },
{
    let mut i: usize = 0;
    assert(s@.subrange(0, s@.len() as int) =~= s@);
    while i < s.len()
        invariant
            i <= s@.len(),
            first_value(s@, key@) == first_value(s@.subrange(i as int, s@.len() as int), key@),
        decreases s@.len() - i,
    {
        let ghost rest = s@.subrange(i as int, s@.len() as int);
        assert(rest.drop_first() =~= s@.subrange(i + 1, s@.len() as int));
        if str_eq(s[i].key.as_str(), key) {
            return Some(&s[i].value);
        }
        i += 1;
    }
    None
}

/// A request's authentication and the headers it is sent with.
#[derive(Clone, Debug)]
pub struct AuthTarget {
    pub auth: Auth,
    pub headers: Vec<KeyValue>,
}

/// The headers after applying `auth`: for `basic` authentication with a
/// username and a password, an `authorization` header holding the base64
/// encoding of `username:password` is added.
pub open spec fn auth_applied(auth: Auth, before: Seq<KeyValue>, after: Seq<KeyValue>) -> bool {
    match (first_value(auth.basic@, "username"@), first_value(auth.basic@, "password"@)) {
        (Some(u), Some(p)) => if auth.auth_type@ == "basic"@ {
            &&& after.drop_last() == before
            &&& after.len() == before.len() + 1
            &&& after.last().key@ == "authorization"@
            &&& after.last().value@ == base64_of(u + seq![':'] + p)
        } else {
            after == before
        },
        _ => after == before,
    }
}

/// Adds the authorization header to each item whose authentication
/// is `basic` and names a username and a password.
pub fn massage(items: &mut Vec<AuthTarget>)
    ensures
        final(items)@.len() == old(items)@.len(),
        forall|i: int| 0 <= i < old(items)@.len() ==> auth_applied(
            old(items)@[i].auth,
            old(items)@[i].headers@,
            (#[trigger] final(items)@[i]).headers@,
        ) && final(items)@[i].auth == old(items)@[i].auth,
{
    let mut i: usize = 0;
    while i < items.len()
        invariant
            i <= items@.len(),
            items@.len() == old(items)@.len(),
            forall|j: int| i <= j < items@.len() ==> #[trigger] items@[j] == old(items)@[j],
            forall|j: int| 0 <= j < i ==> auth_applied(old(items)@[j].auth, old(items)@[j].headers@, (#[trigger] items@[j]).headers@)
                && items@[j].auth == old(items)@[j].auth,
        decreases items@.len() - i,
    {
        let user = find_value(&items[i].auth.basic, "username");
        let pass = find_value(&items[i].auth.basic, "password");
        let is_basic = str_eq(items[i].auth.auth_type.as_str(), "basic");
        match (user, pass) {
            (Some(u), Some(p)) => {
                if is_basic {
                    let value = encoded_credentials(u.as_str(), p.as_str());
                    let ghost s0 = items@;
                    let mut item = items.remove(i);
                    let ghost h0 = item.headers@;
                    item.headers.push(KeyValue { key: String::from_str("authorization"), value });
                    assert(item.headers@.drop_last() =~= h0);
                    items.insert(i, item);
                    assert forall|j: int| 0 <= j < items@.len() && j != i implies #[trigger] items@[j] == s0[j] by {
                        if j < i {
                            assert(items@[j] == s0[j]);
                        } else {
                            assert(items@[j] == s0[j]);
                        }
                    }
                }
            },
            _ => {},
        }
        i += 1;
    }
}

} // verus!
