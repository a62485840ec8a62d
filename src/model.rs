use vstd::prelude::*;

use crate::store::VarStore;
use crate::substitution::{param_substitution, substitute, lemma_no_marker_unchanged};
use crate::text::{contains_marker, has_marker, ends_with, str_ends_with};

verus! {

/// A name with a value.
#[derive(Clone, Debug)]
pub struct KeyValue {
    pub key: String,
    pub value: String,
}

/// One variable of an environment.
#[derive(Clone, Debug)]
pub struct Env {
    pub key: String,
    pub value: String,
}

/// Authentication of a request: its type and, for `basic`, the credentials
/// as `username` / `password` entries.
#[derive(Clone, Debug)]
pub struct Auth {
    pub auth_type: String,
    pub basic: Vec<KeyValue>,
}

/// Execution configuration of a run.
#[derive(Clone, Debug)]
pub struct Config {
    pub thread_count: u32,
    pub iterations: u64,
    pub execution_time: u64,
    pub think_time: u32,
    pub rampup_time: u32,
    pub handle_cookies: bool,
    pub continue_on_error: bool,
    pub database: Database,
    pub ssl: Ssl,
    pub distributed: bool,
    pub data_file: String,
    pub report_file: String,
}

/// Where statistics are also written: a database kind and how to reach it.
#[derive(Clone, Debug)]
pub struct Database {
    pub db_type: String,
    pub url: String,
    pub user: String,
    pub password: String,
    pub name: String,
}

/// TLS settings of the HTTP client.
#[derive(Clone, Debug)]
pub struct Ssl {
    pub ignore_ssl: bool,
    pub accept_invalid_hostnames: bool,
    pub certificate: String,
    pub keystore: String,
    pub keystore_password: String,
}

/// A request template of a scenario.
#[derive(Clone, Debug)]
pub struct Request {
    pub id: u128,
    pub name: String,
    pub url: String,
    pub method: String,
    pub headers: Vec<KeyValue>,
    pub body: Body,
    pub extractors: Vec<Extractor>,
    pub requires_preprocessing: bool,
}

/// The body of a request template: raw text, url-encoded pairs or form fields.
#[derive(Clone, Debug)]
pub struct Body {
    pub raw: String,
    pub urlencoded: Vec<KeyValue>,
    pub formdata: Vec<FormDataField>,
}

/// One field of a multipart form.
#[derive(Clone, Debug)]
pub struct FormDataField {
    pub name: String,
    pub field_type: FormDataFieldType,
    pub value: String,
    pub mime_type: Option<String>,
}

/// Whether a form field is text or the path of a file to send.
#[derive(Clone, Copy, Debug, PartialEq, Eq, Structural)]
pub enum FormDataFieldType {
    Text,
    File,
}

/// A rule that reads values out of a response into the variable store:
/// each entry of `extract` maps a variable name to a pattern.
#[derive(Clone, Debug)]
pub struct Extractor {
    pub from: ExtractFrom,
    pub extractor_type: ExtractorType,
    pub extract: Vec<KeyValue>,
}

/// The part of a response an extractor reads.
#[derive(Clone, Copy, Debug, PartialEq, Eq, Structural)]
pub enum ExtractFrom {
    Body,
    Headers,
}

/// How an extractor's pattern is read.
#[derive(Clone, Copy, Debug, PartialEq, Eq, Structural)]
pub enum ExtractorType {
    GjsonPath,
    Xpath,
    RegEx,
    /// No pattern language: a header extractor's pattern is the header's name.
    Unspecified,
}

/// Why a configuration is refused.
#[derive(Clone, Copy, Debug, PartialEq, Eq, Structural)]
pub enum ConfigError {
    /// The ramp-up time is zero.
    ZeroRampUp,
    /// The thread count is zero.
    ZeroThreads,
    /// The trusted certificate is neither a `.pem` nor a `.der` file.
    CertificateType,
    /// The client identity is neither a `.p12` nor a `.pfx` file.
    KeystoreType,
    /// Neither an iteration count nor an execution time is given.
    NoBudget,
}

impl ConfigError {
    /// A description of the refusal.
    pub fn description(&self) -> (r: &'static str)
        ensures
            *self == ConfigError::NoBudget ==> r@ == "Both execution time and iterations cannot be 0"@,
    {
        match self {
            ConfigError::ZeroRampUp => "Value cannot be zero",
            ConfigError::ZeroThreads => "Thread count cannot be zero",
            ConfigError::CertificateType => "File should be a .pem or .der file",
            ConfigError::KeystoreType => "File should be a .p12 or .pfx file",
            ConfigError::NoBudget => "Both execution time and iterations cannot be 0",
        }
    }
}

/// The value a missing count takes.
pub fn default_to_one() -> (r: u32)
    ensures
        r == 1,
{
    1
}

/// A certificate path is acceptable: empty, `.der` or `.pem`.
pub open spec fn certificate_ok(p: Seq<char>) -> bool {
    p.len() == 0 || ends_with(p, seq!['.', 'd', 'e', 'r']) || ends_with(p, seq!['.', 'p', 'e', 'm'])
}

/// A keystore path is acceptable: empty, `.p12` or `.pfx`.
pub open spec fn keystore_ok(p: Seq<char>) -> bool {
    p.len() == 0 || ends_with(p, seq!['.', 'p', '1', '2']) || ends_with(p, seq!['.', 'p', 'f', 'x'])
}

/// The first rule that `c` breaks, if any.
pub open spec fn config_error(c: Config) -> Option<ConfigError> {
    if c.rampup_time == 0 {
        Some(ConfigError::ZeroRampUp)
    } else if c.thread_count == 0 {
        Some(ConfigError::ZeroThreads)
    } else if !certificate_ok(c.ssl.certificate@) {
        Some(ConfigError::CertificateType)
    } else if !keystore_ok(c.ssl.keystore@) {
        Some(ConfigError::KeystoreType)
    } else if c.iterations == 0 && c.execution_time == 0 {
        Some(ConfigError::NoBudget)
    } else {
        None
    }
}

/// A configuration that a run can use.
pub open spec fn config_valid(c: Config) -> bool {
    config_error(c) is None
}

fn ends_with_ext(p: &str, a: char, b: char, c: char) -> (r: bool)
    ensures
        r == ends_with(p@, seq!['.', a, b, c]),
{
    let v = crate::text::chars_of(p);
    let n = v.len();
    if n < 4 {
        return false;
    }
    let r = v[n - 4] == '.' && v[n - 3] == a && v[n - 2] == b && v[n - 1] == c;
    assert(r == (v@.subrange(n - 4, n as int) =~= seq!['.', a, b, c]));
    r
}

/// Decides `certificate_ok`.
pub fn check_der_or_pem(path: &str) -> (r: bool)
    ensures
        r == certificate_ok(path@),
{
    path.is_empty() || ends_with_ext(path, 'd', 'e', 'r') || ends_with_ext(path, 'p', 'e', 'm')
}

/// Decides `keystore_ok`.
pub fn check_p12_or_pfx(path: &str) -> (r: bool)
    ensures
        r == keystore_ok(path@),
{
    path.is_empty() || ends_with_ext(path, 'p', '1', '2') || ends_with_ext(path, 'p', 'f', 'x')
}

/// Checks a configuration: `Ok` exactly when it breaks no rule, else the
/// first rule it breaks.
pub fn validate_config(config: &Config) -> (r: Result<(), ConfigError>)
    ensures
        r is Ok <==> config_valid(*config),
        r matches Err(e) ==> config_error(*config) == Some(e),
{
    if config.rampup_time == 0 {
        Err(ConfigError::ZeroRampUp)
    } else if config.thread_count == 0 {
        Err(ConfigError::ZeroThreads)
    } else if !check_der_or_pem(config.ssl.certificate.as_str()) {
        Err(ConfigError::CertificateType)
    } else if !check_p12_or_pfx(config.ssl.keystore.as_str()) {
        Err(ConfigError::KeystoreType)
    } else if config.iterations == 0 && config.execution_time == 0 {
        Err(ConfigError::NoBudget)
    } else {
        Ok(())
    }
}

/// An entry holds the marker in its name or value.
pub open spec fn pair_has_marker(kv: KeyValue) -> bool {
    has_marker(kv.key@) || has_marker(kv.value@)
}

/// Some entry of `s` holds the marker in its name or value.
pub open spec fn pairs_have_marker(s: Seq<KeyValue>) -> bool {
    exists|i: int| 0 <= i < s.len() && #[trigger] pair_has_marker(s[i])
}

/// A form field holds the marker in its name, value or mime type.
pub open spec fn field_has_marker(f: FormDataField) -> bool {
    has_marker(f.name@) || has_marker(f.value@) || (f.mime_type matches Some(m) && has_marker(m@))
}

/// Some extractor holds the marker in one of its bindings.
pub open spec fn extractors_have_marker(s: Seq<Extractor>) -> bool {
    exists|i: int| 0 <= i < s.len() && pairs_have_marker(#[trigger] s[i].extract@)
}

/// Some text field of the template holds the marker `{{`.
pub open spec fn request_has_marker(r: Request) -> bool {
    ||| has_marker(r.name@)
    ||| has_marker(r.url@)
    ||| has_marker(r.method@)
    ||| pairs_have_marker(r.headers@)
    ||| has_marker(r.body.raw@)
    ||| pairs_have_marker(r.body.urlencoded@)
    ||| (exists|i: int| 0 <= i < r.body.formdata@.len() && field_has_marker(#[trigger] r.body.formdata@[i]))
    ||| extractors_have_marker(r.extractors@)
}

fn pairs_contain_marker(s: &Vec<KeyValue>) -> (r: bool)
    ensures
        r == pairs_have_marker(s@),
{
    let mut i: usize = 0;
    while i < s.len()
        invariant
            i <= s@.len(),
            forall|j: int| 0 <= j < i ==> !#[trigger] pair_has_marker(s@[j]),
        decreases s@.len() - i,
    {
        if contains_marker(s[i].key.as_str()) || contains_marker(s[i].value.as_str()) {
            assert(pair_has_marker(s@[i as int]));
            return true;
        }
        i += 1;
    }
    false
}

fn field_contains_marker(f: &FormDataField) -> (r: bool)
    ensures
        r == field_has_marker(*f),
{
    let m = match &f.mime_type {
        Some(m) => contains_marker(m.as_str()),
        None => false,
    };
    contains_marker(f.name.as_str()) || contains_marker(f.value.as_str()) || m
}

/// Decides whether a template needs substitution before each use.
pub fn needs_preprocessing(r: &Request) -> (b: bool)
    ensures
        b == request_has_marker(*r),
{
    if contains_marker(r.name.as_str()) || contains_marker(r.url.as_str()) || contains_marker(r.method.as_str())
        || pairs_contain_marker(&r.headers) || contains_marker(r.body.raw.as_str())
        || pairs_contain_marker(&r.body.urlencoded) {
        return true;
    }
    let mut i: usize = 0;
    while i < r.body.formdata.len()
        invariant
            i <= r.body.formdata@.len(),
            forall|j: int| 0 <= j < i ==> !field_has_marker(#[trigger] r.body.formdata@[j]),
        decreases r.body.formdata@.len() - i,
    {
        if field_contains_marker(&r.body.formdata[i]) {
            return true;
        }
        i += 1;
    }
    let mut k: usize = 0;
    while k < r.extractors.len()
        invariant
            k <= r.extractors@.len(),
            forall|j: int| 0 <= j < k ==> !pairs_have_marker(#[trigger] r.extractors@[j].extract@),
        decreases r.extractors@.len() - k,
    {
        if pairs_contain_marker(&r.extractors[k].extract) {
            return true;
        }
        k += 1;
    }
    false
}

/// Relies on `uuid::Uuid::new_v4` and `Uuid::as_u128`: a random identity.
/// Nothing is promised of its value.
#[verifier::external_body]
fn new_request_id() -> (r: u128) {
    uuid::Uuid::new_v4().as_u128()
}

/// `out` is the template `r` as loaded: a fresh identity, and marked as
/// needing substitution exactly when one of its text fields holds `{{`.
pub open spec fn prepared(out: Request, r: Request) -> bool {
    &&& out.name == r.name
    &&& out.url == r.url
    &&& out.method == r.method
    &&& out.headers == r.headers
    &&& out.body == r.body
    &&& out.extractors == r.extractors
    &&& out.requires_preprocessing == request_has_marker(r)
}

fn contains_id(used: &Vec<u128>, x: u128) -> (r: bool)
    ensures
        r == used@.contains(x),
{
    let mut i: usize = 0;
    while i < used.len()
        invariant
            i <= used@.len(),
            forall|j: int| 0 <= j < i ==> used@[j] != x,
        decreases used@.len() - i,
    {
        if used[i] == x {
            return true;
        }
        i += 1;
    }
    false
}

/// Some entry of `used` equals `x`.
pub open spec fn id_used(used: Seq<u128>, x: int) -> bool {
    exists|j: int| 0 <= j < used.len() && #[trigger] used[j] as int == x
}

/// An identity not among `used`: `drawn` when it is free, else the least
/// free value (one of the first `used.len() + 1` values is free).
fn fresh_id(drawn: u128, used: &Vec<u128>) -> (r: u128)
    ensures
        !used@.contains(r),
{
    if !contains_id(used, drawn) {
        return drawn;
    }
    let n = used.len();
    let mut c: u128 = 0;
    while c <= n as u128
        invariant
            n == used@.len(),
            c <= n + 1,
            forall|x: int| 0 <= x < c ==> #[trigger] id_used(used@, x),
        decreases n + 1 - c,
    {
        if !contains_id(used, c) {
            return c;
        }
        let ghost w = choose|j: int| 0 <= j < used@.len() && used@[j] == c;
        assert(used@[w] as int == c as int);
        assert(id_used(used@, c as int));
        c += 1;
    }
    proof {
        let ids = used@.map_values(|v: u128| v as int);
        let range = vstd::set_lib::set_int_range(0, n + 1);
        assert(range.subset_of(ids.to_set())) by {
            assert forall|x: int| range.contains(x) implies ids.to_set().contains(x) by {
                assert(id_used(used@, x));
                let j = choose|j: int| 0 <= j < used@.len() && #[trigger] used@[j] as int == x;
                assert(ids[j] == x);
            }
        }
        vstd::set_lib::lemma_int_range(0, n + 1);
        ids.lemma_cardinality_of_set();
        vstd::set_lib::lemma_len_subset(range, ids.to_set());
    }
    0
}

/// The identities of `s` are pairwise distinct.
pub open spec fn ids_distinct(s: Seq<Request>) -> bool {
    forall|i: int, j: int| 0 <= i < s.len() && 0 <= j < s.len() && i != j ==> #[trigger] s[i].id != #[trigger] s[j].id
}

/// Gives each template of a scenario its identity (pairwise distinct) and
/// its preprocessing mark, keeping their order.
pub fn prepare_requests(requests: Vec<Request>) -> (out: Vec<Request>)
    ensures
        out@.len() == requests@.len(),
        forall|i: int| 0 <= i < out@.len() ==> prepared(#[trigger] out@[i], requests@[i]),
        ids_distinct(out@),
{
    let mut out: Vec<Request> = Vec::new();
    let mut used: Vec<u128> = Vec::new();
    let mut rest = requests;
    let ghost all = rest@;
    let total = rest.len();
    let mut taken: usize = 0;
    while rest.len() > 0
        invariant
            total == all.len(),
            taken + rest@.len() == all.len(),
            rest@ == all.subrange(taken as int, all.len() as int),
            out@.len() == taken,
            used@.len() == taken,
            forall|i: int| 0 <= i < taken ==> used@[i] == (#[trigger] out@[i]).id,
            forall|i: int| 0 <= i < taken ==> prepared(#[trigger] out@[i], all[i]),
            ids_distinct(out@),
        decreases rest@.len(),
    {
        let r = rest.remove(0);
        let flag = needs_preprocessing(&r);
        let id = fresh_id(new_request_id(), &used);
        let ghost before = out@;
        let ghost used0 = used@;
        out.push(Request {
            id,
            name: r.name,
            url: r.url,
            method: r.method,
            headers: r.headers,
            body: r.body,
            extractors: r.extractors,
            requires_preprocessing: flag,
        });
        used.push(id);
        proof {
            assert forall|i: int, j: int| 0 <= i < out@.len() && 0 <= j < out@.len() && i != j implies
                #[trigger] out@[i].id != #[trigger] out@[j].id by {
                if i == taken {
                    assert(used0[j] == out@[j].id);
                    if used0[j] == id {
                        assert(used0.contains(id));
                    }
                } else if j == taken {
                    assert(used0[i] == out@[i].id);
                    if used0[i] == id {
                        assert(used0.contains(id));
                    }
                } else {
                    assert(out@[i] == before[i] && out@[j] == before[j]);
                }
            }
        }
        taken += 1;
        assert(rest@ =~= all.subrange(taken as int, all.len() as int));
    }
    out
}

/// `out` is `s` with each name and value substituted from `env`.
pub open spec fn pairs_substituted(out: Seq<KeyValue>, s: Seq<KeyValue>, env: Map<Seq<char>, Seq<char>>) -> bool {
    &&& out.len() == s.len()
    &&& forall|i: int| 0 <= i < s.len() ==> {
        &&& (#[trigger] out[i]).key@ == substitute(s[i].key@, env, false)
        &&& out[i].value@ == substitute(s[i].value@, env, false)
    }
}

/// `out` is the form field `f` with its texts substituted from `env`.
pub open spec fn field_substituted(out: FormDataField, f: FormDataField, env: Map<Seq<char>, Seq<char>>) -> bool {
    &&& out.name@ == substitute(f.name@, env, false)
    &&& out.value@ == substitute(f.value@, env, false)
    &&& out.field_type == f.field_type
    &&& (match (out.mime_type, f.mime_type) {
        (Some(a), Some(b)) => a@ == substitute(b@, env, false),
        (None, None) => true,
        _ => false,
    })
}

/// `out` is the extractor `e` with its bindings substituted from `env`.
pub open spec fn extractor_substituted(out: Extractor, e: Extractor, env: Map<Seq<char>, Seq<char>>) -> bool {
    &&& out.from == e.from
    &&& out.extractor_type == e.extractor_type
    &&& pairs_substituted(out.extract@, e.extract@, env)
}

/// `out` is the template `r` with every text field substituted from `env`;
/// its identity, kinds and shape are kept.
pub open spec fn request_substituted(out: Request, r: Request, env: Map<Seq<char>, Seq<char>>) -> bool {
    &&& out.id == r.id
    &&& out.requires_preprocessing == r.requires_preprocessing
    &&& out.name@ == substitute(r.name@, env, false)
    &&& out.url@ == substitute(r.url@, env, false)
    &&& out.method@ == substitute(r.method@, env, false)
    &&& pairs_substituted(out.headers@, r.headers@, env)
    &&& out.body.raw@ == substitute(r.body.raw@, env, false)
    &&& pairs_substituted(out.body.urlencoded@, r.body.urlencoded@, env)
    &&& out.body.formdata@.len() == r.body.formdata@.len()
    &&& (forall|i: int| 0 <= i < r.body.formdata@.len()
        ==> field_substituted(#[trigger] out.body.formdata@[i], r.body.formdata@[i], env))
    &&& out.extractors@.len() == r.extractors@.len()
    &&& (forall|i: int| 0 <= i < r.extractors@.len()
        ==> extractor_substituted(#[trigger] out.extractors@[i], r.extractors@[i], env))
}

fn substitute_pairs(s: &Vec<KeyValue>, env: &VarStore) -> (out: Vec<KeyValue>)
    requires
        env.wf(),
    ensures
        pairs_substituted(out@, s@, env@),
{
    let mut out: Vec<KeyValue> = Vec::new();
    let mut i: usize = 0;
    while i < s.len()
        invariant
            env.wf(),
            i <= s@.len(),
            pairs_substituted(out@, s@.subrange(0, i as int), env@),
        decreases s@.len() - i,
    {
        let key = param_substitution(s[i].key.as_str(), env);
        let value = param_substitution(s[i].value.as_str(), env);
        out.push(KeyValue { key, value });
        i += 1;
        assert(pairs_substituted(out@, s@.subrange(0, i as int), env@)) by {
            assert forall|j: int| 0 <= j < i implies {
                &&& (#[trigger] out@[j]).key@ == substitute(s@.subrange(0, i as int)[j].key@, env@, false)
                &&& out@[j].value@ == substitute(s@.subrange(0, i as int)[j].value@, env@, false)
            } by {
                if j < i - 1 {
                    assert(s@.subrange(0, i - 1)[j] == s@.subrange(0, i as int)[j]);
                }
            }
        }
    }
    assert(s@.subrange(0, s@.len() as int) =~= s@);
    out
}

fn substitute_field(f: &FormDataField, env: &VarStore) -> (out: FormDataField)
    requires
        env.wf(),
    ensures
        field_substituted(out, *f, env@),
{
    let mime_type = match &f.mime_type {
        Some(m) => Some(param_substitution(m.as_str(), env)),
        None => None,
    };
    FormDataField {
        name: param_substitution(f.name.as_str(), env),
        field_type: f.field_type,
        value: param_substitution(f.value.as_str(), env),
        mime_type,
    }
}

/// The template with every text field substituted from the worker's
/// variable store, ready to be turned into a wire request.
pub fn preprocess(request: &Request, env: &VarStore) -> (out: Request)
    requires
        env.wf(),
    ensures
        request_substituted(out, *request, env@),
{
    let mut formdata: Vec<FormDataField> = Vec::new();
    let mut i: usize = 0;
    while i < request.body.formdata.len()
        invariant
            env.wf(),
            i <= request.body.formdata@.len(),
            formdata@.len() == i,
            forall|j: int| 0 <= j < i
                ==> field_substituted(#[trigger] formdata@[j], request.body.formdata@[j], env@),
        decreases request.body.formdata@.len() - i,
    {
        formdata.push(substitute_field(&request.body.formdata[i], env));
        i += 1;
    }
    let mut extractors: Vec<Extractor> = Vec::new();
    let mut k: usize = 0;
    while k < request.extractors.len()
        invariant
            env.wf(),
            k <= request.extractors@.len(),
            extractors@.len() == k,
            forall|j: int| 0 <= j < k
                ==> extractor_substituted(#[trigger] extractors@[j], request.extractors@[j], env@),
        decreases request.extractors@.len() - k,
    {
        let e = &request.extractors[k];
        extractors.push(Extractor {
            from: e.from,
            extractor_type: e.extractor_type,
            extract: substitute_pairs(&e.extract, env),
        });
        k += 1;
    }
    Request {
        id: request.id,
        name: param_substitution(request.name.as_str(), env),
        url: param_substitution(request.url.as_str(), env),
        method: param_substitution(request.method.as_str(), env),
        headers: substitute_pairs(&request.headers, env),
        body: Body {
            raw: param_substitution(request.body.raw.as_str(), env),
            urlencoded: substitute_pairs(&request.body.urlencoded, env),
            formdata,
        },
        extractors,
        requires_preprocessing: request.requires_preprocessing,
    }
}

/// Preprocessing a template that holds no marker gives back a template
/// whose every text field equals the one it came from.
pub proof fn lemma_preprocess_without_marker(out: Request, r: Request, env: Map<Seq<char>, Seq<char>>)
    requires
        request_substituted(out, r, env),
        !request_has_marker(r),
    ensures
        out.name@ == r.name@,
        out.url@ == r.url@,
        out.method@ == r.method@,
        out.body.raw@ == r.body.raw@,
        forall|i: int| 0 <= i < r.headers@.len() ==> {
            &&& (#[trigger] out.headers@[i]).key@ == r.headers@[i].key@
            &&& out.headers@[i].value@ == r.headers@[i].value@
        },
        forall|i: int| 0 <= i < r.body.urlencoded@.len() ==> {
            &&& (#[trigger] out.body.urlencoded@[i]).key@ == r.body.urlencoded@[i].key@
            &&& out.body.urlencoded@[i].value@ == r.body.urlencoded@[i].value@
        },
        forall|i: int| 0 <= i < r.body.formdata@.len() ==> {
            &&& (#[trigger] out.body.formdata@[i]).name@ == r.body.formdata@[i].name@
            &&& out.body.formdata@[i].value@ == r.body.formdata@[i].value@
        },
{
    lemma_no_marker_unchanged(r.name@, env, false);
    lemma_no_marker_unchanged(r.url@, env, false);
    lemma_no_marker_unchanged(r.method@, env, false);
    lemma_no_marker_unchanged(r.body.raw@, env, false);
    assert forall|i: int| 0 <= i < r.headers@.len() implies {
        &&& (#[trigger] out.headers@[i]).key@ == r.headers@[i].key@
        &&& out.headers@[i].value@ == r.headers@[i].value@
    } by {
        assert(!pair_has_marker(r.headers@[i]));
        lemma_no_marker_unchanged(r.headers@[i].key@, env, false);
        lemma_no_marker_unchanged(r.headers@[i].value@, env, false);
    }
    assert forall|i: int| 0 <= i < r.body.urlencoded@.len() implies {
        &&& (#[trigger] out.body.urlencoded@[i]).key@ == r.body.urlencoded@[i].key@
        &&& out.body.urlencoded@[i].value@ == r.body.urlencoded@[i].value@
    } by {
        assert(!pair_has_marker(r.body.urlencoded@[i]));
        lemma_no_marker_unchanged(r.body.urlencoded@[i].key@, env, false);
        lemma_no_marker_unchanged(r.body.urlencoded@[i].value@, env, false);
    }
    assert forall|i: int| 0 <= i < r.body.formdata@.len() implies {
        &&& (#[trigger] out.body.formdata@[i]).name@ == r.body.formdata@[i].name@
        &&& out.body.formdata@[i].value@ == r.body.formdata@[i].value@
    } by {
        assert(field_substituted(out.body.formdata@[i], r.body.formdata@[i], env));
        assert(!field_has_marker(r.body.formdata@[i]));
        lemma_no_marker_unchanged(r.body.formdata@[i].name@, env, false);
        lemma_no_marker_unchanged(r.body.formdata@[i].value@, env, false);
    }
}

} // verus!
