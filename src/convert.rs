use vstd::prelude::*;

use crate::model::{
    request_substituted, preprocess, Body, FormDataField, FormDataFieldType, KeyValue, Request,
};
use crate::store::VarStore;
use crate::text::{chars_of, string_of_range};

verus! {

broadcast use vstd::std_specs::hash::group_hash_axioms;

/// A character `http::Method::from_bytes` accepts in a method (its
/// `METHOD_CHARS` table).
pub open spec fn method_char(c: char) -> bool {
    ||| c == '!' || c == '*' || c == '+' || c == '-' || c == '.'
    ||| ('0' <= c && c <= '9') || ('A' <= c && c <= 'Z') || ('a' <= c && c <= 'z')
    ||| c == '^' || c == '_' || c == '`' || c == '|' || c == '~'
}

/// A character `http::HeaderName::from_bytes` accepts in a name (its
/// `HEADER_CHARS` table; upper-case letters are folded to lower case).
pub open spec fn header_name_char(c: char) -> bool {
    method_char(c) || c == '"' || c == '#' || c == '$' || c == '%' || c == '&' || c == '\''
}

/// A character whose UTF-8 bytes `http::HeaderValue::from_str` accepts:
/// a tab, or a byte of at least 32 other than 127.
pub open spec fn header_value_char(c: char) -> bool {
    c == '\t' || (c as u32 >= 32 && c as u32 != 127)
}

/// `http::Method::from_str` accepts the text: non-empty, all method
/// characters.
pub open spec fn method_accepted(m: Seq<char>) -> bool {
    m.len() > 0 && forall|i: int| 0 <= i < m.len() ==> method_char(#[trigger] m[i])
}

/// The longest header name `http` accepts.
pub const MAX_HEADER_NAME_LEN: usize = 65535;

/// `http::header::HeaderName::from_str` accepts the text: between one and
/// `MAX_HEADER_NAME_LEN` name characters.
pub open spec fn header_name_accepted(n: Seq<char>) -> bool {
    0 < n.len() <= MAX_HEADER_NAME_LEN && forall|i: int| 0 <= i < n.len() ==> header_name_char(#[trigger] n[i])
}

/// `http::header::HeaderValue::from_str` accepts the text.
pub open spec fn header_value_accepted(v: Seq<char>) -> bool {
    forall|i: int| 0 <= i < v.len() ==> header_value_char(#[trigger] v[i])
}

fn is_method_char(c: char) -> (r: bool)
    ensures
        r == method_char(c),
{
    c == '!' || c == '*' || c == '+' || c == '-' || c == '.' || (c >= '0' && c <= '9') || (c >= 'A' && c <= 'Z')
        || (c >= 'a' && c <= 'z') || c == '^' || c == '_' || c == '`' || c == '|' || c == '~'
}

fn is_header_name_char(c: char) -> (r: bool)
    ensures
        r == header_name_char(c),
{
    is_method_char(c) || c == '"' || c == '#' || c == '$' || c == '%' || c == '&' || c == '\''
}

fn is_header_value_char(c: char) -> (r: bool)
    ensures
        r == header_value_char(c),
{
    c == '\t' || ((c as u32) >= 32 && (c as u32) != 127)
}

/// Decides `method_accepted`.
pub fn method_is_valid(m: &str) -> (r: bool)
    ensures
        r == method_accepted(m@),
{
    let v = chars_of(m);
    if v.len() == 0 {
        return false;
    }
    let mut i: usize = 0;
    while i < v.len()
        invariant
            v@ == m@,
            i <= v@.len(),
            forall|j: int| 0 <= j < i ==> method_char(#[trigger] v@[j]),
        decreases v@.len() - i,
    {
        if !is_method_char(v[i]) {
            return false;
        }
        i += 1;
    }
    true
}

/// Decides `header_name_accepted`.
pub fn header_name_is_valid(n: &str) -> (r: bool)
    ensures
        r == header_name_accepted(n@),
{
    let v = chars_of(n);
    if v.len() == 0 || v.len() > MAX_HEADER_NAME_LEN {
        return false;
    }
    let mut i: usize = 0;
    while i < v.len()
        invariant
            v@ == n@,
            i <= v@.len(),
            forall|j: int| 0 <= j < i ==> header_name_char(#[trigger] v@[j]),
        decreases v@.len() - i,
    {
        if !is_header_name_char(v[i]) {
            return false;
        }
        i += 1;
    }
    true
}

/// Decides `header_value_accepted`.
pub fn header_value_is_valid(t: &str) -> (r: bool)
    ensures
        r == header_value_accepted(t@),
{
    let v = chars_of(t);
    let mut i: usize = 0;
    while i < v.len()
        invariant
            v@ == t@,
            i <= v@.len(),
            forall|j: int| 0 <= j < i ==> header_value_char(#[trigger] v@[j]),
        decreases v@.len() - i,
    {
        if !is_header_value_char(v[i]) {
            return false;
        }
        i += 1;
    }
    true
}

/// Whether reqwest takes the text as a request url: `url::Url::parse`
/// accepts it and the url has a host (what reqwest's `IntoUrl` asks).
pub uninterp spec fn url_accepted(u: Seq<char>) -> bool;

/// Relies on `url::Url::parse` and `Url::has_host`, the two checks reqwest
/// makes of a url given as text.
#[verifier::external_body]
fn url_is_valid(u: &str) -> (r: bool)
    ensures
        r == url_accepted(u@),
{
    url::Url::parse(u).map_or(false, |x| x.has_host())
}

/// The mime type of a file part whose type is not declared.
pub open spec fn default_mime() -> Seq<char> {
    seq!['a', 'p', 'p', 'l', 'i', 'c', 'a', 't', 'i', 'o', 'n', '/', 'o', 'c', 't', 'e', 't', '-', 's', 't', 'r', 'e', 'a', 'm']
}

/// The last `/`-separated segment of a path.
pub open spec fn last_segment(p: Seq<char>) -> Seq<char>
    decreases p.len(),
{
    if p.len() == 0 || p.last() == '/' {
        Seq::empty()
    } else {
        last_segment(p.drop_last()).push(p.last())
    }
}

/// The file name of a path: what follows its last `/`.
pub fn get_file_name(path: &str) -> (r: String)
    ensures
        r@ == last_segment(path@),
{
    let v = chars_of(path);
    let mut start = v.len();
    assert(v@.subrange(0, start as int) =~= v@);
    assert(v@.subrange(start as int, v@.len() as int) =~= Seq::<char>::empty());
    while start > 0 && v[start - 1] != '/'
        invariant
            start <= v@.len(),
            v@ == path@,
            last_segment(v@) == last_segment(v@.subrange(0, start as int)) + v@.subrange(start as int, v@.len() as int),
        decreases start,
    {
        let ghost p = v@.subrange(0, start as int);
        assert(p.drop_last() =~= v@.subrange(0, start - 1));
        assert(v@.subrange(start - 1, v@.len() as int) =~= seq![p.last()] + v@.subrange(start as int, v@.len() as int));
        start -= 1;
    }
    proof {
        let p = v@.subrange(0, start as int);
        assert(last_segment(p) =~= Seq::<char>::empty());
        assert(last_segment(v@.subrange(0, v@.len() as int)) == last_segment(v@)) by {
            assert(v@.subrange(0, v@.len() as int) =~= v@);
        }
    }
    string_of_range(&v, start, v.len())
}

/// One part of a multipart body: text, or a file to stream.
#[derive(Clone, Debug)]
pub struct FormPart {
    pub name: String,
    pub is_file: bool,
    /// The text, or the path of the file.
    pub value: String,
    pub file_name: String,
    pub mime_type: String,
}

/// The body of a wire request.
#[derive(Clone, Debug)]
pub enum WireBody {
    Empty,
    Raw(String),
    UrlEncoded(Vec<KeyValue>),
    Multipart(Vec<FormPart>),
}

/// A request ready to be sent.
#[derive(Clone, Debug)]
pub struct WireRequest {
    pub method: String,
    pub url: String,
    pub headers: Vec<KeyValue>,
    pub body: WireBody,
}

/// Why a template could not become a wire request.
#[derive(Clone, Copy, Debug, PartialEq, Eq, Structural)]
pub enum ConvertError {
    /// The method is not an HTTP method token.
    Method,
    /// A header name is not acceptable.
    HeaderName,
    /// A header value is not acceptable.
    HeaderValue,
    /// The url cannot be parsed, or names no host.
    Url,
}

/// `a` and `b` hold the same entries, compared by their text.
pub open spec fn same_pairs(a: Seq<KeyValue>, b: Seq<KeyValue>) -> bool {
    a.len() == b.len() && forall|i: int| 0 <= i < a.len() ==> #[trigger] a[i].key@ == b[i].key@ && a[i].value@ == b[i].value@
}

/// `p` is the multipart part for the form field `f`.
pub open spec fn part_of(p: FormPart, f: FormDataField) -> bool {
    &&& p.name@ == f.name@
    &&& p.value@ == f.value@
    &&& p.is_file == (f.field_type == FormDataFieldType::File)
    &&& p.is_file ==> p.file_name@ == last_segment(f.value@) && p.mime_type@ == (match f.mime_type {
        Some(m) => m@,
        None => default_mime(),
    })
    &&& !p.is_file ==> p.file_name@.len() == 0 && p.mime_type@.len() == 0
}

/// `w` is the body the template body `b` gives: raw text if any, else the
/// form fields if any, else the url-encoded pairs if any, else nothing.
pub open spec fn body_of(w: WireBody, b: Body) -> bool {
    if b.raw@.len() > 0 {
        w matches WireBody::Raw(s) && s@ == b.raw@
    } else if b.formdata@.len() > 0 {
        w matches WireBody::Multipart(ps) && ps@.len() == b.formdata@.len()
            && forall|i: int| 0 <= i < ps@.len() ==> part_of(#[trigger] ps@[i], b.formdata@[i])
    } else if b.urlencoded@.len() > 0 {
        w matches WireBody::UrlEncoded(kv) && same_pairs(kv@, b.urlencoded@)
    } else {
        w is Empty
    }
}

/// The headers of the template are all acceptable.
pub open spec fn headers_accepted(h: Seq<KeyValue>) -> bool {
    forall|i: int| 0 <= i < h.len() ==> header_name_accepted(#[trigger] h[i].key@) && header_value_accepted(h[i].value@)
}

/// The first problem of the template, if any: its method, then its headers
/// in order (a header's name before its value), then its url.
pub open spec fn convert_error(r: Request) -> Option<ConvertError> {
    if !method_accepted(r.method@) {
        Some(ConvertError::Method)
    } else if headers_error(r.headers@, 0) is Some {
        headers_error(r.headers@, 0)
    } else if !url_accepted(r.url@) {
        Some(ConvertError::Url)
    } else {
        None
    }
}

/// The first problem among the headers from position `i` on.
pub open spec fn headers_error(h: Seq<KeyValue>, i: int) -> Option<ConvertError>
    decreases h.len() - i,
{
    if i < 0 || i >= h.len() {
        None
    } else if !header_name_accepted(h[i].key@) {
        Some(ConvertError::HeaderName)
    } else if !header_value_accepted(h[i].value@) {
        Some(ConvertError::HeaderValue)
    } else {
        headers_error(h, i + 1)
    }
}

/// `w` is the wire request that the template `r` gives.
pub open spec fn wire_of(w: WireRequest, r: Request) -> bool {
    &&& w.method@ == r.method@
    &&& w.url@ == r.url@
    &&& same_pairs(w.headers@, r.headers@)
    &&& body_of(w.body, r.body)
}

/// `res` is what converting the template `r` gives.
pub open spec fn converted(res: Result<WireRequest, ConvertError>, r: Request) -> bool {
    match convert_error(r) {
        Some(e) => res == Err::<WireRequest, ConvertError>(e),
        None => res matches Ok(w) && wire_of(w, r),
    }
}

/// Two wire requests with the same text everywhere.
pub open spec fn same_wire(a: WireRequest, b: WireRequest) -> bool {
    &&& a.method@ == b.method@
    &&& a.url@ == b.url@
    &&& same_pairs(a.headers@, b.headers@)
    &&& match (a.body, b.body) {
        (WireBody::Empty, WireBody::Empty) => true,
        (WireBody::Raw(x), WireBody::Raw(y)) => x@ == y@,
        (WireBody::UrlEncoded(x), WireBody::UrlEncoded(y)) => same_pairs(x@, y@),
        (WireBody::Multipart(x), WireBody::Multipart(y)) => x@.len() == y@.len() && forall|i: int|
            0 <= i < x@.len() ==> same_part(#[trigger] x@[i], y@[i]),
        _ => false,
    }
}

/// Two parts with the same text everywhere.
pub open spec fn same_part(a: FormPart, b: FormPart) -> bool {
    a.name@ == b.name@ && a.is_file == b.is_file && a.value@ == b.value@ && a.file_name@ == b.file_name@
        && a.mime_type@ == b.mime_type@
}

/// A wire request can be copied and so kept in the cache: its body is not
/// a multipart stream.
pub open spec fn cacheable(w: WireRequest) -> bool {
    !(w.body is Multipart)
}

fn copy_pairs(s: &Vec<KeyValue>) -> (r: Vec<KeyValue>)
    ensures
        same_pairs(r@, s@),
{
    let mut r: Vec<KeyValue> = Vec::new();
    let mut i: usize = 0;
    while i < s.len()
        invariant
            i <= s@.len(),
            r@.len() == i,
            forall|j: int| 0 <= j < i ==> #[trigger] r@[j].key@ == s@[j].key@ && r@[j].value@ == s@[j].value@,
        decreases s@.len() - i,
    {
        r.push(KeyValue { key: s[i].key.clone(), value: s[i].value.clone() });
        i += 1;
    }
    r
}

fn copy_part(p: &FormPart) -> (r: FormPart)
    ensures
        same_part(r, *p),
{
    FormPart {
        name: p.name.clone(),
        is_file: p.is_file,
        value: p.value.clone(),
        file_name: p.file_name.clone(),
        mime_type: p.mime_type.clone(),
    }
}

impl WireRequest {
    /// A copy with the same text everywhere.
    pub fn duplicate(&self) -> (r: WireRequest)
        ensures
            same_wire(r, *self),
    {
        let body = match &self.body {
            WireBody::Empty => WireBody::Empty,
            WireBody::Raw(s) => WireBody::Raw(s.clone()),
            WireBody::UrlEncoded(kv) => WireBody::UrlEncoded(copy_pairs(kv)),
            WireBody::Multipart(ps) => {
                let mut out: Vec<FormPart> = Vec::new();
                let mut i: usize = 0;
                while i < ps.len()
                    invariant
                        i <= ps@.len(),
                        out@.len() == i,
                        forall|j: int| 0 <= j < i ==> same_part(#[trigger] out@[j], ps@[j]),
                    decreases ps@.len() - i,
                {
                    out.push(copy_part(&ps[i]));
                    i += 1;
                }
                WireBody::Multipart(out)
            },
        };
        WireRequest {
            method: self.method.clone(),
            url: self.url.clone(),
            headers: copy_pairs(&self.headers),
            body,
        }
    }

    /// Whether this request may be kept in the cache.
    pub fn is_cacheable(&self) -> (r: bool)
        ensures
            r == cacheable(*self),
    {
        match &self.body {
            WireBody::Multipart(_) => false,
            _ => true,
        }
    }
}

fn part_for(f: &FormDataField) -> (p: FormPart)
    ensures
        part_of(p, *f),
{
    match f.field_type {
        FormDataFieldType::Text => FormPart {
            name: f.name.clone(),
            is_file: false,
            value: f.value.clone(),
            file_name: String::new(),
            mime_type: String::new(),
        },
        FormDataFieldType::File => {
            let mime_type = match &f.mime_type {
                Some(m) => m.clone(),
                None => {
                    let s = String::from_str("application/octet-stream");
                    proof {
                        reveal_strlit("application/octet-stream");
                    }
                    assert(s@ =~= default_mime());
                    s
                },
            };
            FormPart {
                name: f.name.clone(),
                is_file: true,
                value: f.value.clone(),
                file_name: get_file_name(f.value.as_str()),
                mime_type,
            }
        },
    }
}

fn convert_body(b: &Body) -> (w: WireBody)
    ensures
        body_of(w, *b),
{
    if !b.raw.as_str().is_empty() {
        return WireBody::Raw(b.raw.clone());
    }
    if b.formdata.len() > 0 {
        let mut out: Vec<FormPart> = Vec::new();
        let mut i: usize = 0;
        while i < b.formdata.len()
            invariant
                i <= b.formdata@.len(),
                out@.len() == i,
                forall|j: int| 0 <= j < i ==> part_of(#[trigger] out@[j], b.formdata@[j]),
            decreases b.formdata@.len() - i,
        {
            out.push(part_for(&b.formdata[i]));
            i += 1;
        }
        WireBody::Multipart(out)
    } else if b.urlencoded.len() > 0 {
        WireBody::UrlEncoded(copy_pairs(&b.urlencoded))
    } else {
        WireBody::Empty
    }
}

fn check_headers(h: &Vec<KeyValue>) -> (r: Result<(), ConvertError>)
    ensures
        match headers_error(h@, 0) {
            Some(e) => r == Err::<(), ConvertError>(e),
            None => r is Ok,
        },
{
    let mut i: usize = 0;
    while i < h.len()
        invariant
            i <= h@.len(),
            headers_error(h@, 0) == headers_error(h@, i as int),
        decreases h@.len() - i,
    {
        if !header_name_is_valid(h[i].key.as_str()) {
            return Err(ConvertError::HeaderName);
        }
        if !header_value_is_valid(h[i].value.as_str()) {
            return Err(ConvertError::HeaderValue);
        }
        i += 1;
    }
    Ok(())
}

/// Assembles the wire request of a template: method, url, headers, and the
/// body by the policy of `body_of`. Fails on the first unacceptable method,
/// header or url.
pub fn convert_request(request: &Request) -> (r: Result<WireRequest, ConvertError>)
    ensures
        converted(r, *request),
{
    if !method_is_valid(request.method.as_str()) {
        return Err(ConvertError::Method);
    }
    match check_headers(&request.headers) {
        Err(e) => Err(e),
        Ok(()) => if !url_is_valid(request.url.as_str()) {
            Err(ConvertError::Url)
        } else {
            Ok(WireRequest {
            method: request.method.clone(),
            url: request.url.clone(),
            headers: copy_pairs(&request.headers),
            body: convert_body(&request.body),
            })
        },
    }
}

/// Wire requests of templates that need no substitution, by template id.
pub struct RequestCache {
    map: std::collections::HashMap<u128, WireRequest>,
    misses: Ghost<Map<u128, nat>>,
}

impl RequestCache {
    /// What the cache holds, by template id.
    pub closed spec fn view(&self) -> Map<u128, WireRequest> {
        self.map@
    }

    /// How many times each template was converted on a cache miss.
    pub closed spec fn misses(&self) -> Map<u128, nat> {
        self.misses@
    }

    /// An empty cache.
    pub fn new() -> (r: RequestCache)
        ensures
            r@ == Map::<u128, WireRequest>::empty(),
            r.misses() == Map::<u128, nat>::empty(),
    {
        RequestCache { map: std::collections::HashMap::new(), misses: Ghost(Map::empty()) }
    }

    /// The number of cached requests.
    pub fn len(&self) -> (n: usize)
        ensures
            n as nat == self@.len(),
    {
        self.map.len()
    }

    /// Whether the cache holds a request for `id`.
    pub fn contains(&self, id: u128) -> (r: bool)
        ensures
            r == self@.contains_key(id),
    {
        self.map.contains_key(&id)
    }

    fn count_miss(&mut self, id: u128)
        ensures
            final(self)@ == old(self)@,
            final(self).misses() == old(self).misses().insert(id, miss_count(old(self).misses(), id) + 1),
    {
        proof {
            self.misses@ = self.misses@.insert(id, miss_count(self.misses@, id) + 1);
        }
    }

    fn lookup(&self, id: u128) -> (r: Option<WireRequest>)
        ensures
            r is Some <==> self@.contains_key(id),
            r matches Some(w) ==> same_wire(w, self@[id]),
    {
        match self.map.get(&id) {
            Some(w) => Some(w.duplicate()),
            None => None,
        }
    }

    fn store(&mut self, id: u128, w: WireRequest)
        ensures
            final(self)@ == old(self)@.insert(id, w),
            final(self).misses() == old(self).misses(),
    {
        self.map.insert(id, w);
    }
}

/// `res` is what processing the template `r` gives with the variable store
/// `env`, moving the cache from `c0` to `c1`:
/// - a template that needs substitution is substituted, then converted,
///   and the cache is not touched;
/// - otherwise a cached request is copied (a hit, no conversion);
/// - otherwise the template is converted, and the result is cached when it
///   can be copied.
pub open spec fn processed(
    c0: Map<u128, WireRequest>,
    c1: Map<u128, WireRequest>,
    r: Request,
    env: Map<Seq<char>, Seq<char>>,
    res: Result<WireRequest, ConvertError>,
) -> bool {
    if r.requires_preprocessing {
        &&& c1 == c0
        &&& exists|t: Request| request_substituted(t, r, env) && converted(res, t)
    } else if c0.contains_key(r.id) {
        &&& c1 == c0
        &&& res matches Ok(w) && same_wire(w, c0[r.id])
    } else {
        &&& converted(res, r)
        &&& match res {
            Ok(w) => if cacheable(w) {
                &&& c1.dom() == c0.dom().insert(r.id)
                &&& same_wire(c1[r.id], w)
                &&& forall|k: u128| k != r.id && #[trigger] c0.contains_key(k) ==> c1[k] == c0[k]
            } else {
                c1 == c0
            },
            Err(_) => c1 == c0,
        }
    }
}

/// The misses counted for `id`.
pub open spec fn miss_count(m: Map<u128, nat>, id: u128) -> nat {
    if m.contains_key(id) {
        m[id]
    } else {
        0
    }
}

/// The miss counts after processing `r` with the cache `c`: one more for
/// a template that needs no substitution and is not cached.
pub open spec fn miss_step(m: Map<u128, nat>, c: Map<u128, WireRequest>, r: Request) -> Map<u128, nat> {
    if !r.requires_preprocessing && !c.contains_key(r.id) {
        m.insert(r.id, miss_count(m, r.id) + 1)
    } else {
        m
    }
}

/// Every cached request can be copied.
pub open spec fn cache_wf(c: Map<u128, WireRequest>) -> bool {
    forall|k: u128| #[trigger] c.contains_key(k) ==> cacheable(c[k])
}

impl RequestCache {
    /// Every cached request can be copied.
    pub open spec fn wf(&self) -> bool {
        cache_wf(self@)
    }
}

/// Turns a template into a wire request for one use by a worker, going
/// through the cache for templates that need no substitution.
pub fn process_request(request: &Request, env: &VarStore, cache: &mut RequestCache) -> (r: Result<WireRequest, ConvertError>)
    requires
        env.wf(),
        old(cache).wf(),
    ensures
        final(cache).wf(),
        processed(old(cache)@, final(cache)@, *request, env@, r),
        final(cache).misses() == miss_step(old(cache).misses(), old(cache)@, *request),
{
    if request.requires_preprocessing {
        let t = preprocess(request, env);
        let r = convert_request(&t);
        return r;
    }
    match cache.lookup(request.id) {
        Some(w) => Ok(w),
        None => {
            cache.count_miss(request.id);
            let r = convert_request(request);
            match r {
                Ok(w) => {
                    if w.is_cacheable() {
                        let copy = w.duplicate();
                        assert(cacheable(copy));
                        cache.store(request.id, copy);
                        assert(final(cache)@.dom() =~= old(cache)@.dom().insert(request.id));
                    }
                    Ok(w)
                },
                Err(e) => Err(e),
            }
        },
    }
}

/// The template needs no substitution, converts, and gives a request that
/// can be copied (its body is not a multipart stream).
pub open spec fn template_cacheable(r: Request) -> bool {
    !r.requires_preprocessing && convert_error(r) is None && (r.body.raw@.len() > 0 || r.body.formdata@.len() == 0)
}

/// Over any run of `process_request` calls on one shared cache (templates
/// with distinct ids, in any interleaving of workers), a template that
/// needs no substitution and gives a request that can be copied is
/// converted at most once; every other use is a cache hit.
pub proof fn lemma_at_most_one_conversion(
    caches: Seq<Map<u128, WireRequest>>,
    misses: Seq<Map<u128, nat>>,
    calls: Seq<Request>,
    envs: Seq<Map<Seq<char>, Seq<char>>>,
    results: Seq<Result<WireRequest, ConvertError>>,
    r: Request,
)
    requires
        caches.len() == calls.len() + 1,
        misses.len() == calls.len() + 1,
        envs.len() == calls.len(),
        results.len() == calls.len(),
        template_cacheable(r),
        !caches[0].contains_key(r.id),
        miss_count(misses[0], r.id) == 0,
        forall|i: int| 0 <= i < calls.len() && (#[trigger] calls[i]).id == r.id ==> calls[i] == r,
        forall|i: int| 0 <= i < calls.len() ==> processed(caches[i], caches[i + 1], #[trigger] calls[i], envs[i], results[i]),
        forall|i: int| 0 <= i < calls.len() ==> misses[i + 1] == miss_step(misses[i], caches[i], #[trigger] calls[i]),
    ensures
        miss_count(misses.last(), r.id) <= 1,
{
    lemma_one_conversion_upto(caches, misses, calls, envs, results, r, calls.len() as int);
}

proof fn lemma_one_conversion_upto(
    caches: Seq<Map<u128, WireRequest>>,
    misses: Seq<Map<u128, nat>>,
    calls: Seq<Request>,
    envs: Seq<Map<Seq<char>, Seq<char>>>,
    results: Seq<Result<WireRequest, ConvertError>>,
    r: Request,
    k: int,
)
    requires
        caches.len() == calls.len() + 1,
        misses.len() == calls.len() + 1,
        envs.len() == calls.len(),
        results.len() == calls.len(),
        0 <= k <= calls.len(),
        template_cacheable(r),
        !caches[0].contains_key(r.id),
        miss_count(misses[0], r.id) == 0,
        forall|i: int| 0 <= i < calls.len() && (#[trigger] calls[i]).id == r.id ==> calls[i] == r,
        forall|i: int| 0 <= i < calls.len() ==> processed(caches[i], caches[i + 1], #[trigger] calls[i], envs[i], results[i]),
        forall|i: int| 0 <= i < calls.len() ==> misses[i + 1] == miss_step(misses[i], caches[i], #[trigger] calls[i]),
    ensures
        (miss_count(misses[k], r.id) == 0 && !caches[k].contains_key(r.id))
            || (miss_count(misses[k], r.id) == 1 && caches[k].contains_key(r.id)),
    decreases k,
{
    if k > 0 {
        let i = k - 1;
        lemma_one_conversion_upto(caches, misses, calls, envs, results, r, i);
        let q = calls[i];
        assert(processed(caches[i], caches[i + 1], q, envs[i], results[i]));
        assert(misses[i + 1] == miss_step(misses[i], caches[i], q));
        if q.id == r.id {
            assert(q == r);
            if !caches[i].contains_key(r.id) {
                assert(caches[i + 1].dom() == caches[i].dom().insert(r.id));
                assert(caches[i + 1].contains_key(r.id));
            }
        } else {
            if caches[i].contains_key(r.id) && !q.requires_preprocessing && !caches[i].contains_key(q.id) {
                match results[i] {
                    Ok(w) => {
                        if cacheable(w) {
                            assert(caches[i + 1].dom() == caches[i].dom().insert(q.id));
                            assert(caches[i + 1].dom().contains(r.id));
                        }
                    },
                    Err(_) => {},
                }
            }
            if !caches[i].contains_key(r.id) && !q.requires_preprocessing && !caches[i].contains_key(q.id) {
                match results[i] {
                    Ok(w) => {
                        if cacheable(w) {
                            assert(caches[i + 1].dom() == caches[i].dom().insert(q.id));
                            assert(!caches[i + 1].dom().contains(r.id));
                        }
                    },
                    Err(_) => {},
                }
            }
        }
    }
}

/// Once a template that needs no substitution has been turned into a
/// request that can be copied, every later use of it is a cache hit: it
/// gives the same request and leaves the cache as it is.
pub proof fn lemma_cache_hit_after_first(
    c0: Map<u128, WireRequest>,
    c1: Map<u128, WireRequest>,
    c2: Map<u128, WireRequest>,
    r: Request,
    env1: Map<Seq<char>, Seq<char>>,
    env2: Map<Seq<char>, Seq<char>>,
    first: Result<WireRequest, ConvertError>,
    second: Result<WireRequest, ConvertError>,
)
    requires
        !r.requires_preprocessing,
        processed(c0, c1, r, env1, first),
        processed(c1, c2, r, env2, second),
        first matches Ok(w) && cacheable(w),
    ensures
        c1.contains_key(r.id),
        c2 == c1,
        second matches Ok(w2) && same_wire(w2, c1[r.id]),
{
    if !c0.contains_key(r.id) {
        assert(c1.dom().contains(r.id));
    }
}

} // verus!
