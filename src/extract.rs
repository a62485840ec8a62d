use vstd::prelude::*;

use crate::model::{ExtractFrom, ExtractorType, Extractor, KeyValue};
use crate::store::VarStore;
use crate::client::{lower, lower_chars};
use crate::convert::{header_name_accepted, header_name_is_valid};
use crate::text::{chars_of, str_eq, string_of};

verus! {

/// What `gjson::get(body, path)` renders as text: the first match, or the
/// empty text when nothing matches.
pub uninterp spec fn json_path_of(body: Seq<char>, path: Seq<char>) -> Seq<char>;

/// Relies on `gjson::get` and the `Display` of its value: the scalar text
/// of the first match of `path` in `body`.
#[verifier::external_body]
fn json_path_value(body: &str, path: &str) -> (r: String)
    ensures
        r@ == json_path_of(body@, path@),
{
    gjson::get(body, path).to_string()
}

/// The text of each present group, in order.
pub open spec fn groups_view(g: Seq<Option<String>>) -> Seq<Option<Seq<char>>> {
    g.map_values(|o: Option<String>| match o {
        Some(s) => Some(s@),
        None => None,
    })
}

/// The text of each string, in order.
pub open spec fn texts_view(t: Seq<String>) -> Seq<Seq<char>> {
    t.map_values(|s: String| s@)
}

/// The text of an optional string.
pub open spec fn opt_view(o: Option<String>) -> Option<Seq<char>> {
    match o {
        Some(s) => Some(s@),
        None => None,
    }
}

/// The groups of the leftmost match of `pattern` in `body`, as
/// `regex::Regex::new` and `Regex::captures` give them (group 0, the whole
/// match, first; each present or not); none when the pattern does not
/// compile or does not match.
pub uninterp spec fn regex_groups_of(pattern: Seq<char>, body: Seq<char>) -> Option<Seq<Option<Seq<char>>>>;

/// Relies on `regex::Regex::new` and `Regex::captures`: compiles the
/// pattern and reads the groups of its leftmost match. A match always has
/// group 0.
#[verifier::external_body]
fn regex_groups(pattern: &str, body: &str) -> (r: Option<Vec<Option<String>>>)
    ensures
        match r {
            Some(g) => regex_groups_of(pattern@, body@) == Some(groups_view(g@)) && g@.len() > 0 && g@[0] is Some,
            None => regex_groups_of(pattern@, body@) is None,
        },
{
    match regex::Regex::new(pattern) {
        Ok(re) => re.captures(body).map(|c| c.iter().map(|m| m.map(|x| x.as_str().to_string())).collect()),
        Err(_) => None,
    }
}

/// The value a regex extractor takes from the groups of a match: group 1
/// when the pattern has groups (empty when it did not take part), else
/// the whole match.
pub open spec fn capture_choice(groups: Seq<Option<Seq<char>>>) -> Seq<char> {
    if groups.len() > 1 {
        match groups[1] {
            Some(s) => s,
            None => Seq::empty(),
        }
    } else if groups.len() == 1 {
        match groups[0] {
            Some(s) => s,
            None => Seq::empty(),
        }
    } else {
        Seq::empty()
    }
}

/// Picks the value of a regex extractor out of the groups of a match.
pub fn pick_capture(groups: &Vec<Option<String>>) -> (r: String)
    ensures
        r@ == capture_choice(groups_view(groups@)),
{
    let idx: usize = if groups.len() > 1 { 1 } else { 0 };
    if groups.len() == 0 {
        return String::new();
    }
    match &groups[idx] {
        Some(s) => s.clone(),
        None => String::new(),
    }
}

/// What a regex extractor gives: the chosen group of the first match, or
/// nothing when the pattern does not compile or does not match.
pub open spec fn regex_result(pattern: Seq<char>, body: Seq<char>) -> Option<Seq<char>> {
    match regex_groups_of(pattern, body) {
        Some(g) => Some(capture_choice(g)),
        None => None,
    }
}

/// Runs a regex extractor.
fn regex_value(pattern: &str, body: &str) -> (r: Option<String>)
    ensures
        opt_view(r) == regex_result(pattern@, body@),
{
    match regex_groups(pattern, body) {
        Some(groups) => Some(pick_capture(&groups)),
        None => None,
    }
}

/// The text content of each node an XPath selects in a body parsed as XML,
/// in document order, as libxml gives it; none when the body does not parse
/// or the expression does not evaluate.
pub uninterp spec fn xml_xpath_of(body: Seq<char>, xpath: Seq<char>) -> Option<Seq<Seq<char>>>;

/// The same for a body parsed as HTML.
pub uninterp spec fn html_xpath_of(body: Seq<char>, xpath: Seq<char>) -> Option<Seq<Seq<char>>>;

/// Relies on `libxml::parser::Parser::default` and `parse_string`, then
/// `xpath::Context::new`, `Context::evaluate`, `Object::get_nodes_as_vec`
/// and `Node::get_content`. The expression must hold no NUL character
/// (`evaluate` panics on one).
#[verifier::external_body]
fn xml_xpath_texts(body: &str, xpath: &str) -> (r: Option<Vec<String>>)
    requires
        !xpath@.contains('\0'),
    ensures
        match r {
            Some(t) => xml_xpath_of(body@, xpath@) == Some(texts_view(t@)),
            None => xml_xpath_of(body@, xpath@) is None,
        },
{
    let doc = libxml::parser::Parser::default().parse_string(body).ok()?;
    let found = libxml::xpath::Context::new(&doc).ok()?.evaluate(xpath).ok()?;
    Some(found.get_nodes_as_vec().iter().map(|n| n.get_content()).collect())
}

/// Relies on `libxml::parser::Parser::default_html` and `parse_string`,
/// then the same XPath calls as `xml_xpath_texts`.
#[verifier::external_body]
fn html_xpath_texts(body: &str, xpath: &str) -> (r: Option<Vec<String>>)
    requires
        !xpath@.contains('\0'),
    ensures
        match r {
            Some(t) => html_xpath_of(body@, xpath@) == Some(texts_view(t@)),
            None => html_xpath_of(body@, xpath@) is None,
        },
{
    let doc = libxml::parser::Parser::default_html().parse_string(body).ok()?;
    let found = libxml::xpath::Context::new(&doc).ok()?.evaluate(xpath).ok()?;
    Some(found.get_nodes_as_vec().iter().map(|n| n.get_content()).collect())
}

/// The body looks like an HTML page.
pub open spec fn looks_like_html(body: Seq<char>) -> bool {
    text_contains(body, "<html"@)
}

/// What an XPath extractor gives: the text of the first node selected (the
/// others are ignored); nothing when the expression holds a NUL, the body
/// does not parse, the expression does not evaluate or selects nothing.
/// HTML-looking bodies are parsed as HTML, others as XML.
pub open spec fn xpath_result(body: Seq<char>, xpath: Seq<char>) -> Option<Seq<char>> {
    if xpath.contains('\0') {
        None
    } else {
        let found = if looks_like_html(body) { html_xpath_of(body, xpath) } else { xml_xpath_of(body, xpath) };
        match found {
            Some(t) => if t.len() > 0 { Some(t[0]) } else { None },
            None => None,
        }
    }
}

/// Runs an XPath extractor.
fn xpath_value(body: &str, xpath: &str) -> (r: Option<String>)
    ensures
        opt_view(r) == xpath_result(body@, xpath@),
{
    let v = chars_of(xpath);
    let mut i: usize = 0;
    while i < v.len()
        invariant
            v@ == xpath@,
            i <= v@.len(),
            forall|j: int| 0 <= j < i ==> v@[j] != '\0',
        decreases v@.len() - i,
    {
        if v[i] == '\0' {
            assert(xpath@[i as int] == '\0');
            return None;
        }
        i += 1;
    }
    assert(!xpath@.contains('\0'));
    proof {
        reveal_strlit("<html");
    }
    let found = if str_contains(body, "<html") { html_xpath_texts(body, xpath) } else { xml_xpath_texts(body, xpath) };
    match found {
        Some(texts) => {
            if texts.len() == 0 {
                None
            } else {
                Some(texts[0].clone())
            }
        },
        None => None,
    }
}

/// ASCII letters in lower case, other characters kept.
pub open spec fn lower_char(c: char) -> char {
    if 'A' <= c && c <= 'Z' {
        ((c as u8) + 32) as char
    } else {
        c
    }
}

/// The value of the first header whose name is exactly `key`.
pub open spec fn first_header(headers: Seq<KeyValue>, key: Seq<char>) -> Option<Seq<char>>
    decreases headers.len(),
{
    if headers.len() == 0 {
        None
    } else if headers[0].key@ == key {
        Some(headers[0].value@)
    } else {
        first_header(headers.drop_first(), key)
    }
}

/// The value a response's headers give for `name`, as a header map reads
/// it: `http::HeaderName` must accept the name, which it folds to lower
/// case; the response's names are in lower case already. Without such a
/// header, none.
pub open spec fn header_lookup(headers: Seq<KeyValue>, name: Seq<char>) -> Option<Seq<char>> {
    if header_name_accepted(name) {
        first_header(headers, lower(name))
    } else {
        None
    }
}

/// Finds the header named `name` among the response headers, whose names
/// are in lower case.
pub fn find_header<'a>(headers: &'a Vec<KeyValue>, name: &str) -> (r: Option<&'a String>)
    ensures
        match header_lookup(headers@, name@) {
            Some(v) => r matches Some(s) && s@ == v,
            None => r is None,
        },
{
    if !header_name_is_valid(name) {
        return None;
    }
    let key = string_of(&lower_chars(name));
    let mut i: usize = 0;
    assert(headers@.subrange(0, headers@.len() as int) =~= headers@);
    while i < headers.len()
        invariant
            i <= headers@.len(),
            key@ == lower(name@),
            header_name_accepted(name@),
            first_header(headers@, key@) == first_header(headers@.subrange(i as int, headers@.len() as int), key@),
        decreases headers@.len() - i,
    {
        let ghost rest = headers@.subrange(i as int, headers@.len() as int);
        assert(rest.drop_first() =~= headers@.subrange(i + 1, headers@.len() as int));
        assert(rest[0] == headers@[i as int]);
        if str_eq(headers[i].key.as_str(), key.as_str()) {
            return Some(&headers[i].value);
        }
        i += 1;
    }
    None
}

/// A header extractor is read: its kind is not a body language.
pub open spec fn header_extractor_active(e: Extractor) -> bool {
    e.from == ExtractFrom::Headers && !(e.extractor_type == ExtractorType::GjsonPath || e.extractor_type == ExtractorType::Xpath)
}

/// The store after the bindings of one header extractor, in order: each
/// variable is set to its header's value when the header is present.
pub open spec fn header_bindings(m: Map<Seq<char>, Seq<char>>, headers: Seq<KeyValue>, b: Seq<KeyValue>) -> Map<Seq<char>, Seq<char>>
    decreases b.len(),
{
    if b.len() == 0 {
        m
    } else {
        let m0 = header_bindings(m, headers, b.drop_last());
        match header_lookup(headers, b.last().value@) {
            Some(v) => m0.insert(b.last().key@, v),
            None => m0,
        }
    }
}

/// The store after the header phase: the active header extractors, in order.
pub open spec fn header_phase(m: Map<Seq<char>, Seq<char>>, headers: Seq<KeyValue>, es: Seq<Extractor>) -> Map<Seq<char>, Seq<char>>
    decreases es.len(),
{
    if es.len() == 0 {
        m
    } else {
        let m0 = header_phase(m, headers, es.drop_last());
        if header_extractor_active(es.last()) {
            header_bindings(m0, headers, es.last().extract@)
        } else {
            m0
        }
    }
}

/// Runs the header extractors against the response headers, writing into
/// the worker's variable store.
pub fn execute_header_extractors(headers: &Vec<KeyValue>, extractors: &Vec<Extractor>, store: &mut VarStore)
    requires
        old(store).wf(),
    ensures
        final(store).wf(),
        final(store)@ == header_phase(old(store)@, headers@, extractors@),
{
    let mut i: usize = 0;
    while i < extractors.len()
        invariant
            store.wf(),
            i <= extractors@.len(),
            store@ == header_phase(old(store)@, headers@, extractors@.subrange(0, i as int)),
        decreases extractors@.len() - i,
    {
        let e = &extractors[i];
        let ghost before = store@;
        let active = match e.from {
            ExtractFrom::Headers => match e.extractor_type {
                ExtractorType::GjsonPath => false,
                ExtractorType::Xpath => false,
                _ => true,
            },
            ExtractFrom::Body => false,
        };
        if active {
            let mut k: usize = 0;
            while k < e.extract.len()
                invariant
                    store.wf(),
                    k <= e.extract@.len(),
                    store@ == header_bindings(before, headers@, e.extract@.subrange(0, k as int)),
                decreases e.extract@.len() - k,
            {
                let ghost b = e.extract@.subrange(0, k + 1);
                assert(b.drop_last() =~= e.extract@.subrange(0, k as int));
                match find_header(headers, e.extract[k].value.as_str()) {
                    Some(v) => {
                        store.insert(e.extract[k].key.clone(), v.clone());
                    },
                    None => {},
                }
                k += 1;
            }
            assert(e.extract@.subrange(0, e.extract@.len() as int) =~= e.extract@);
        }
        let ghost es = extractors@.subrange(0, i + 1);
        assert(es.drop_last() =~= extractors@.subrange(0, i as int));
        i += 1;
    }
    assert(extractors@.subrange(0, extractors@.len() as int) =~= extractors@);
}

/// A header extractor of no body language with one binding `k: H` sets `k`
/// to the value of header `H` when the response has it, and changes
/// nothing when it does not.
pub proof fn lemma_single_header_binding(m: Map<Seq<char>, Seq<char>>, headers: Seq<KeyValue>, e: Extractor)
    requires
        e.from == ExtractFrom::Headers,
        e.extractor_type == ExtractorType::Unspecified,
        e.extract@.len() == 1,
    ensures
        header_phase(m, headers, seq![e]) == match header_lookup(headers, e.extract@[0].value@) {
            Some(v) => m.insert(e.extract@[0].key@, v),
            None => m,
        },
{
    let es = seq![e];
    assert(es.drop_last() =~= Seq::<Extractor>::empty());
    assert(es.last() == e);
    assert(header_phase(m, headers, es.drop_last()) == m);
    assert(header_extractor_active(e));
    let b = e.extract@;
    assert(b.drop_last() =~= Seq::<KeyValue>::empty());
    assert(header_bindings(m, headers, b.drop_last()) == m);
    assert(b.last() == b[0]);
}

/// `t` occurs in `s` at position `i`.
pub open spec fn occurs_at(s: Seq<char>, t: Seq<char>, i: int) -> bool {
    0 <= i && i + t.len() <= s.len() && s.subrange(i, i + t.len()) == t
}

/// `t` occurs in `s`.
pub open spec fn text_contains(s: Seq<char>, t: Seq<char>) -> bool {
    exists|i: int| #[trigger] occurs_at(s, t, i)
}

/// Decides `text_contains`.
pub fn str_contains(s: &str, t: &str) -> (r: bool)
    ensures
        r == text_contains(s@, t@),
{
    let a = chars_of(s);
    let b = chars_of(t);
    if b.len() > a.len() {
        assert forall|i: int| !#[trigger] occurs_at(s@, t@, i) by {}
        return false;
    }
    let alen = a.len();
    let last = alen - b.len();
    let mut i: usize = 0;
    loop
        invariant
            a@ == s@,
            b@ == t@,
            alen == a@.len(),
            last + b@.len() == a@.len(),
            i <= last,
            forall|j: int| 0 <= j < i ==> !#[trigger] occurs_at(s@, t@, j),
        ensures
            forall|j: int| 0 <= j <= last ==> !#[trigger] occurs_at(s@, t@, j),
        decreases last - i,
    {
        let mut k: usize = 0;
        let mut same = true;
        while k < b.len()
            invariant
                a@ == s@,
                b@ == t@,
                alen == a@.len(),
                i <= last,
                last + b@.len() == a@.len(),
                k <= b@.len(),
                same == forall|m: int| 0 <= m < k ==> a@[i + m] == b@[m],
            decreases b@.len() - k,
        {
            if a[i + k] != b[k] {
                same = false;
            }
            k += 1;
        }
        if same {
            assert(a@.subrange(i as int, i + b@.len()) =~= b@);
            assert(occurs_at(s@, t@, i as int));
            return true;
        }
        assert(!occurs_at(s@, t@, i as int)) by {
            if occurs_at(s@, t@, i as int) {
                assert forall|m: int| 0 <= m < b@.len() implies a@[i + m] == b@[m] by {
                    assert(a@.subrange(i as int, i + b@.len())[m] == a@[i + m]);
                }
            }
        }
        if i == last {
            break;
        }
        i += 1;
    }
    assert forall|j: int| !#[trigger] occurs_at(s@, t@, j) by {
        if 0 <= j <= last {
        }
    }
    false
}

/// The response is JSON by its content type.
pub open spec fn is_json_type(ct: Seq<char>) -> bool {
    text_contains(ct, seq!['j', 's', 'o', 'n'])
}

/// The response is XML or HTML by its content type (and not JSON).
pub open spec fn is_xml_type(ct: Seq<char>) -> bool {
    !is_json_type(ct) && (text_contains(ct, seq!['x', 'm', 'l']) || text_contains(ct, seq!['h', 't', 'm', 'l']))
}

/// Decides `is_json_type`.
pub fn is_json_response(content_type: &str) -> (r: bool)
    ensures
        r == is_json_type(content_type@),
{
    let j = "json";
    proof {
        reveal_strlit("json");
    }
    assert(j@ =~= seq!['j', 's', 'o', 'n']);
    str_contains(content_type, j)
}

/// Decides `is_xml_type`.
pub fn is_xml_response(content_type: &str) -> (r: bool)
    ensures
        r == is_xml_type(content_type@),
{
    let x = "xml";
    let h = "html";
    proof {
        reveal_strlit("xml");
        reveal_strlit("html");
    }
    assert(x@ =~= seq!['x', 'm', 'l']);
    assert(h@ =~= seq!['h', 't', 'm', 'l']);
    !is_json_response(content_type) && (str_contains(content_type, x) || str_contains(content_type, h))
}

/// The content type of a response: its `content-type` header, or the
/// empty text without one.
pub fn response_content_type(headers: &Vec<KeyValue>) -> (r: String)
    ensures
        match header_lookup(headers@, "content-type"@) {
            Some(v) => r@ == v,
            None => r@.len() == 0,
        },
{
    match find_header(headers, "content-type") {
        Some(v) => v.clone(),
        None => String::new(),
    }
}

/// Some extractor reads the body, so the body has to be read.
pub open spec fn reads_body(es: Seq<Extractor>) -> bool {
    exists|i: int| 0 <= i < es.len() && (#[trigger] es[i]).from == ExtractFrom::Body
}

/// Decides `reads_body`.
pub fn needs_body(extractors: &Vec<Extractor>) -> (r: bool)
    ensures
        r == reads_body(extractors@),
{
    let mut i: usize = 0;
    while i < extractors.len()
        invariant
            i <= extractors@.len(),
            forall|j: int| 0 <= j < i ==> (#[trigger] extractors@[j]).from != ExtractFrom::Body,
        decreases extractors@.len() - i,
    {
        match extractors[i].from {
            ExtractFrom::Body => {
                return true;
            },
            ExtractFrom::Headers => {},
        }
        i += 1;
    }
    false
}

/// One body binding to evaluate: the variable, the pattern language, the
/// pattern.
#[derive(Clone, Debug)]
pub struct BodyJob {
    pub var: String,
    pub kind: ExtractorType,
    pub pattern: String,
}

/// A body extractor runs on a response of this kind: JSON paths on JSON,
/// XPath on XML or HTML, regular expressions on anything; an extractor of
/// no language is invalid on a body.
pub open spec fn body_extractor_runs(e: Extractor, json: bool, xml: bool) -> bool {
    e.from == ExtractFrom::Body && match e.extractor_type {
        ExtractorType::GjsonPath => json,
        ExtractorType::Xpath => xml,
        ExtractorType::RegEx => true,
        ExtractorType::Unspecified => false,
    }
}

/// `jobs` are the bindings, in order, of the body extractors that run.
pub open spec fn jobs_of(es: Seq<Extractor>, json: bool, xml: bool) -> Seq<(Seq<char>, ExtractorType, Seq<char>)>
    decreases es.len(),
{
    if es.len() == 0 {
        Seq::empty()
    } else {
        let rest = jobs_of(es.drop_last(), json, xml);
        let e = es.last();
        if body_extractor_runs(e, json, xml) {
            rest + Seq::new(e.extract@.len(), |k: int| (e.extract@[k].key@, e.extractor_type, e.extract@[k].value@))
        } else {
            rest
        }
    }
}

/// The text view of a job.
pub open spec fn job_view(j: BodyJob) -> (Seq<char>, ExtractorType, Seq<char>) {
    (j.var@, j.kind, j.pattern@)
}

/// The body bindings to evaluate for a response of the given content type.
pub fn body_jobs(extractors: &Vec<Extractor>, content_type: &str) -> (r: Vec<BodyJob>)
    ensures
        r@.map_values(|j: BodyJob| job_view(j)) == jobs_of(extractors@, is_json_type(content_type@), is_xml_type(content_type@)),
{
    let json = is_json_response(content_type);
    let xml = is_xml_response(content_type);
    let mut out: Vec<BodyJob> = Vec::new();
    let mut i: usize = 0;
    while i < extractors.len()
        invariant
            json == is_json_type(content_type@),
            xml == is_xml_type(content_type@),
            i <= extractors@.len(),
            out@.map_values(|j: BodyJob| job_view(j)) == jobs_of(extractors@.subrange(0, i as int), json, xml),
        decreases extractors@.len() - i,
    {
        let e = &extractors[i];
        let ghost before = out@.map_values(|j: BodyJob| job_view(j));
        let runs = match e.from {
            ExtractFrom::Body => match e.extractor_type {
                ExtractorType::GjsonPath => json,
                ExtractorType::Xpath => xml,
                ExtractorType::RegEx => true,
                ExtractorType::Unspecified => false,
            },
            ExtractFrom::Headers => false,
        };
        if runs {
            let mut k: usize = 0;
            while k < e.extract.len()
                invariant
                    k <= e.extract@.len(),
                    out@.map_values(|j: BodyJob| job_view(j)) == before + Seq::new(k as nat, |m: int| (e.extract@[m].key@, e.extractor_type, e.extract@[m].value@)),
                decreases e.extract@.len() - k,
            {
                let ghost prev = out@;
                let job = BodyJob {
                    var: e.extract[k].key.clone(),
                    kind: e.extractor_type,
                    pattern: e.extract[k].value.clone(),
                };
                out.push(job);
                assert(out@ == prev.push(job));
                assert(out@.map_values(|j: BodyJob| job_view(j)) =~= prev.map_values(|j: BodyJob| job_view(j)).push(job_view(job)));
                k += 1;
                assert(out@.map_values(|j: BodyJob| job_view(j)) =~= before + Seq::new(k as nat, |m: int| (e.extract@[m].key@, e.extractor_type, e.extract@[m].value@)));
            }
        }
        let ghost es = extractors@.subrange(0, i + 1);
        assert(es.drop_last() =~= extractors@.subrange(0, i as int));
        assert(es.last() == *e);
        i += 1;
        assert(out@.map_values(|j: BodyJob| job_view(j)) =~= jobs_of(extractors@.subrange(0, i as int), json, xml));
    }
    assert(extractors@.subrange(0, extractors@.len() as int) =~= extractors@);
    out
}

/// The store after writing each present result into its job's variable,
/// in order; an absent result leaves the variable as it was.
pub open spec fn apply_results(m: Map<Seq<char>, Seq<char>>, jobs: Seq<BodyJob>, results: Seq<Option<String>>) -> Map<Seq<char>, Seq<char>>
    decreases jobs.len(),
{
    if jobs.len() == 0 || results.len() != jobs.len() {
        m
    } else {
        let m0 = apply_results(m, jobs.drop_last(), results.drop_last());
        match results.last() {
            Some(v) => m0.insert(jobs.last().var@, v@),
            None => m0,
        }
    }
}

/// A result fits its job: a JSON path always gives the rendering of its
/// first match; XPath and regular expressions give `xpath_result` and
/// `regex_result`; a job of no language gives nothing.
pub open spec fn result_fits(j: BodyJob, body: Seq<char>, r: Option<String>) -> bool {
    match j.kind {
        ExtractorType::GjsonPath => r matches Some(v) && v@ == json_path_of(body, j.pattern@),
        ExtractorType::Xpath => opt_view(r) == xpath_result(body, j.pattern@),
        ExtractorType::RegEx => opt_view(r) == regex_result(j.pattern@, body),
        ExtractorType::Unspecified => r is None,
    }
}

/// Evaluates one job on the body.
pub fn evaluate_job(job: &BodyJob, body: &str) -> (r: Option<String>)
    ensures
        result_fits(*job, body@, r),
{
    match job.kind {
        ExtractorType::GjsonPath => Some(json_path_value(body, job.pattern.as_str())),
        ExtractorType::Xpath => xpath_value(body, job.pattern.as_str()),
        ExtractorType::RegEx => regex_value(job.pattern.as_str(), body),
        ExtractorType::Unspecified => None,
    }
}

/// Writes the results of the body jobs into the store, in order.
pub fn apply_body_results(jobs: &Vec<BodyJob>, results: &Vec<Option<String>>, store: &mut VarStore)
    requires
        old(store).wf(),
        jobs@.len() == results@.len(),
    ensures
        final(store).wf(),
        final(store)@ == apply_results(old(store)@, jobs@, results@),
{
    let mut i: usize = 0;
    while i < jobs.len()
        invariant
            store.wf(),
            jobs@.len() == results@.len(),
            i <= jobs@.len(),
            store@ == apply_results(old(store)@, jobs@.subrange(0, i as int), results@.subrange(0, i as int)),
        decreases jobs@.len() - i,
    {
        let ghost js = jobs@.subrange(0, i + 1);
        let ghost rs = results@.subrange(0, i + 1);
        assert(js.drop_last() =~= jobs@.subrange(0, i as int));
        assert(rs.drop_last() =~= results@.subrange(0, i as int));
        match &results[i] {
            Some(v) => {
                store.insert(jobs[i].var.clone(), v.clone());
            },
            None => {},
        }
        i += 1;
    }
    assert(jobs@.subrange(0, jobs@.len() as int) =~= jobs@);
    assert(results@.subrange(0, results@.len() as int) =~= results@);
}

/// Runs the body jobs (those `body_jobs` gives for the response) on the
/// body, read once, writing each value found into the store in order.
pub fn execute_body_extractors(jobs: &Vec<BodyJob>, body: &str, store: &mut VarStore)
    requires
        old(store).wf(),
    ensures
        final(store).wf(),
        exists|results: Seq<Option<String>>| {
            &&& results.len() == jobs@.len()
            &&& (forall|i: int| 0 <= i < jobs@.len() ==> result_fits(#[trigger] jobs@[i], body@, results[i]))
            &&& final(store)@ == apply_results(old(store)@, jobs@, results)
        },
{
    let mut results: Vec<Option<String>> = Vec::new();
    let mut i: usize = 0;
    while i < jobs.len()
        invariant
            i <= jobs@.len(),
            results@.len() == i,
            forall|j: int| 0 <= j < i ==> result_fits(#[trigger] jobs@[j], body@, results@[j]),
        decreases jobs@.len() - i,
    {
        results.push(evaluate_job(&jobs[i], body));
        i += 1;
    }
    apply_body_results(jobs, &results, store);
}

} // verus!
