use vstd::prelude::*;

use crate::store::VarStore;
use crate::text::{append_chars, chars_of, has_marker, marker_at, string_of, string_of_range};

verus! {

/// A character that may open a variable name.
pub open spec fn is_ident_start(c: char) -> bool {
    ('A' <= c && c <= 'Z') || ('a' <= c && c <= 'z') || c == '_'
}

/// A character that may continue a variable name.
pub open spec fn is_ident_char(c: char) -> bool {
    is_ident_start(c) || ('0' <= c && c <= '9')
}

/// Where the run of name characters that starts at `k` ends.
pub open spec fn ident_end(s: Seq<char>, k: int) -> int
    decreases s.len() - k,
{
    if 0 <= k < s.len() && is_ident_char(s[k]) {
        ident_end(s, k + 1)
    } else {
        k
    }
}

/// A token `{{name}}` starts at position `i` of `s`, where `name` is a
/// letter or `_` followed by letters, digits and `_`.
pub open spec fn token_at(s: Seq<char>, i: int) -> bool {
    &&& 0 <= i
    &&& i + 2 < s.len()
    &&& s[i] == '{'
    &&& s[i + 1] == '{'
    &&& is_ident_start(s[i + 2])
    &&& i + 2 <= ident_end(s, i + 2)
    &&& ident_end(s, i + 2) + 1 < s.len()
    &&& s[ident_end(s, i + 2)] == '}'
    &&& s[ident_end(s, i + 2) + 1] == '}'
}

/// `v` with a backslash put before each double quote.
pub open spec fn escape_quotes(v: Seq<char>) -> Seq<char>
    decreases v.len(),
{
    if v.len() == 0 {
        Seq::empty()
    } else if v.last() == '"' {
        escape_quotes(v.drop_last()) + seq!['\\', '"']
    } else {
        escape_quotes(v.drop_last()).push(v.last())
    }
}

/// What a token is replaced with.
pub open spec fn replacement(v: Seq<char>, escape: bool) -> Seq<char> {
    if escape {
        escape_quotes(v)
    } else {
        v
    }
}

/// The substituted text from position `i` of `s` on: each token whose name
/// `env` holds becomes the name's value; everything else is kept.
pub open spec fn substitute_from(
    s: Seq<char>,
    env: Map<Seq<char>, Seq<char>>,
    escape: bool,
    i: int,
) -> Seq<char>
    decreases s.len() - i,
{
    if i < 0 || i >= s.len() {
        Seq::empty()
    } else if token_at(s, i) {
        let j = ident_end(s, i + 2);
        let name = s.subrange(i + 2, j);
        if env.contains_key(name) {
            replacement(env[name], escape) + substitute_from(s, env, escape, j + 2)
        } else {
            s.subrange(i, j + 2) + substitute_from(s, env, escape, j + 2)
        }
    } else {
        seq![s[i]] + substitute_from(s, env, escape, i + 1)
    }
}

/// `s` with every token `{{name}}` whose name `env` holds replaced by its
/// value (quotes escaped when `escape` holds); unknown names stay as written.
pub open spec fn substitute(s: Seq<char>, env: Map<Seq<char>, Seq<char>>, escape: bool) -> Seq<char> {
    substitute_from(s, env, escape, 0)
}

proof fn lemma_ident_end_bounds(s: Seq<char>, k: int)
    requires
        0 <= k <= s.len(),
    ensures
        k <= ident_end(s, k) <= s.len(),
        forall|m: int| k <= m < ident_end(s, k) ==> is_ident_char(#[trigger] s[m]),
    decreases s.len() - k,
{
    if k < s.len() && is_ident_char(s[k]) {
        lemma_ident_end_bounds(s, k + 1);
    }
}

fn is_ident_start_exec(c: char) -> (r: bool)
    ensures
        r == is_ident_start(c),
{
    (c >= 'A' && c <= 'Z') || (c >= 'a' && c <= 'z') || c == '_'
}

fn is_ident_char_exec(c: char) -> (r: bool)
    ensures
        r == is_ident_char(c),
{
    is_ident_start_exec(c) || (c >= '0' && c <= '9')
}

fn ident_end_exec(v: &Vec<char>, k: usize) -> (r: usize)
    requires
        k <= v@.len(),
    ensures
        r as int == ident_end(v@, k as int),
{
    let mut j = k;
    while j < v.len() && is_ident_char_exec(v[j])
        invariant
            k <= j <= v@.len(),
            ident_end(v@, j as int) == ident_end(v@, k as int),
        decreases v@.len() - j,
    {
        j += 1;
    }
    j
}

fn token_at_exec(v: &Vec<char>, i: usize) -> (r: Option<usize>)
    requires
        i < v@.len(),
    ensures
        r is Some == token_at(v@, i as int),
        r matches Some(j) ==> j as int == ident_end(v@, i + 2),
{
    if v.len() - i > 2 && v[i] == '{' && v[i + 1] == '{' && is_ident_start_exec(v[i + 2]) {
        let j = ident_end_exec(v, i + 2);
        proof {
            lemma_ident_end_bounds(v@, i + 2);
        }
        if v.len() - j > 1 && v[j] == '}' && v[j + 1] == '}' {
            return Some(j);
        }
    }
    None
}

fn push_replacement(out: &mut Vec<char>, value: &String, escape: bool)
    ensures
        final(out)@ == old(out)@ + replacement(value@, escape),
{
    let v = chars_of(value.as_str());
    if !escape {
        append_chars(out, &v);
        return;
    }
    let mut i: usize = 0;
    while i < v.len()
        invariant
            v@ == value@,
            i <= v@.len(),
            out@ == old(out)@ + escape_quotes(v@.subrange(0, i as int)),
        decreases v@.len() - i,
    {
        let ghost pre = v@.subrange(0, i as int);
        let ghost next = v@.subrange(0, i + 1);
        assert(next.drop_last() =~= pre);
        if v[i] == '"' {
            out.push('\\');
            out.push('"');
            assert(out@ =~= old(out)@ + escape_quotes(next));
        } else {
            out.push(v[i]);
            assert(out@ =~= old(out)@ + escape_quotes(next));
        }
        i += 1;
    }
    assert(v@.subrange(0, v@.len() as int) =~= v@);
}

/// The characters of `v` with tokens substituted from `env`.
pub fn substitute_chars(v: &Vec<char>, env: &VarStore, escape: bool) -> (r: Vec<char>)
    requires
        env.wf(),
    ensures
        r@ == substitute(v@, env@, escape),
{
    let mut out: Vec<char> = Vec::new();
    let mut i: usize = 0;
    while i < v.len()
        invariant
            env.wf(),
            i <= v@.len(),
            out@ + substitute_from(v@, env@, escape, i as int) == substitute(v@, env@, escape),
        decreases v@.len() - i,
    {
        let ghost pre = out@;
        match token_at_exec(v, i) {
            Some(j) => {
                proof {
                    lemma_ident_end_bounds(v@, i + 2);
                }
                let name = string_of_range(v, i + 2, j);
                match env.get(name.as_str()) {
                    Some(value) => {
                        push_replacement(&mut out, value, escape);
                    },
                    None => {
                        let end = j + 2;
                        let mut k = i;
                        while k < end
                            invariant
                                end == j + 2,
                                i <= k <= j + 2 <= v@.len(),
                                out@ == pre + v@.subrange(i as int, k as int),
                            decreases end - k,
                        {
                            out.push(v[k]);
                            k += 1;
                            assert(out@ =~= pre + v@.subrange(i as int, k as int));
                        }
                    },
                }
                assert(out@ + substitute_from(v@, env@, escape, j + 2) =~= pre + substitute_from(v@, env@, escape, i as int));
                i = j + 2;
            },
            None => {
                out.push(v[i]);
                assert(out@ + substitute_from(v@, env@, escape, i + 1) =~= pre + substitute_from(v@, env@, escape, i as int));
                i += 1;
            },
        }
    }
    assert(out@ =~= substitute(v@, env@, escape));
    out
}

/// `content` with each `{{name}}` whose name `params` holds replaced by its
/// value; other tokens stay as written.
pub fn param_substitution(content: &str, params: &VarStore) -> (r: String)
    requires
        params.wf(),
    ensures
        r@ == substitute(content@, params@, false),
{
    let v = chars_of(content);
    let out = substitute_chars(&v, params, false);
    string_of(&out)
}

/// Like `param_substitution`, with each double quote of a value escaped by
/// a backslash, so that text inside a quoted string stays well-formed.
pub fn find_and_replace(content: String, map: &VarStore) -> (r: String)
    requires
        map.wf(),
    ensures
        r@ == substitute(content@, map@, true),
{
    let v = chars_of(content.as_str());
    let out = substitute_chars(&v, map, true);
    string_of(&out)
}

/// Text without the marker `{{` comes out of substitution unchanged.
pub proof fn lemma_no_marker_unchanged(s: Seq<char>, env: Map<Seq<char>, Seq<char>>, escape: bool)
    requires
        !has_marker(s),
    ensures
        substitute(s, env, escape) == s,
{
    lemma_no_marker_from(s, env, escape, 0);
    assert(s.subrange(0, s.len() as int) =~= s);
}

proof fn lemma_no_marker_from(s: Seq<char>, env: Map<Seq<char>, Seq<char>>, escape: bool, i: int)
    requires
        !has_marker(s),
        0 <= i <= s.len(),
    ensures
        substitute_from(s, env, escape, i) == s.subrange(i, s.len() as int),
    decreases s.len() - i,
{
    if i < s.len() {
        if token_at(s, i) {
            assert(marker_at(s, i));
        }
        lemma_no_marker_from(s, env, escape, i + 1);
        assert(seq![s[i]] + s.subrange(i + 1, s.len() as int) =~= s.subrange(i, s.len() as int));
    } else {
        assert(s.subrange(i, s.len() as int) =~= Seq::<char>::empty());
    }
}

/// An escaped value holds no double quote that is not preceded by a
/// backslash.
pub proof fn lemma_escaped_quotes(v: Seq<char>)
    ensures
        forall|i: int| 0 <= i < escape_quotes(v).len() && #[trigger] escape_quotes(v)[i] == '"'
            ==> i > 0 && escape_quotes(v)[i - 1] == '\\',
    decreases v.len(),
{
    if v.len() > 0 {
        lemma_escaped_quotes(v.drop_last());
        let e = escape_quotes(v.drop_last());
        if v.last() == '"' {
            assert forall|i: int| 0 <= i < escape_quotes(v).len() && #[trigger] escape_quotes(v)[i] == '"'
                implies i > 0 && escape_quotes(v)[i - 1] == '\\' by {
                if i < e.len() {
                    assert(escape_quotes(v)[i] == e[i]);
                    assert(e[i] == '"');
                    assert(escape_quotes(v)[i - 1] == e[i - 1]);
                } else if i == e.len() {
                    assert(escape_quotes(v)[i] == '\\');
                }
            }
        } else {
            assert forall|i: int| 0 <= i < escape_quotes(v).len() && #[trigger] escape_quotes(v)[i] == '"'
                implies i > 0 && escape_quotes(v)[i - 1] == '\\' by {
                if i < e.len() {
                    assert(escape_quotes(v)[i] == e[i]);
                    assert(e[i] == '"');
                    assert(escape_quotes(v)[i - 1] == e[i - 1]);
                }
            }
        }
    }
}

} // verus!
