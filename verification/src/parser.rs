use vstd::prelude::*;
use vstd::string::*;

use crate::errors::RabeError;
use crate::policy::{wf_policy, wf_policy_all, PolicyLanguage, PolicyType, PolicyValue};

verus! {

/// Characters accepted in a bareword attribute of the human syntax.
pub open spec fn is_word_char(c: char) -> bool {
    (97 <= c as u32 <= 122)  // 'a' ..= 'z'
    || (65 <= c as u32 <= 90)  // 'A' ..= 'Z'
    || (48 <= c as u32 <= 57)  // '0' ..= '9'
    || c == '_'
}

pub open spec fn is_space(c: char) -> bool {
    c == ' ' || c == '\t' || c == '\n' || c == '\r'
}

/// An error of the parser: either a syntax error with its offset, or a gate
/// with too few children.
pub open spec fn parse_error(e: RabeError) -> bool {
    e matches RabeError::PolicyParse(_) || e == RabeError::PolicyShape
}

/// `j`, brought back to at least `i`; positions only move forward.
pub open spec fn sp_at(i: int, j: int) -> int {
    if j >= i {
        j
    } else {
        i
    }
}

/// The first non-whitespace position at or after `i`.
pub open spec fn sp_skip_ws(s: Seq<char>, i: int) -> int
    decreases s.len() - i,
{
    if 0 <= i < s.len() && is_space(s[i]) {
        sp_skip_ws(s, i + 1)
    } else {
        i
    }
}

/// The position after the literal `lit` standing at `i`, if it does.
pub open spec fn sp_match_lit(s: Seq<char>, i: int, lit: Seq<char>) -> Option<int> {
    if 0 <= i && i + lit.len() <= s.len() && s.subrange(i, i + lit.len()) == lit {
        Some(i + lit.len())
    } else {
        None
    }
}

/// The position after the key `kw`, bare or double-quoted, standing at `i`.
pub open spec fn sp_match_key(s: Seq<char>, i: int, kw: Seq<char>) -> Option<int> {
    if 0 <= i < s.len() && s[i] == '"' {
        match sp_match_lit(s, i + 1, kw) {
            Some(j) => if j < s.len() && s[j] == '"' {
                Some(j + 1)
            } else {
                None
            },
            None => None,
        }
    } else {
        sp_match_lit(s, i, kw)
    }
}

/// The first double quote at or after `i`, or the input's length.
pub open spec fn sp_find_quote(s: Seq<char>, i: int) -> int
    decreases s.len() - i,
{
    if 0 <= i < s.len() {
        if s[i] == '"' {
            i
        } else {
            sp_find_quote(s, i + 1)
        }
    } else {
        s.len() as int
    }
}

/// The non-empty name between an opening quote at `i` and the next quote,
/// with the position after the closing quote.
pub open spec fn sp_scan_quoted(s: Seq<char>, i: int) -> Option<(Seq<char>, int)> {
    if 0 <= i < s.len() && s[i] == '"' {
        let j = sp_find_quote(s, i + 1);
        if j >= s.len() {
            None
        } else if j == i + 1 {
            None
        } else {
            Some((s.subrange(i + 1, j), j + 1))
        }
    } else {
        None
    }
}

fn word_char(c: char) -> (r: bool)
    ensures
        r == is_word_char(c),
{
    let u = c as u32;
    (97 <= u && u <= 122) || (65 <= u && u <= 90) || (48 <= u && u <= 57) || c == '_'
}

fn space_char(c: char) -> (r: bool)
    ensures
        r == is_space(c),
{
    c == ' ' || c == '\t' || c == '\n' || c == '\r'
}

/// Whether two string slices hold the same characters.
pub(crate) fn str_eq(a: &str, b: &str) -> (r: bool)
    ensures
        r == (a@ == b@),
{
    let n = a.unicode_len();
    let m = b.unicode_len();
    if n != m {
        return false;
    }
    let mut k: usize = 0;
    while k < n
        invariant
            n == a@.len(),
            n == b@.len(),
            k <= n,
            forall|j: int| 0 <= j < k ==> a@[j] == b@[j],
        decreases n - k,
    {
        if a.get_char(k) != b.get_char(k) {
            return false;
        }
        k = k + 1;
    }
    proof {
        assert(a@ =~= b@);
    }
    true
}

/// Index of the first non-whitespace character at or after `i`.
fn skip_ws(s: &str, n: usize, i: usize) -> (j: usize)
    requires
        n == s@.len(),
        i <= n,
    ensures
        i <= j <= n,
        j == sp_skip_ws(s@, i as int),
    decreases n - i,
{
    if i < n {
        let c = s.get_char(i);
        if space_char(c) {
            skip_ws(s, n, i + 1)
        } else {
            i
        }
    } else {
        i
    }
}

/// Consume the literal `lit` at position `i`, if it stands there.
fn match_lit(s: &str, n: usize, i: usize, lit: &str) -> (r: Option<usize>)
    requires
        n == s@.len(),
        i <= n,
        lit@.len() >= 1,
    ensures
        r matches Some(j) ==> i < j <= n && sp_match_lit(s@, i as int, lit@) == Some(j as int),
        r is None ==> sp_match_lit(s@, i as int, lit@) is None,
{
    let m = lit.unicode_len();
    if m > n - i {
        return None;
    }
    let mut k: usize = 0;
    while k < m
        invariant
            n == s@.len(),
            m == lit@.len(),
            1 <= m <= n - i,
            k <= m,
            forall|q: int| 0 <= q < k ==> s@[i + q] == lit@[q],
        decreases m - k,
    {
        if s.get_char(i + k) != lit.get_char(k) {
            proof {
                assert(s@.subrange(i as int, i + lit@.len())[k as int] != lit@[k as int]);
            }
            return None;
        }
        k = k + 1;
    }
    proof {
        assert(s@.subrange(i as int, i + lit@.len()) =~= lit@);
    }
    Some(i + m)
}

/// Read a double-quoted, non-empty attribute name starting at the opening
/// quote; the name itself may hold any character but `"`.
fn scan_quoted(s: &str, n: usize, i: usize) -> (r: Option<(String, usize)>)
    requires
        n == s@.len(),
        i <= n,
    ensures
        r matches Some(p) ==> i < p.1 <= n && p.0@.len() > 0 && sp_scan_quoted(s@, i as int)
            == Some((p.0@, p.1 as int)),
        r is None ==> sp_scan_quoted(s@, i as int) is None,
{
    if i >= n || s.get_char(i) != '"' {
        return None;
    }
    let mut j: usize = i + 1;
    while j < n && s.get_char(j) != '"'
        invariant
            n == s@.len(),
            i + 1 <= j <= n,
            forall|q: int| i + 1 <= q < j ==> s@[q] != '"',
        decreases n - j,
    {
        j = j + 1;
    }
    proof {
        lemma_find_quote(s@, i + 1, j as int);
    }
    if j >= n {
        return None;  // no closing quote
    }
    if j == i + 1 {
        return None;  // empty attribute
    }
    let name = s.substring_char(i + 1, j).to_owned();
    Some((name, j + 1))
}

proof fn lemma_find_quote(s: Seq<char>, start: int, m: int)
    requires
        0 <= start <= m <= s.len(),
        forall|k: int| start <= k < m ==> s[k] != '"',
        m == s.len() || s[m] == '"',
    ensures
        sp_find_quote(s, start) == m,
    decreases m - start,
{
    if start < m {
        lemma_find_quote(s, start + 1, m);
    }
}

/// Read a non-empty bareword (letters, digits, `_`) starting at `i`.
fn scan_word(s: &str, n: usize, i: usize) -> (r: Option<(String, usize)>)
    requires
        n == s@.len(),
        i <= n,
    ensures
        r matches Some(p) ==> i < p.1 <= n && p.0@.len() > 0 && sp_scan_word(s@, i as int)
            == Some((p.0@, p.1 as int)),
        r is None ==> sp_scan_word(s@, i as int) is None,
{
    let mut j: usize = i;
    while j < n && word_char(s.get_char(j))
        invariant
            n == s@.len(),
            i <= j <= n,
            forall|q: int| i <= q < j ==> is_word_char(s@[q]),
        decreases n - j,
    {
        j = j + 1;
    }
    proof {
        lemma_wend(s@, i as int, j as int);
    }
    if j == i {
        return None;
    }
    let name = s.substring_char(i, j).to_owned();
    Some((name, j))
}

proof fn lemma_wend(s: Seq<char>, start: int, m: int)
    requires
        0 <= start <= m <= s.len(),
        forall|k: int| start <= k < m ==> is_word_char(s[k]),
        m == s.len() || !is_word_char(s[m]),
    ensures
        sp_wend(s, start) == m,
    decreases m - start,
{
    if start < m {
        lemma_wend(s, start + 1, m);
    }
}

/// Consume a key of the accepted JSON dialect: `kw` either bare or wrapped in
/// double quotes.
fn match_key(s: &str, n: usize, i: usize, kw: &str) -> (r: Option<usize>)
    requires
        n == s@.len(),
        i <= n,
        kw@.len() >= 1,
    ensures
        r matches Some(j) ==> i < j <= n && sp_match_key(s@, i as int, kw@) == Some(j as int),
        r is None ==> sp_match_key(s@, i as int, kw@) is None,
{
    if i < n && s.get_char(i) == '"' {
        match match_lit(s, n, i + 1, kw) {
            Some(j) => {
                if j < n && s.get_char(j) == '"' {
                    Some(j + 1)
                } else {
                    None
                }
            },
            None => None,
        }
    } else {
        match_lit(s, n, i, kw)
    }
}

/// Recognize the keyword `kw` at `i`, demanding a non-word character (or the
/// end of the input) right after it, so that a bareword such as `android`
/// is not cut apart.
fn keyword_at(s: &str, n: usize, i: usize, kw: &str) -> (r: Option<usize>)
    requires
        n == s@.len(),
        i <= n,
        kw@.len() >= 1,
    ensures
        r matches Some(j) ==> i < j <= n && sp_keyword_at(s@, i as int, kw@) == Some(j as int),
        r is None ==> sp_keyword_at(s@, i as int, kw@) is None,
{
    match match_lit(s, n, i, kw) {
        Some(j) => {
            if j < n && word_char(s.get_char(j)) {
                None
            } else {
                Some(j)
            }
        },
        None => None,
    }
}


/// `j` capped into `(lo, n]`: the identity whenever `lo < j <= n`, which
/// every parsing step guarantees; the cap only serves the termination
/// measure of the walk below.
pub open spec fn sp_clamp(lo: int, j: int, n: int) -> int {
    if lo < j && j <= n {
        j
    } else {
        n
    }
}

/// A policy tree in specification land: the shape of a [`PolicyValue`]
/// with attribute names as character sequences.
pub enum SpecPolicy {
    Obj(PolicyType, Box<SpecPolicy>),
    Arr(Seq<SpecPolicy>),
    Str(Seq<char>),
}

/// The specification-land shape of a tree: the same structure, each name
/// as its view.
pub open spec fn view_policy(p: PolicyValue) -> SpecPolicy
    decreases p, 0int,
{
    match p {
        PolicyValue::String(s) => SpecPolicy::Str(s@),
        PolicyValue::Object((t, b)) => SpecPolicy::Obj(t, Box::new(view_policy(*b))),
        PolicyValue::Array(cs) => SpecPolicy::Arr(views_of(cs@)),
    }
}

pub open spec fn views_of(cs: Seq<PolicyValue>) -> Seq<SpecPolicy>
    decreases cs, 1int,
{
    if cs.len() == 0 {
        Seq::<SpecPolicy>::empty()
    } else {
        seq![view_policy(cs[0])] + views_of(cs.subrange(1, cs.len() as int))
    }
}

/// The JSON grammar, as a walk from `i` that yields the tree of the
/// object standing there and the position behind it. This is what `parse`
/// accepts in the JSON syntax; a leaf is an object without children, a
/// gate must be named `and` or `or` and carry at least two children.
pub open spec fn sp_tree_object(s: Seq<char>, i: int) -> Option<(SpecPolicy, int)>
    decreases s.len() - i, 2int,
{
    if !(0 <= i <= s.len()) {
        None
    } else {
        let j0 = sp_at(i, sp_skip_ws(s, i));
        if !(j0 < s.len() && s[j0] == '{') {
            None
        } else {
            let j1 = sp_at(j0 + 1, sp_skip_ws(s, j0 + 1));
            match sp_match_key(s, j1, "name"@) {
                None => None,
                Some(j2) => {
                    let j3 = sp_at(j2, sp_skip_ws(s, j2));
                    if !(j3 < s.len() && s[j3] == ':') {
                        None
                    } else {
                        let j4 = sp_at(j3 + 1, sp_skip_ws(s, j3 + 1));
                        match sp_scan_quoted(s, j4) {
                            None => None,
                            Some((name, j5)) => {
                                let j5c = sp_at(j4 + 1, j5);
                                let j6 = sp_at(j5c, sp_skip_ws(s, j5c));
                                if j6 < s.len() && s[j6] == '}' {
                                    Some((SpecPolicy::Str(name), j6 + 1))
                                } else if !(j6 < s.len() && s[j6] == ',') {
                                    None
                                } else {
                                    let j7 = sp_at(j6 + 1, sp_skip_ws(s, j6 + 1));
                                    match sp_match_key(s, j7, "children"@) {
                                        None => None,
                                        Some(j8) => {
                                            let j9 = sp_at(j8, sp_skip_ws(s, j8));
                                            if !(j9 < s.len() && s[j9] == ':') {
                                                None
                                            } else if !(name == "and"@ || name == "or"@) {
                                                None
                                            } else {
                                                match sp_tree_array(s, j9 + 1) {
                                                    None => None,
                                                    Some((cs, j10)) => {
                                                        let j11 = sp_at(j10, sp_skip_ws(s, j10));
                                                        if !(j11 < s.len() && s[j11] == '}') {
                                                            None
                                                        } else if name == "and"@ {
                                                            Some(
                                                                (
                                                                    SpecPolicy::Obj(
                                                                        PolicyType::And,
                                                                        Box::new(SpecPolicy::Arr(cs)),
                                                                    ),
                                                                    j11 + 1,
                                                                ),
                                                            )
                                                        } else {
                                                            Some(
                                                                (
                                                                    SpecPolicy::Obj(
                                                                        PolicyType::Or,
                                                                        Box::new(SpecPolicy::Arr(cs)),
                                                                    ),
                                                                    j11 + 1,
                                                                ),
                                                            )
                                                        }
                                                    },
                                                }
                                            }
                                        },
                                    }
                                }
                            },
                        }
                    }
                },
            }
        }
    }
}

/// A bracketed list of at least two objects.
pub open spec fn sp_tree_array(s: Seq<char>, i: int) -> Option<(Seq<SpecPolicy>, int)>
    decreases s.len() - i, 1int,
{
    if !(0 <= i <= s.len()) {
        None
    } else {
        let j0 = sp_at(i, sp_skip_ws(s, i));
        if !(j0 < s.len() && s[j0] == '[') {
            None
        } else {
            match sp_tree_object(s, j0 + 1) {
                None => None,
                Some((first, j1)) => {
                    match sp_tree_items(s, sp_clamp(j0 + 1, j1, s.len() as int)) {
                        None => None,
                        Some((rest, j2)) => {
                            if 1 + rest.len() >= 2 {
                                Some((seq![first] + rest, j2))
                            } else {
                                None
                            }
                        },
                    }
                },
            }
        }
    }
}

/// The tail of a child list: for each `, object` its tree, closed by `]`.
pub open spec fn sp_tree_items(s: Seq<char>, pos: int) -> Option<(Seq<SpecPolicy>, int)>
    decreases s.len() - pos, 0int,
{
    if !(0 <= pos <= s.len()) {
        None
    } else {
        let k = sp_at(pos, sp_skip_ws(s, pos));
        if k < s.len() && s[k] == ',' {
            match sp_tree_object(s, k + 1) {
                None => None,
                Some((t, j)) => {
                    match sp_tree_items(s, sp_clamp(k + 1, j, s.len() as int)) {
                        None => None,
                        Some((rest, jend)) => Some((seq![t] + rest, jend)),
                    }
                },
            }
        } else if k < s.len() && s[k] == ']' {
            Some((Seq::<SpecPolicy>::empty(), k + 1))
        } else {
            None
        }
    }
}

/// What `parse` accepts and returns in the JSON syntax: the tree of the
/// one object the input holds, with nothing but whitespace behind it.
pub open spec fn sp_parse_json(s: Seq<char>) -> Option<SpecPolicy> {
    match sp_tree_object(s, 0) {
        Some((t, j)) => if sp_at(j, sp_skip_ws(s, j)) == s.len() {
            Some(t)
        } else {
            None
        },
        None => None,
    }
}

/// Parse one JSON policy object starting at `i`; on success the returned
/// tree is well-formed and parsing stopped at the returned position.
fn json_object(s: &str, n: usize, i: usize) -> (r: Result<(PolicyValue, usize), RabeError>)
    requires
        n == s@.len(),
        i <= n,
    ensures
        r matches Ok(p) ==> i < p.1 <= n && wf_policy(p.0) && sp_tree_object(s@, i as int)
            == Some((view_policy(p.0), p.1 as int)),
        r matches Err(e) ==> parse_error(e) && sp_tree_object(s@, i as int) is None,
    decreases n - i, 2int,
{
    proof {
        reveal_strlit("name");
        reveal_strlit("children");
    }
    let j0 = skip_ws(s, n, i);
    if j0 >= n || s.get_char(j0) != '{' {
        return Err(RabeError::PolicyParse(j0));
    }
    let j1 = skip_ws(s, n, j0 + 1);
    let j2 = match match_key(s, n, j1, "name") {
        Some(j) => j,
        None => {
            return Err(RabeError::PolicyParse(j1));
        },
    };
    let j3 = skip_ws(s, n, j2);
    if j3 >= n || s.get_char(j3) != ':' {
        return Err(RabeError::PolicyParse(j3));
    }
    let j4 = skip_ws(s, n, j3 + 1);
    let (name, j5) = match scan_quoted(s, n, j4) {
        Some(p) => p,
        None => {
            return Err(RabeError::PolicyParse(j4));
        },
    };
    let j6 = skip_ws(s, n, j5);
    if j6 < n && s.get_char(j6) == '}' {
        // a leaf: no children
        proof {
            assert(sp_tree_object(s@, i as int) == Some(
                (view_policy(PolicyValue::String(name)), j6 + 1 as int),
            ));
        }
        return Ok((PolicyValue::String(name), j6 + 1));
    }
    if j6 >= n || s.get_char(j6) != ',' {
        return Err(RabeError::PolicyParse(j6));
    }
    let j7 = skip_ws(s, n, j6 + 1);
    let j8 = match match_key(s, n, j7, "children") {
        Some(j) => j,
        None => {
            return Err(RabeError::PolicyParse(j7));
        },
    };
    let j9 = skip_ws(s, n, j8);
    if j9 >= n || s.get_char(j9) != ':' {
        return Err(RabeError::PolicyParse(j9));
    }
    let gate = if str_eq(name.as_str(), "and") {
        PolicyType::And
    } else if str_eq(name.as_str(), "or") {
        PolicyType::Or
    } else {
        // unknown gate name
        return Err(RabeError::PolicyParse(j4));
    };
    let (children, j10) = match json_array(s, n, j9 + 1) {
        Ok(p) => p,
        Err(e) => {
            return Err(e);
        },
    };
    let j11 = skip_ws(s, n, j10);
    if j11 >= n || s.get_char(j11) != '}' {
        return Err(RabeError::PolicyParse(j11));
    }
    let node = PolicyValue::Object((gate, Box::new(PolicyValue::Array(children))));
    assert(wf_policy(node));
    proof {
        assert(view_policy(node) == SpecPolicy::Obj(
            gate,
            Box::new(view_policy(PolicyValue::Array(children))),
        ));
        assert(view_policy(PolicyValue::Array(children)) == SpecPolicy::Arr(views_of(children@)));
        assert(sp_tree_object(s@, i as int) == Some((view_policy(node), j11 + 1 as int)));
    }
    Ok((node, j11 + 1))
}

/// Parse a JSON array of at least two policy objects, brackets included.
fn json_array(s: &str, n: usize, i: usize) -> (r: Result<(Vec<PolicyValue>, usize), RabeError>)
    requires
        n == s@.len(),
        i <= n,
    ensures
        r matches Ok(p) ==> i < p.1 <= n && p.0@.len() >= 2 && wf_policy_all(p.0@)
            && sp_tree_array(s@, i as int) == Some((views_of(p.0@), p.1 as int)),
        r matches Err(e) ==> parse_error(e) && sp_tree_array(s@, i as int) is None,
    decreases n - i, 1int,
{
    let j0 = skip_ws(s, n, i);
    if j0 >= n || s.get_char(j0) != '[' {
        return Err(RabeError::PolicyParse(j0));
    }
    let (first, j1) = match json_object(s, n, j0 + 1) {
        Ok(p) => p,
        Err(e) => {
            return Err(e);
        },
    };
    proof {
        assert(sp_clamp(j0 + 1, j1 as int, s@.len() as int) == j1 as int);
    }
    let (rest, j2) = match json_items(s, n, j1) {
        Ok(p) => p,
        Err(e) => {
            return Err(e);
        },
    };
    if rest.len() < 1 {
        return Err(RabeError::PolicyShape);
    }
    let ghost first_view = first;
    let ghost rest_view = rest@;
    let mut items: Vec<PolicyValue> = Vec::new();
    items.push(first);
    let mut tail = rest;
    items.append(&mut tail);
    proof {
        assert(items@[0] == first_view);
        assert(items@.subrange(1, items@.len() as int) =~= rest_view);
        assert forall|q: int| 0 <= q < items@.len() implies wf_policy(#[trigger] items@[q]) by {
            if q > 0 {
                assert(wf_policy(rest_view[q - 1]));
            }
        }
        assert(views_of(items@) =~= seq![view_policy(first_view)] + views_of(rest_view));
        assert(sp_tree_array(s@, i as int) == Some((views_of(items@), j2 as int)));
    }
    Ok((items, j2))
}

/// The further children of a gate list, from `pos` on: a comma and an
/// object each, closed by the bracket.
fn json_items(s: &str, n: usize, pos: usize) -> (r: Result<(Vec<PolicyValue>, usize), RabeError>)
    requires
        n == s@.len(),
        pos <= n,
    ensures
        r matches Ok(p) ==> pos < p.1 <= n && wf_policy_all(p.0@) && sp_tree_items(
            s@,
            pos as int,
        ) == Some((views_of(p.0@), p.1 as int)),
        r matches Err(e) ==> parse_error(e) && sp_tree_items(s@, pos as int) is None,
    decreases n - pos, 0int,
{
    let k = skip_ws(s, n, pos);
    if k < n && s.get_char(k) == ',' {
        let (t, j) = match json_object(s, n, k + 1) {
            Ok(p) => p,
            Err(e) => {
                return Err(e);
            },
        };
        proof {
            assert(sp_clamp(k + 1, j as int, s@.len() as int) == j as int);
        }
        let (rest, jend) = match json_items(s, n, j) {
            Ok(p) => p,
            Err(e) => {
                return Err(e);
            },
        };
        let ghost t_view = t;
        let ghost rest_view = rest@;
        let mut items: Vec<PolicyValue> = Vec::new();
        items.push(t);
        let mut tail = rest;
        items.append(&mut tail);
        proof {
            assert(items@[0] == t_view);
            assert(items@.subrange(1, items@.len() as int) =~= rest_view);
            assert forall|q: int| 0 <= q < items@.len() implies wf_policy(
                #[trigger] items@[q],
            ) by {
                if q > 0 {
                    assert(wf_policy(rest_view[q - 1]));
                }
            }
            assert(views_of(items@) =~= seq![view_policy(t_view)] + views_of(rest_view));
            assert(sp_tree_items(s@, pos as int) == Some((views_of(items@), jend as int)));
        }
        Ok((items, jend))
    } else if k < n && s.get_char(k) == ']' {
        let out: Vec<PolicyValue> = Vec::new();
        proof {
            assert(views_of(out@) =~= Seq::<SpecPolicy>::empty());
        }
        Ok((out, k + 1))
    } else {
        Err(RabeError::PolicyParse(k))
    }
}


/// The first non-word-character position at or after `i`.
pub open spec fn sp_wend(s: Seq<char>, i: int) -> int
    decreases s.len() - i,
{
    if 0 <= i < s.len() && is_word_char(s[i]) {
        sp_wend(s, i + 1)
    } else {
        i
    }
}

/// The non-empty bareword starting at `i`, with the position behind it.
pub open spec fn sp_scan_word(s: Seq<char>, i: int) -> Option<(Seq<char>, int)> {
    let j = sp_wend(s, i);
    if j == i {
        None
    } else {
        Some((s.subrange(i, j), j))
    }
}

/// The position after the keyword `kw` at `i`, provided no word character
/// follows it.
pub open spec fn sp_keyword_at(s: Seq<char>, i: int, kw: Seq<char>) -> Option<int> {
    match sp_match_lit(s, i, kw) {
        Some(j) => if j < s.len() && is_word_char(s[j]) {
            None
        } else {
            Some(j)
        },
        None => None,
    }
}

/// The human grammar's `or` level, as a walk that yields the tree of the
/// expression at `i`: a single operand stands for itself, several become
/// an `or` gate.
pub open spec fn sp_tree_hor(s: Seq<char>, i: int) -> Option<(SpecPolicy, int)>
    decreases s.len() - i, 3int,
{
    if !(0 <= i <= s.len()) {
        None
    } else {
        match sp_tree_hand(s, i) {
            None => None,
            Some((t0, j)) => {
                match sp_tree_hor_tail(s, sp_clamp(i, j, s.len() as int)) {
                    None => None,
                    Some((rest, jend)) => if rest.len() == 0 {
                        Some((t0, jend))
                    } else {
                        Some(
                            (
                                SpecPolicy::Obj(
                                    PolicyType::Or,
                                    Box::new(SpecPolicy::Arr(seq![t0] + rest)),
                                ),
                                jend,
                            ),
                        )
                    },
                }
            },
        }
    }
}

/// Further `or` operands from `pos` on, each behind an `or` keyword.
pub open spec fn sp_tree_hor_tail(s: Seq<char>, pos: int) -> Option<(Seq<SpecPolicy>, int)>
    decreases s.len() - pos, 0int,
{
    if !(0 <= pos <= s.len()) {
        None
    } else {
        let k = sp_at(pos, sp_skip_ws(s, pos));
        if k < s.len() {
            match sp_keyword_at(s, k, "or"@) {
                Some(k2) => {
                    let k2c = sp_at(k + 1, k2);
                    match sp_tree_hand(s, k2c) {
                        None => None,
                        Some((t, j)) => {
                            match sp_tree_hor_tail(s, sp_clamp(k2c, j, s.len() as int)) {
                                None => None,
                                Some((rest, jend)) => Some((seq![t] + rest, jend)),
                            }
                        },
                    }
                },
                None => Some((Seq::<SpecPolicy>::empty(), pos)),
            }
        } else {
            Some((Seq::<SpecPolicy>::empty(), pos))
        }
    }
}

/// The human grammar's `and` level.
pub open spec fn sp_tree_hand(s: Seq<char>, i: int) -> Option<(SpecPolicy, int)>
    decreases s.len() - i, 2int,
{
    if !(0 <= i <= s.len()) {
        None
    } else {
        match sp_tree_hprim(s, i) {
            None => None,
            Some((t0, j)) => {
                match sp_tree_hand_tail(s, sp_clamp(i, j, s.len() as int)) {
                    None => None,
                    Some((rest, jend)) => if rest.len() == 0 {
                        Some((t0, jend))
                    } else {
                        Some(
                            (
                                SpecPolicy::Obj(
                                    PolicyType::And,
                                    Box::new(SpecPolicy::Arr(seq![t0] + rest)),
                                ),
                                jend,
                            ),
                        )
                    },
                }
            },
        }
    }
}

/// Further `and` operands from `pos` on, each behind an `and` keyword.
pub open spec fn sp_tree_hand_tail(s: Seq<char>, pos: int) -> Option<(Seq<SpecPolicy>, int)>
    decreases s.len() - pos, 0int,
{
    if !(0 <= pos <= s.len()) {
        None
    } else {
        let k = sp_at(pos, sp_skip_ws(s, pos));
        if k < s.len() {
            match sp_keyword_at(s, k, "and"@) {
                Some(k2) => {
                    let k2c = sp_at(k + 1, k2);
                    match sp_tree_hprim(s, k2c) {
                        None => None,
                        Some((t, j)) => {
                            match sp_tree_hand_tail(s, sp_clamp(k2c, j, s.len() as int)) {
                                None => None,
                                Some((rest, jend)) => Some((seq![t] + rest, jend)),
                            }
                        },
                    }
                },
                None => Some((Seq::<SpecPolicy>::empty(), pos)),
            }
        } else {
            Some((Seq::<SpecPolicy>::empty(), pos))
        }
    }
}

/// A primary of the human grammar: a parenthesized expression (the inner
/// node itself), a quoted attribute, or a bareword.
pub open spec fn sp_tree_hprim(s: Seq<char>, i: int) -> Option<(SpecPolicy, int)>
    decreases s.len() - i, 1int,
{
    if !(0 <= i <= s.len()) {
        None
    } else {
        let j0 = sp_at(i, sp_skip_ws(s, i));
        if !(j0 < s.len()) {
            None
        } else if s[j0] == '(' {
            match sp_tree_hor(s, j0 + 1) {
                None => None,
                Some((t, j1)) => {
                    let j2 = sp_at(j1, sp_skip_ws(s, j1));
                    if j2 < s.len() && s[j2] == ')' {
                        Some((t, j2 + 1))
                    } else {
                        None
                    }
                },
            }
        } else if s[j0] == '"' {
            match sp_scan_quoted(s, j0) {
                Some((name, j1)) => Some((SpecPolicy::Str(name), j1)),
                None => None,
            }
        } else {
            match sp_scan_word(s, j0) {
                Some((name, j1)) => Some((SpecPolicy::Str(name), j1)),
                None => None,
            }
        }
    }
}

/// What `parse` accepts and returns in the human syntax: the tree of the
/// one expression the input holds, with nothing but whitespace behind it.
pub open spec fn sp_parse_human(s: Seq<char>) -> Option<SpecPolicy> {
    match sp_tree_hor(s, 0) {
        Some((t, j)) => if sp_at(j, sp_skip_ws(s, j)) == s.len() {
            Some(t)
        } else {
            None
        },
        None => None,
    }
}

/// The tree `parse` yields for an input, by language.
pub open spec fn sp_parse_tree(l: PolicyLanguage, s: Seq<char>) -> Option<SpecPolicy> {
    match l {
        PolicyLanguage::JsonPolicy => sp_parse_json(s),
        PolicyLanguage::HumanPolicy => sp_parse_human(s),
    }
}

/// Parse an `or`-level expression of the human syntax: one or more
/// `and`-level operands joined by the `or` keyword.
fn human_or(s: &str, n: usize, i: usize) -> (r: Result<(PolicyValue, usize), RabeError>)
    requires
        n == s@.len(),
        i <= n,
    ensures
        r matches Ok(p) ==> i < p.1 <= n && wf_policy(p.0) && sp_tree_hor(s@, i as int) == Some(
            (view_policy(p.0), p.1 as int),
        ),
        r matches Err(e) ==> parse_error(e) && sp_tree_hor(s@, i as int) is None,
    decreases n - i, 3int,
{
    let (first, j) = match human_and(s, n, i) {
        Ok(p) => p,
        Err(e) => {
            return Err(e);
        },
    };
    proof {
        assert(sp_clamp(i as int, j as int, s@.len() as int) == j as int);
    }
    let (rest, jend) = match hor_tail(s, n, j) {
        Ok(p) => p,
        Err(e) => {
            return Err(e);
        },
    };
    if rest.len() == 0 {
        proof {
            assert(sp_tree_hor(s@, i as int) == Some((view_policy(first), jend as int)));
        }
        return Ok((first, jend));
    }
    let ghost first_view = first;
    let ghost rest_view = rest@;
    let mut items: Vec<PolicyValue> = Vec::new();
    items.push(first);
    let mut tail = rest;
    items.append(&mut tail);
    let ghost vs = items@;
    let inner = PolicyValue::Array(items);
    let ghost inner_view = inner;
    let node = PolicyValue::Object((PolicyType::Or, Box::new(inner)));
    proof {
        assert(view_policy(node) == SpecPolicy::Obj(
            PolicyType::Or,
            Box::new(view_policy(inner_view)),
        ));
        assert(view_policy(inner_view) == SpecPolicy::Arr(views_of(vs)));
        assert(vs[0] == first_view);
        assert(vs.subrange(1, vs.len() as int) =~= rest_view);
        assert forall|q: int| 0 <= q < vs.len() implies wf_policy(#[trigger] vs[q]) by {
            if q > 0 {
                assert(wf_policy(rest_view[q - 1]));
            }
        }
        assert(wf_policy(node));
        assert(views_of(vs) =~= seq![view_policy(first_view)] + views_of(rest_view));
        assert(sp_tree_hor(s@, i as int) == Some((view_policy(node), jend as int)));
    }
    Ok((node, jend))
}

/// Further `or` operands behind their keyword, from `pos` on.
fn hor_tail(s: &str, n: usize, pos: usize) -> (r: Result<(Vec<PolicyValue>, usize), RabeError>)
    requires
        n == s@.len(),
        pos <= n,
    ensures
        r matches Ok(p) ==> pos <= p.1 <= n && wf_policy_all(p.0@) && sp_tree_hor_tail(
            s@,
            pos as int,
        ) == Some((views_of(p.0@), p.1 as int)),
        r matches Err(e) ==> parse_error(e) && sp_tree_hor_tail(s@, pos as int) is None,
    decreases n - pos, 0int,
{
    let k = skip_ws(s, n, pos);
    proof {
        reveal_strlit("or");
    }
    match keyword_at(s, n, k, "or") {
        Some(k2) => {
            proof {
                assert(sp_at(k + 1, k2 as int) == k2 as int);
            }
            let (t, j) = match human_and(s, n, k2) {
                Ok(p) => p,
                Err(e) => {
                    return Err(e);
                },
            };
            proof {
                assert(sp_clamp(k2 as int, j as int, s@.len() as int) == j as int);
            }
            let (rest, jend) = match hor_tail(s, n, j) {
                Ok(p) => p,
                Err(e) => {
                    return Err(e);
                },
            };
            let ghost t_view = t;
            let ghost rest_view = rest@;
            let mut items: Vec<PolicyValue> = Vec::new();
            items.push(t);
            let mut tail = rest;
            items.append(&mut tail);
            proof {
                assert(items@[0] == t_view);
                assert(items@.subrange(1, items@.len() as int) =~= rest_view);
                assert forall|q: int| 0 <= q < items@.len() implies wf_policy(
                    #[trigger] items@[q],
                ) by {
                    if q > 0 {
                        assert(wf_policy(rest_view[q - 1]));
                    }
                }
                assert(views_of(items@) =~= seq![view_policy(t_view)] + views_of(rest_view));
                assert(sp_tree_hor_tail(s@, pos as int) == Some(
                    (views_of(items@), jend as int),
                ));
            }
            Ok((items, jend))
        },
        None => {
            let out: Vec<PolicyValue> = Vec::new();
            proof {
                assert(views_of(out@) =~= Seq::<SpecPolicy>::empty());
                assert(sp_tree_hor_tail(s@, pos as int) == Some(
                    (Seq::<SpecPolicy>::empty(), pos as int),
                ));
            }
            Ok((out, pos))
        },
    }
}

/// Parse an `and`-level expression: one or more primaries joined by `and`.
fn human_and(s: &str, n: usize, i: usize) -> (r: Result<(PolicyValue, usize), RabeError>)
    requires
        n == s@.len(),
        i <= n,
    ensures
        r matches Ok(p) ==> i < p.1 <= n && wf_policy(p.0) && sp_tree_hand(s@, i as int) == Some(
            (view_policy(p.0), p.1 as int),
        ),
        r matches Err(e) ==> parse_error(e) && sp_tree_hand(s@, i as int) is None,
    decreases n - i, 2int,
{
    let (first, j) = match human_prim(s, n, i) {
        Ok(p) => p,
        Err(e) => {
            return Err(e);
        },
    };
    proof {
        assert(sp_clamp(i as int, j as int, s@.len() as int) == j as int);
    }
    let (rest, jend) = match hand_tail(s, n, j) {
        Ok(p) => p,
        Err(e) => {
            return Err(e);
        },
    };
    if rest.len() == 0 {
        proof {
            assert(sp_tree_hand(s@, i as int) == Some((view_policy(first), jend as int)));
        }
        return Ok((first, jend));
    }
    let ghost first_view = first;
    let ghost rest_view = rest@;
    let mut items: Vec<PolicyValue> = Vec::new();
    items.push(first);
    let mut tail = rest;
    items.append(&mut tail);
    let ghost vs = items@;
    let inner = PolicyValue::Array(items);
    let ghost inner_view = inner;
    let node = PolicyValue::Object((PolicyType::And, Box::new(inner)));
    proof {
        assert(view_policy(node) == SpecPolicy::Obj(
            PolicyType::And,
            Box::new(view_policy(inner_view)),
        ));
        assert(view_policy(inner_view) == SpecPolicy::Arr(views_of(vs)));
        assert(vs[0] == first_view);
        assert(vs.subrange(1, vs.len() as int) =~= rest_view);
        assert forall|q: int| 0 <= q < vs.len() implies wf_policy(#[trigger] vs[q]) by {
            if q > 0 {
                assert(wf_policy(rest_view[q - 1]));
            }
        }
        assert(wf_policy(node));
        assert(views_of(vs) =~= seq![view_policy(first_view)] + views_of(rest_view));
        assert(sp_tree_hand(s@, i as int) == Some((view_policy(node), jend as int)));
    }
    Ok((node, jend))
}

/// Further `and` operands behind their keyword, from `pos` on.
fn hand_tail(s: &str, n: usize, pos: usize) -> (r: Result<(Vec<PolicyValue>, usize), RabeError>)
    requires
        n == s@.len(),
        pos <= n,
    ensures
        r matches Ok(p) ==> pos <= p.1 <= n && wf_policy_all(p.0@) && sp_tree_hand_tail(
            s@,
            pos as int,
        ) == Some((views_of(p.0@), p.1 as int)),
        r matches Err(e) ==> parse_error(e) && sp_tree_hand_tail(s@, pos as int) is None,
    decreases n - pos, 0int,
{
    let k = skip_ws(s, n, pos);
    proof {
        reveal_strlit("and");
    }
    match keyword_at(s, n, k, "and") {
        Some(k2) => {
            proof {
                assert(sp_at(k + 1, k2 as int) == k2 as int);
            }
            let (t, j) = match human_prim(s, n, k2) {
                Ok(p) => p,
                Err(e) => {
                    return Err(e);
                },
            };
            proof {
                assert(sp_clamp(k2 as int, j as int, s@.len() as int) == j as int);
            }
            let (rest, jend) = match hand_tail(s, n, j) {
                Ok(p) => p,
                Err(e) => {
                    return Err(e);
                },
            };
            let ghost t_view = t;
            let ghost rest_view = rest@;
            let mut items: Vec<PolicyValue> = Vec::new();
            items.push(t);
            let mut tail = rest;
            items.append(&mut tail);
            proof {
                assert(items@[0] == t_view);
                assert(items@.subrange(1, items@.len() as int) =~= rest_view);
                assert forall|q: int| 0 <= q < items@.len() implies wf_policy(
                    #[trigger] items@[q],
                ) by {
                    if q > 0 {
                        assert(wf_policy(rest_view[q - 1]));
                    }
                }
                assert(views_of(items@) =~= seq![view_policy(t_view)] + views_of(rest_view));
                assert(sp_tree_hand_tail(s@, pos as int) == Some(
                    (views_of(items@), jend as int),
                ));
            }
            Ok((items, jend))
        },
        None => {
            let out: Vec<PolicyValue> = Vec::new();
            proof {
                assert(views_of(out@) =~= Seq::<SpecPolicy>::empty());
                assert(sp_tree_hand_tail(s@, pos as int) == Some(
                    (Seq::<SpecPolicy>::empty(), pos as int),
                ));
            }
            Ok((out, pos))
        },
    }
}

/// Parse a primary of the human syntax: a parenthesized expression, a
/// double-quoted attribute, or a bareword attribute.
fn human_prim(s: &str, n: usize, i: usize) -> (r: Result<(PolicyValue, usize), RabeError>)
    requires
        n == s@.len(),
        i <= n,
    ensures
        r matches Ok(p) ==> i < p.1 <= n && wf_policy(p.0) && sp_tree_hprim(s@, i as int)
            == Some((view_policy(p.0), p.1 as int)),
        r matches Err(e) ==> parse_error(e) && sp_tree_hprim(s@, i as int) is None,
    decreases n - i, 1int,
{
    let j0 = skip_ws(s, n, i);
    if j0 >= n {
        return Err(RabeError::PolicyParse(j0));
    }
    let c = s.get_char(j0);
    if c == '(' {
        let (node, j1) = match human_or(s, n, j0 + 1) {
            Ok(p) => p,
            Err(e) => {
                return Err(e);
            },
        };
        let j2 = skip_ws(s, n, j1);
        if j2 < n && s.get_char(j2) == ')' {
            Ok((node, j2 + 1))
        } else {
            Err(RabeError::PolicyParse(j2))
        }
    } else if c == '"' {
        match scan_quoted(s, n, j0) {
            Some((name, j1)) => Ok((PolicyValue::String(name), j1)),
            None => Err(RabeError::PolicyParse(j0)),
        }
    } else {
        match scan_word(s, n, j0) {
            Some((name, j1)) => Ok((PolicyValue::String(name), j1)),
            None => Err(RabeError::PolicyParse(j0)),
        }
    }
}

/// Parse a policy in the given language.
///
/// On success the returned tree is well-formed: every gate is `and` or `or`
/// with at least two children and every leaf name is non-empty. A syntax
/// error carries the character offset at which parsing stopped; a gate with
/// fewer than two children is reported as a shape error.
///
/// In each syntax the parser is a grammar walk ([`sp_parse_json`],
/// [`sp_parse_human`]): it succeeds exactly when the walk does, and the
/// returned tree is, up to the view of its names, the walk's tree. The
/// round trip through `serialize_policy` therefore reproduces the input up
/// to whitespace, key quoting, grouping parentheses and gate arity checks.
pub fn parse(policy: &str, language: PolicyLanguage) -> (r: Result<PolicyValue, RabeError>)
    ensures
        r matches Ok(p) ==> wf_policy(p),
        r matches Err(e) ==> parse_error(e),
        (match r {
            Ok(p) => sp_parse_tree(language, policy@) == Some(view_policy(p)),
            Err(_) => sp_parse_tree(language, policy@) is None,
        }),
{
    let n = policy.unicode_len();
    match language {
        PolicyLanguage::JsonPolicy => {
            match json_object(policy, n, 0) {
                Ok((node, j)) => {
                    let j1 = skip_ws(policy, n, j);
                    proof {
                        assert(sp_at(j as int, sp_skip_ws(policy@, j as int)) == j1 as int);
                    }
                    if j1 == n {
                        Ok(node)
                    } else {
                        Err(RabeError::PolicyParse(j1))
                    }
                },
                Err(e) => Err(e),
            }
        },
        PolicyLanguage::HumanPolicy => {
            match human_or(policy, n, 0) {
                Ok((node, j)) => {
                    let j1 = skip_ws(policy, n, j);
                    proof {
                        assert(sp_at(j as int, sp_skip_ws(policy@, j as int)) == j1 as int);
                    }
                    if j1 == n {
                        Ok(node)
                    } else {
                        Err(RabeError::PolicyParse(j1))
                    }
                },
                Err(e) => Err(e),
            }
        },
    }
}

} // verus!
