use vstd::prelude::*;
use vstd::string::*;

use crate::algebra::{fr_add, fr_from_u64, fr_inverse, fr_mul, fr_one, fr_rand, fr_sub, fr_zero};
use crate::errors::RabeError;
use crate::parser::{view_policy, views_of};
use crate::policy::{wf_policy, wf_policy_all, PolicyType, PolicyValue};
use crate::strutil::{dec_digits, fmt_u64};

verus! {

/// The labeled name of a leaf: the attribute, an underscore, and the leaf's
/// position in a pre-order walk of the tree.
pub open spec fn label_of(name: Seq<char>, idx: int) -> Seq<char> {
    name + "_"@ + dec_digits(idx)
}

/// How many leaves a policy tree has.
pub open spec fn n_leaves(p: PolicyValue) -> nat
    decreases p, 0int,
{
    match p {
        PolicyValue::String(_) => 1,
        PolicyValue::Object((t, b)) => n_leaves(*b),
        PolicyValue::Array(cs) => n_leaves_list(cs@),
    }
}

pub open spec fn n_leaves_list(cs: Seq<PolicyValue>) -> nat
    decreases cs, 1int,
{
    if cs.len() == 0 {
        0
    } else {
        n_leaves(cs[0]) + n_leaves_list(cs.subrange(1, cs.len() as int))
    }
}

/// The leaves of the tree in pre-order, each as its bare attribute name
/// paired with its labeled name, counting from `idx`.
pub open spec fn leaf_entries(p: PolicyValue, idx: int) -> Seq<(Seq<char>, Seq<char>)>
    decreases p, 0int,
{
    match p {
        PolicyValue::String(s) => seq![(s@, label_of(s@, idx))],
        PolicyValue::Object((t, b)) => leaf_entries(*b, idx),
        PolicyValue::Array(cs) => leaf_entries_list(cs@, idx),
    }
}

pub open spec fn leaf_entries_list(cs: Seq<PolicyValue>, idx: int) -> Seq<(Seq<char>, Seq<char>)>
    decreases cs, 1int,
{
    if cs.len() == 0 {
        Seq::<(Seq<char>, Seq<char>)>::empty()
    } else {
        leaf_entries(cs[0], idx) + leaf_entries_list(
            cs.subrange(1, cs.len() as int),
            idx + n_leaves(cs[0]),
        )
    }
}

/// Whether the attribute set `avail` satisfies the policy: a leaf must be
/// present, an `and` gate needs every child, an `or` gate at least one.
pub open spec fn satisfies(avail: Seq<Seq<char>>, p: PolicyValue) -> bool
    decreases p, 0int,
{
    match p {
        PolicyValue::String(s) => avail.contains(s@),
        PolicyValue::Object((t, b)) => match *b {
            PolicyValue::Array(cs) => cs.len() >= 2 && ((t == PolicyType::And && sat_all(
                avail,
                cs@,
            )) || (t == PolicyType::Or && sat_any(avail, cs@))),
            _ => false,
        },
        PolicyValue::Array(_) => false,
    }
}

pub open spec fn sat_all(avail: Seq<Seq<char>>, cs: Seq<PolicyValue>) -> bool
    decreases cs, 1int,
{
    forall|i: int| 0 <= i < cs.len() ==> satisfies(avail, #[trigger] cs[i])
}

pub open spec fn sat_any(avail: Seq<Seq<char>>, cs: Seq<PolicyValue>) -> bool
    decreases cs, 1int,
{
    exists|i: int| 0 <= i < cs.len() && satisfies(avail, #[trigger] cs[i])
}

/// The minimum satisfying leaf cover, for a satisfied tree: every child of
/// an `and` gate contributes, an `or` gate hands on its first satisfied
/// child only.
pub open spec fn spec_pruned(avail: Seq<Seq<char>>, p: PolicyValue, idx: int) -> Seq<
    (Seq<char>, Seq<char>),
>
    decreases p, 0int,
{
    match p {
        PolicyValue::String(s) => seq![(s@, label_of(s@, idx))],
        PolicyValue::Object((t, b)) => match *b {
            PolicyValue::Array(cs) => if t == PolicyType::And {
                pruned_all(avail, cs@, idx)
            } else {
                pruned_first(avail, cs@, idx)
            },
            _ => Seq::<(Seq<char>, Seq<char>)>::empty(),
        },
        PolicyValue::Array(_) => Seq::<(Seq<char>, Seq<char>)>::empty(),
    }
}

pub open spec fn pruned_all(avail: Seq<Seq<char>>, cs: Seq<PolicyValue>, idx: int) -> Seq<
    (Seq<char>, Seq<char>),
>
    decreases cs, 1int,
{
    if cs.len() == 0 {
        Seq::<(Seq<char>, Seq<char>)>::empty()
    } else {
        spec_pruned(avail, cs[0], idx) + pruned_all(
            avail,
            cs.subrange(1, cs.len() as int),
            idx + n_leaves(cs[0]),
        )
    }
}

pub open spec fn pruned_first(avail: Seq<Seq<char>>, cs: Seq<PolicyValue>, idx: int) -> Seq<
    (Seq<char>, Seq<char>),
>
    decreases cs, 1int,
{
    if cs.len() == 0 {
        Seq::<(Seq<char>, Seq<char>)>::empty()
    } else if satisfies(avail, cs[0]) {
        spec_pruned(avail, cs[0], idx)
    } else {
        pruned_first(avail, cs.subrange(1, cs.len() as int), idx + n_leaves(cs[0]))
    }
}

/// `v` carries one share per entry of `es`, labeled entry for entry.
pub open spec fn share_labels_ok(v: Seq<(String, rabe_bn::Fr)>, es: Seq<(Seq<char>, Seq<char>)>) -> bool {
    &&& v.len() == es.len()
    &&& forall|k: int| 0 <= k < es.len() ==> (#[trigger] v[k].0)@ == es[k].1
}

/// `v` carries the bare and labeled name of each entry of `es`.
pub open spec fn pair_labels_ok(v: Seq<(String, String)>, es: Seq<(Seq<char>, Seq<char>)>) -> bool {
    &&& v.len() == es.len()
    &&& forall|k: int| 0 <= k < es.len() ==> (#[trigger] v[k].0)@ == es[k].0 && v[k].1@ == es[k].1
}

/// Count the leaves of a tree; absent when the count does not fit a
/// machine word.
pub fn count_leaves(p: &PolicyValue) -> (r: Option<usize>)
    ensures
        r matches Some(k) ==> k == n_leaves(*p),
        r is None ==> n_leaves(*p) > usize::MAX,
    decreases *p, 0int, 0int,
{
    match p {
        PolicyValue::String(_) => Some(1),
        PolicyValue::Object(obj) => {
            let r0 = count_leaves(&obj.1);
            proof {
                assert(n_leaves(*p) == n_leaves(*obj.1));
            }
            r0
        },
        PolicyValue::Array(cs) => {
            let r0 = count_list(cs, 0);
            proof {
                assert(cs@.subrange(0, cs@.len() as int) =~= cs@);
            }
            r0
        },
    }
}

fn count_list(cs: &Vec<PolicyValue>, j: usize) -> (r: Option<usize>)
    requires
        j <= cs@.len(),
    ensures
        r matches Some(k) ==> k == n_leaves_list(cs@.subrange(j as int, cs@.len() as int)),
        r is None ==> n_leaves_list(cs@.subrange(j as int, cs@.len() as int)) > usize::MAX,
    decreases cs@, 1int, cs@.len() - j,
{
    let ghost whole = cs@.subrange(j as int, cs@.len() as int);
    if j == cs.len() {
        return Some(0);
    }
    proof {
        assert(whole[0] == cs@[j as int]);
        assert(whole.subrange(1, whole.len() as int) =~= cs@.subrange(j + 1, cs@.len() as int));
    }
    let a = match count_leaves(&cs[j]) {
        Some(k) => k,
        None => {
            return None;
        },
    };
    let b = match count_list(cs, j + 1) {
        Some(k) => k,
        None => {
            return None;
        },
    };
    a.checked_add(b)
}

fn make_label(name: &String, idx: usize) -> (r: String)
    ensures
        r@ == label_of(name@, idx as int),
{
    let mut out = name.clone();
    out.append("_");
    let digits = fmt_u64(idx as u64);
    out.append(digits.as_str());
    proof {
        assert(out@ =~= label_of(name@, idx as int));
    }
    out
}

/// The polynomial with constant term `s` and the further coefficients
/// `coeffs`, evaluated at `x` by Horner's rule.
fn eval_poly(s: rabe_bn::Fr, coeffs: &Vec<rabe_bn::Fr>, x: u64) -> (r: Option<rabe_bn::Fr>)
    ensures
        r is Some,
{
    let xf = match fr_from_u64(x) {
        Some(v) => v,
        None => {
            return None;
        },
    };
    let mut acc = fr_zero();
    let mut k: usize = coeffs.len();
    while k > 0
        invariant
            k <= coeffs@.len(),
        decreases k,
    {
        acc = fr_add(coeffs[k - 1], fr_mul(acc, xf));
        k = k - 1;
    }
    Some(fr_add(s, fr_mul(acc, xf)))
}

/// One share of the secret for every leaf of the tree, labeled by the
/// pre-order leaf position from `idx` on. Each gate deals the secret as a
/// `(t, n)` threshold: every child of an `and` gate is needed, one child of
/// an `or` gate is enough.
fn shares_node(secret: rabe_bn::Fr, p: &PolicyValue, idx: usize) -> (r: Option<
    Vec<(String, rabe_bn::Fr)>,
>)
    requires
        idx + n_leaves(*p) <= usize::MAX,
    ensures
        r matches Some(v) ==> wf_policy(*p) && share_labels_ok(v@, leaf_entries(*p, idx as int)),
        r is Some <==> wf_policy(*p),
    decreases *p, 0int, 0int,
{
    match p {
        PolicyValue::String(s) => {
            if s.as_str().unicode_len() == 0 {
                return None;
            }
            let mut out: Vec<(String, rabe_bn::Fr)> = Vec::new();
            let label = make_label(s, idx);
            out.push((label, secret));
            proof {
                assert(share_labels_ok(out@, leaf_entries(*p, idx as int)));
            }
            Some(out)
        },
        PolicyValue::Object(obj) => {
            match &*obj.1 {
                PolicyValue::Array(cs) => {
                    if cs.len() < 2 {
                        return None;
                    }
                    let mut coeffs: Vec<rabe_bn::Fr> = Vec::new();
                    match obj.0 {
                        PolicyType::And => {
                            let mut k: usize = 1;
                            while k < cs.len()
                                decreases cs@.len() - k,
                            {
                                coeffs.push(fr_rand());
                                k = k + 1;
                            }
                        },
                        PolicyType::Or => {},
                        PolicyType::Leaf => {
                            return None;
                        },
                    }
                    proof {
                        assert(cs@.subrange(0, cs@.len() as int) =~= cs@);
                        assert(*obj.1 == PolicyValue::Array(*cs));
                        assert(n_leaves(*p) == n_leaves(*obj.1));
                        assert(n_leaves(*obj.1) == n_leaves_list(cs@));
                        assert(leaf_entries(*p, idx as int) == leaf_entries(*obj.1, idx as int));
                        assert(leaf_entries(*obj.1, idx as int) == leaf_entries_list(
                            cs@,
                            idx as int,
                        ));
                    }
                    let r0 = shares_list(secret, cs, 0, idx, &coeffs);
                    proof {
                        if r0 is Some {
                            assert(wf_policy(*p));
                        }
                        if !wf_policy(*p) {
                            assert(!wf_policy_all(cs@));
                        }
                    }
                    r0
                },
                _ => None,
            }
        },
        PolicyValue::Array(_) => None,
    }
}

/// Subshares for the children of a gate, beginning at child `j`; the
/// gate's polynomial at the point `j + 1` is handed to child `j`.
fn shares_list(
    secret: rabe_bn::Fr,
    cs: &Vec<PolicyValue>,
    j: usize,
    idx: usize,
    coeffs: &Vec<rabe_bn::Fr>,
) -> (r: Option<Vec<(String, rabe_bn::Fr)>>)
    requires
        j <= cs@.len(),
        idx + n_leaves_list(cs@.subrange(j as int, cs@.len() as int)) <= usize::MAX,
    ensures
        r matches Some(v) ==> wf_policy_all(cs@.subrange(j as int, cs@.len() as int))
            && share_labels_ok(
            v@,
            leaf_entries_list(cs@.subrange(j as int, cs@.len() as int), idx as int),
        ),
        r is Some <==> wf_policy_all(cs@.subrange(j as int, cs@.len() as int)),
    decreases cs@, 1int, cs@.len() - j,
{
    let ghost whole = cs@.subrange(j as int, cs@.len() as int);
    if j == cs.len() {
        let out: Vec<(String, rabe_bn::Fr)> = Vec::new();
        return Some(out);
    }
    proof {
        assert(whole[0] == cs@[j as int]);
        assert(whole.subrange(1, whole.len() as int) =~= cs@.subrange(j + 1, cs@.len() as int));
    }
    let x = (j as u64) + 1;
    let sub = match eval_poly(secret, coeffs, x) {
        Some(v) => v,
        None => {
            // cannot happen: evaluation always yields a scalar
            proof {
                assert(false);
            }
            return None;
        },
    };
    let mut first = match shares_node(sub, &cs[j], idx) {
        Some(v) => v,
        None => {
            assert(!wf_policy(cs@[j as int]));
            return None;
        },
    };
    let a = match count_leaves(&cs[j]) {
        Some(k) => k,
        None => {
            // cannot happen: the caller's bound covers this subtree's count
            proof {
                assert(false);
            }
            return None;
        },
    };
    let mut rest = match shares_list(secret, cs, j + 1, idx + a, coeffs) {
        Some(v) => v,
        None => {
            return None;
        },
    };
    proof {
        let es0 = leaf_entries(cs@[j as int], idx as int);
        let es1 = leaf_entries_list(cs@.subrange(j + 1, cs@.len() as int), idx + a);
        assert(share_labels_ok((first@ + rest@), es0 + es1)) by {
            assert forall|k: int| 0 <= k < es0.len() + es1.len() implies ((first@ + rest@)[k].0)@
                == (es0 + es1)[k].1 by {
                if k < es0.len() {
                    assert(first@[k].0@ == es0[k].1);
                } else {
                    assert(rest@[k - es0.len()].0@ == es1[k - es0.len()].1);
                }
            }
        }
        assert forall|q: int| 0 <= q < whole.len() implies wf_policy(#[trigger] whole[q]) by {
            if q == 0 {
                assert(wf_policy(cs@[j as int]));
            } else {
                assert(wf_policy(whole.subrange(1, whole.len() as int)[q - 1]));
            }
        }
    }
    first.append(&mut rest);
    Some(first)
}

/// One share per leaf of the access tree, each labeled with the leaf's
/// pre-order position, the secret dealt through nested `(t, n)` thresholds
/// (every child of an `and` gate needed, one child of an `or` gate enough).
/// That a satisfying set recombines the secret is an identity of the
/// outside field, exercised by the test suite rather than stated here.
/// Absent exactly on a malformed tree (a gate with fewer than two children,
/// a bare child list, an empty attribute) or a leaf count beyond a machine
/// word.
pub fn gen_shares_policy(secret: rabe_bn::Fr, p: &PolicyValue) -> (r: Option<
    Vec<(String, rabe_bn::Fr)>,
>)
    ensures
        r matches Some(v) ==> wf_policy(*p) && share_labels_ok(v@, leaf_entries(*p, 0)),
        !wf_policy(*p) ==> r is None,
        wf_policy(*p) && n_leaves(*p) <= usize::MAX ==> r is Some,
{
    match count_leaves(p) {
        Some(_) => shares_node(secret, p, 0),
        None => None,
    }
}


/// Whether `s` stands in `attr`.
fn contains_name(attr: &Vec<String>, s: &String) -> (r: bool)
    ensures
        r == attr.deep_view().contains(s@),
{
    let mut k: usize = 0;
    while k < attr.len()
        invariant
            k <= attr@.len(),
            forall|j: int| 0 <= j < k ==> attr.deep_view()[j] != s@,
        decreases attr@.len() - k,
    {
        if crate::parser::str_eq(attr[k].as_str(), s.as_str()) {
            assert(attr.deep_view()[k as int] == s@);
            return true;
        }
        k = k + 1;
    }
    proof {
        assert(!attr.deep_view().contains(s@)) by {
            if attr.deep_view().contains(s@) {
                let w = choose|w: int|
                    0 <= w < attr.deep_view().len() && attr.deep_view()[w] == s@;
                assert(attr.deep_view()[w] != s@);
            }
        }
    }
    false
}

proof fn lemma_sat_all_split(avail: Seq<Seq<char>>, cs: Seq<PolicyValue>)
    requires
        cs.len() > 0,
    ensures
        sat_all(avail, cs) == (satisfies(avail, cs[0]) && sat_all(
            avail,
            cs.subrange(1, cs.len() as int),
        )),
{
    let sub = cs.subrange(1, cs.len() as int);
    if satisfies(avail, cs[0]) && sat_all(avail, sub) {
        assert forall|i: int| 0 <= i < cs.len() implies satisfies(avail, #[trigger] cs[i]) by {
            if i > 0 {
                assert(satisfies(avail, sub[i - 1]));
            }
        }
    }
    if sat_all(avail, cs) {
        assert forall|i: int| 0 <= i < sub.len() implies satisfies(avail, #[trigger] sub[i]) by {
            assert(satisfies(avail, cs[i + 1]));
        }
    }
}

proof fn lemma_sat_any_split(avail: Seq<Seq<char>>, cs: Seq<PolicyValue>)
    requires
        cs.len() > 0,
    ensures
        sat_any(avail, cs) == (satisfies(avail, cs[0]) || sat_any(
            avail,
            cs.subrange(1, cs.len() as int),
        )),
{
    let sub = cs.subrange(1, cs.len() as int);
    if satisfies(avail, cs[0]) {
        assert(sat_any(avail, cs));
    }
    if sat_any(avail, sub) {
        let w = choose|w: int| 0 <= w < sub.len() && satisfies(avail, sub[w]);
        assert(satisfies(avail, cs[w + 1]));
        assert(sat_any(avail, cs));
    }
    if sat_any(avail, cs) {
        let w = choose|w: int| 0 <= w < cs.len() && satisfies(avail, cs[w]);
        if w > 0 {
            assert(satisfies(avail, sub[w - 1]));
            assert(sat_any(avail, sub));
        }
    }
}

/// Whether the attributes satisfy the subtree, and the cover it
/// contributes, mirroring [`satisfies`] and [`spec_pruned`].
fn pruned_node(attr: &Vec<String>, p: &PolicyValue, idx: usize) -> (r: Result<
    (bool, Vec<(String, String)>),
    RabeError,
>)
    requires
        idx + n_leaves(*p) <= usize::MAX,
    ensures
        r is Ok <==> wf_policy(*p),
        r matches Ok(pr) ==> pr.0 == satisfies(attr.deep_view(), *p) && (pr.0 ==> pair_labels_ok(
            pr.1@,
            spec_pruned(attr.deep_view(), *p, idx as int),
        )) && (!pr.0 ==> pr.1@.len() == 0),
        r matches Err(e) ==> e == RabeError::PolicyShape,
    decreases *p, 0int, 0int,
{
    match p {
        PolicyValue::String(s) => {
            if s.as_str().unicode_len() == 0 {
                return Err(RabeError::PolicyShape);
            }
            let sat = contains_name(attr, s);
            let mut out: Vec<(String, String)> = Vec::new();
            if sat {
                let bare = s.clone();
                let label = make_label(s, idx);
                out.push((bare, label));
                proof {
                    assert(pair_labels_ok(out@, spec_pruned(attr.deep_view(), *p, idx as int)));
                }
            }
            Ok((sat, out))
        },
        PolicyValue::Object(obj) => {
            match &*obj.1 {
                PolicyValue::Array(cs) => {
                    if cs.len() < 2 {
                        return Err(RabeError::PolicyShape);
                    }
                    proof {
                        assert(cs@.subrange(0, cs@.len() as int) =~= cs@);
                        assert(*obj.1 == PolicyValue::Array(*cs));
                        assert(n_leaves(*p) == n_leaves(*obj.1));
                        assert(n_leaves(*obj.1) == n_leaves_list(cs@));
                    }
                    match obj.0 {
                        PolicyType::And => {
                            let r0 = match pruned_and(attr, cs, 0, idx) {
                                Ok(pr) => pr,
                                Err(e) => {
                                    return Err(e);
                                },
                            };
                            proof {
                                assert(satisfies(attr.deep_view(), *p) == (cs@.len() >= 2
                                    && sat_all(attr.deep_view(), cs@)));
                                assert(spec_pruned(attr.deep_view(), *p, idx as int)
                                    == pruned_all(attr.deep_view(), cs@, idx as int));
                                assert(wf_policy(*p) == (cs@.len() >= 2 && wf_policy_all(cs@)));
                            }
                            Ok(r0)
                        },
                        PolicyType::Or => {
                            let r0 = match pruned_or(attr, cs, 0, idx) {
                                Ok(pr) => pr,
                                Err(e) => {
                                    return Err(e);
                                },
                            };
                            proof {
                                assert(satisfies(attr.deep_view(), *p) == (cs@.len() >= 2
                                    && sat_any(attr.deep_view(), cs@)));
                                assert(spec_pruned(attr.deep_view(), *p, idx as int)
                                    == pruned_first(attr.deep_view(), cs@, idx as int));
                                assert(wf_policy(*p) == (cs@.len() >= 2 && wf_policy_all(cs@)));
                            }
                            Ok(r0)
                        },
                        PolicyType::Leaf => Err(RabeError::PolicyShape),
                    }
                },
                _ => Err(RabeError::PolicyShape),
            }
        },
        PolicyValue::Array(_) => Err(RabeError::PolicyShape),
    }
}

/// The children of an `and` gate from `j` on: satisfied when every child
/// is, the cover the concatenation of the children's covers.
fn pruned_and(attr: &Vec<String>, cs: &Vec<PolicyValue>, j: usize, idx: usize) -> (r: Result<
    (bool, Vec<(String, String)>),
    RabeError,
>)
    requires
        j <= cs@.len(),
        idx + n_leaves_list(cs@.subrange(j as int, cs@.len() as int)) <= usize::MAX,
    ensures
        r is Ok <==> wf_policy_all(cs@.subrange(j as int, cs@.len() as int)),
        r matches Ok(pr) ==> pr.0 == sat_all(
            attr.deep_view(),
            cs@.subrange(j as int, cs@.len() as int),
        ) && (pr.0 ==> pair_labels_ok(
            pr.1@,
            pruned_all(attr.deep_view(), cs@.subrange(j as int, cs@.len() as int), idx as int),
        )) && (!pr.0 ==> pr.1@.len() == 0),
        r matches Err(e) ==> e == RabeError::PolicyShape,
    decreases cs@, 1int, cs@.len() - j,
{
    let ghost whole = cs@.subrange(j as int, cs@.len() as int);
    if j == cs.len() {
        let out: Vec<(String, String)> = Vec::new();
        return Ok((true, out));
    }
    proof {
        assert(whole[0] == cs@[j as int]);
        assert(whole.subrange(1, whole.len() as int) =~= cs@.subrange(j + 1, cs@.len() as int));
        lemma_sat_all_split(attr.deep_view(), whole);
    }
    let (sat0, mut cover0) = match pruned_node(attr, &cs[j], idx) {
        Ok(pr) => pr,
        Err(e) => {
            return Err(e);
        },
    };
    let a = match count_leaves(&cs[j]) {
        Some(k) => k,
        None => {
            // cannot happen: the caller's bound covers this subtree's count
            proof {
                assert(false);
            }
            return Err(RabeError::PolicyShape);
        },
    };
    let (sat1, mut cover1) = match pruned_and(attr, cs, j + 1, idx + a) {
        Ok(pr) => pr,
        Err(e) => {
            return Err(e);
        },
    };
    proof {
        assert forall|q: int| 0 <= q < whole.len() implies wf_policy(#[trigger] whole[q]) by {
            if q == 0 {
                assert(wf_policy(cs@[j as int]));
            } else {
                assert(wf_policy(whole.subrange(1, whole.len() as int)[q - 1]));
            }
        }
    }
    if sat0 && sat1 {
        proof {
            let es0 = spec_pruned(attr.deep_view(), cs@[j as int], idx as int);
            let es1 = pruned_all(
                attr.deep_view(),
                cs@.subrange(j + 1, cs@.len() as int),
                idx + a,
            );
            assert(pair_labels_ok((cover0@ + cover1@), es0 + es1)) by {
                assert forall|k: int| 0 <= k < es0.len() + es1.len() implies ((cover0@
                    + cover1@)[k].0)@ == (es0 + es1)[k].0 && ((cover0@ + cover1@)[k].1)@ == (es0
                    + es1)[k].1 by {
                    if k < es0.len() {
                        assert(cover0@[k].0@ == es0[k].0 && cover0@[k].1@ == es0[k].1);
                    } else {
                        assert(cover1@[k - es0.len()].0@ == es1[k - es0.len()].0 && cover1@[k
                            - es0.len()].1@ == es1[k - es0.len()].1);
                    }
                }
            }
            assert(pruned_all(attr.deep_view(), whole, idx as int) == es0 + es1);
        }
        cover0.append(&mut cover1);
        Ok((true, cover0))
    } else {
        let out: Vec<(String, String)> = Vec::new();
        Ok((false, out))
    }
}

/// The children of an `or` gate from `j` on: satisfied when one child is,
/// the cover that of the first satisfied child.
fn pruned_or(attr: &Vec<String>, cs: &Vec<PolicyValue>, j: usize, idx: usize) -> (r: Result<
    (bool, Vec<(String, String)>),
    RabeError,
>)
    requires
        j <= cs@.len(),
        idx + n_leaves_list(cs@.subrange(j as int, cs@.len() as int)) <= usize::MAX,
    ensures
        r is Ok <==> wf_policy_all(cs@.subrange(j as int, cs@.len() as int)),
        r matches Ok(pr) ==> pr.0 == sat_any(
            attr.deep_view(),
            cs@.subrange(j as int, cs@.len() as int),
        ) && (pr.0 ==> pair_labels_ok(
            pr.1@,
            pruned_first(attr.deep_view(), cs@.subrange(j as int, cs@.len() as int), idx as int),
        )) && (!pr.0 ==> pr.1@.len() == 0),
        r matches Err(e) ==> e == RabeError::PolicyShape,
    decreases cs@, 1int, cs@.len() - j,
{
    let ghost whole = cs@.subrange(j as int, cs@.len() as int);
    if j == cs.len() {
        let out: Vec<(String, String)> = Vec::new();
        proof {
            assert(!sat_any(attr.deep_view(), whole));
        }
        return Ok((false, out));
    }
    proof {
        assert(whole[0] == cs@[j as int]);
        assert(whole.subrange(1, whole.len() as int) =~= cs@.subrange(j + 1, cs@.len() as int));
        lemma_sat_any_split(attr.deep_view(), whole);
    }
    let (sat0, cover0) = match pruned_node(attr, &cs[j], idx) {
        Ok(pr) => pr,
        Err(e) => {
            return Err(e);
        },
    };
    let a = match count_leaves(&cs[j]) {
        Some(k) => k,
        None => {
            // cannot happen: the caller's bound covers this subtree's count
            proof {
                assert(false);
            }
            return Err(RabeError::PolicyShape);
        },
    };
    let (sat1, cover1) = match pruned_or(attr, cs, j + 1, idx + a) {
        Ok(pr) => pr,
        Err(e) => {
            return Err(e);
        },
    };
    proof {
        assert forall|q: int| 0 <= q < whole.len() implies wf_policy(#[trigger] whole[q]) by {
            if q == 0 {
                assert(wf_policy(cs@[j as int]));
            } else {
                assert(wf_policy(whole.subrange(1, whole.len() as int)[q - 1]));
            }
        }
    }
    if sat0 {
        Ok((true, cover0))
    } else {
        Ok((sat1, cover1))
    }
}

/// Whether the attribute names satisfy the access tree and, if so, a
/// minimum satisfying leaf cover: each entry pairs the leaf's bare
/// attribute name with its labeled name, under the same labeling as
/// [`gen_shares_policy`]. Of a satisfied `or` gate the first satisfied
/// child is chosen, so the cover is deterministic in the inputs.
pub fn calc_pruned(attr: &Vec<String>, p: &PolicyValue) -> (r: Result<(bool, Vec<(String, String)>), RabeError>)
    ensures
        r matches Ok(pr) ==> wf_policy(*p) && pr.0 == satisfies(attr.deep_view(), *p),
        r matches Ok(pr) ==> (pr.0 ==> pair_labels_ok(
            pr.1@,
            spec_pruned(attr.deep_view(), *p, 0),
        )),
        r matches Ok(pr) ==> (!pr.0 ==> pr.1@.len() == 0),
        r matches Err(e) ==> e == RabeError::PolicyShape,
        r matches Err(e) ==> (n_leaves(*p) <= usize::MAX ==> !wf_policy(*p)),
{
    match count_leaves(p) {
        Some(_) => pruned_node(attr, p, 0),
        None => Err(RabeError::PolicyShape),
    }
}


/// Whether the tree holds no `and` gate: recovery coefficients then carry
/// no Lagrange factor and no field inversion is performed.
pub open spec fn or_only(p: PolicyValue) -> bool
    decreases p, 0int,
{
    match p {
        PolicyValue::String(_) => true,
        PolicyValue::Object((t, b)) => t != PolicyType::And && or_only(*b),
        PolicyValue::Array(cs) => or_only_list(cs@),
    }
}

pub open spec fn or_only_list(cs: Seq<PolicyValue>) -> bool
    decreases cs, 1int,
{
    forall|i: int| 0 <= i < cs.len() ==> or_only(#[trigger] cs[i])
}

/// The Lagrange recovery factor of child `i` among `n` all-needed
/// children: the basis polynomial of node `i` over the nodes `1..=n`,
/// evaluated at zero. Absent should a scalar not be available or an
/// inversion fail.
fn lagrange_factor(i: u64, n: u64) -> Option<rabe_bn::Fr> {
    let xi = match fr_from_u64(i) {
        Some(v) => v,
        None => {
            return None;
        },
    };
    let zero = fr_zero();
    let mut num = fr_one();
    let mut den = fr_one();
    let mut j: u64 = 0;
    while j < n
        decreases n - j,
    {
        let jj = j + 1;
        if jj != i {
            let xj = match fr_from_u64(jj) {
                Some(v) => v,
                None => {
                    return None;
                },
            };
            num = fr_mul(num, fr_sub(zero, xj));
            den = fr_mul(den, fr_sub(xi, xj));
        }
        j = j + 1;
    }
    match fr_inverse(&den) {
        Some(inv) => Some(fr_mul(num, inv)),
        None => None,
    }
}

/// The recovery coefficient of every leaf under this subtree, each child
/// of an `and` gate weighted by its Lagrange factor, every child of an
/// `or` gate inheriting the accumulated coefficient unchanged.
fn coeff_node(p: &PolicyValue, cur: rabe_bn::Fr, idx: usize) -> (r: Option<
    Vec<(String, rabe_bn::Fr)>,
>)
    requires
        idx + n_leaves(*p) <= usize::MAX,
    ensures
        r matches Some(v) ==> wf_policy(*p) && share_labels_ok(v@, leaf_entries(*p, idx as int)),
        !wf_policy(*p) ==> r is None,
        wf_policy(*p) && or_only(*p) ==> r is Some,
    decreases *p, 0int, 0int,
{
    match p {
        PolicyValue::String(s) => {
            if s.as_str().unicode_len() == 0 {
                return None;
            }
            let mut out: Vec<(String, rabe_bn::Fr)> = Vec::new();
            let label = make_label(s, idx);
            out.push((label, cur));
            proof {
                assert(share_labels_ok(out@, leaf_entries(*p, idx as int)));
            }
            Some(out)
        },
        PolicyValue::Object(obj) => {
            match &*obj.1 {
                PolicyValue::Array(cs) => {
                    if cs.len() < 2 {
                        return None;
                    }
                    let weighted = match obj.0 {
                        PolicyType::And => true,
                        PolicyType::Or => false,
                        PolicyType::Leaf => {
                            return None;
                        },
                    };
                    proof {
                        assert(cs@.subrange(0, cs@.len() as int) =~= cs@);
                        assert(*obj.1 == PolicyValue::Array(*cs));
                        assert(n_leaves(*p) == n_leaves(*obj.1));
                        assert(n_leaves(*obj.1) == n_leaves_list(cs@));
                        assert(leaf_entries(*p, idx as int) == leaf_entries(*obj.1, idx as int));
                        assert(leaf_entries(*obj.1, idx as int) == leaf_entries_list(
                            cs@,
                            idx as int,
                        ));
                    }
                    let r0 = coeff_list(cs, 0, idx, cur, weighted);
                    proof {
                        if r0 is Some {
                            assert(wf_policy(*p));
                        }
                        if !wf_policy(*p) {
                            assert(!wf_policy_all(cs@));
                        }
                        if or_only(*p) {
                            assert(or_only(*obj.1));
                            assert(or_only_list(cs@));
                        }
                    }
                    r0
                },
                _ => None,
            }
        },
        PolicyValue::Array(_) => None,
    }
}

/// Coefficients for the children of one gate, from child `j` on.
fn coeff_list(
    cs: &Vec<PolicyValue>,
    j: usize,
    idx: usize,
    cur: rabe_bn::Fr,
    weighted: bool,
) -> (r: Option<Vec<(String, rabe_bn::Fr)>>)
    requires
        j <= cs@.len(),
        idx + n_leaves_list(cs@.subrange(j as int, cs@.len() as int)) <= usize::MAX,
    ensures
        r matches Some(v) ==> wf_policy_all(cs@.subrange(j as int, cs@.len() as int))
            && share_labels_ok(
            v@,
            leaf_entries_list(cs@.subrange(j as int, cs@.len() as int), idx as int),
        ),
        !wf_policy_all(cs@.subrange(j as int, cs@.len() as int)) ==> r is None,
        wf_policy_all(cs@.subrange(j as int, cs@.len() as int)) && or_only_list(
            cs@.subrange(j as int, cs@.len() as int),
        ) && !weighted ==> r is Some,
    decreases cs@, 1int, cs@.len() - j,
{
    let ghost whole = cs@.subrange(j as int, cs@.len() as int);
    if j == cs.len() {
        let out: Vec<(String, rabe_bn::Fr)> = Vec::new();
        return Some(out);
    }
    proof {
        assert(whole[0] == cs@[j as int]);
        assert(whole.subrange(1, whole.len() as int) =~= cs@.subrange(j + 1, cs@.len() as int));
    }
    let child_cur = if weighted {
        if j == usize::MAX || cs.len() == usize::MAX {
            return None;
        }
        let f = match lagrange_factor((j as u64) + 1, cs.len() as u64) {
            Some(v) => v,
            None => {
                return None;
            },
        };
        fr_mul(cur, f)
    } else {
        cur
    };
    let mut first = match coeff_node(&cs[j], child_cur, idx) {
        Some(v) => v,
        None => {
            assert(!wf_policy(cs@[j as int]) || !or_only(cs@[j as int]));
            return None;
        },
    };
    let a = match count_leaves(&cs[j]) {
        Some(k) => k,
        None => {
            // cannot happen: the caller's bound covers this subtree's count
            proof {
                assert(false);
            }
            return None;
        },
    };
    let mut rest = match coeff_list(cs, j + 1, idx + a, cur, weighted) {
        Some(v) => v,
        None => {
            return None;
        },
    };
    proof {
        let es0 = leaf_entries(cs@[j as int], idx as int);
        let es1 = leaf_entries_list(cs@.subrange(j + 1, cs@.len() as int), idx + a);
        assert(share_labels_ok((first@ + rest@), es0 + es1)) by {
            assert forall|k: int| 0 <= k < es0.len() + es1.len() implies ((first@ + rest@)[k].0)@
                == (es0 + es1)[k].1 by {
                if k < es0.len() {
                    assert(first@[k].0@ == es0[k].1);
                } else {
                    assert(rest@[k - es0.len()].0@ == es1[k - es0.len()].1);
                }
            }
        }
        assert forall|q: int| 0 <= q < whole.len() implies wf_policy(#[trigger] whole[q]) by {
            if q == 0 {
                assert(wf_policy(cs@[j as int]));
            } else {
                assert(wf_policy(whole.subrange(1, whole.len() as int)[q - 1]));
            }
        }
    }
    first.append(&mut rest);
    Some(first)
}

/// The Lagrange recovery coefficient of every leaf of the tree, labeled as
/// in [`gen_shares_policy`]; `top` is the accumulated coefficient handed to
/// the root. That cover shares weighted by these coefficients add up to the
/// shared secret is an identity of the outside field, exercised by the test
/// suite rather than stated here.
/// Absent on a malformed tree or when a field inversion under an `and`
/// gate is not available; on a tree of `or` gates alone nothing is
/// inverted, so the coefficients are owed.
pub fn calc_coefficients(p: &PolicyValue, top: rabe_bn::Fr) -> (r: Option<
    Vec<(String, rabe_bn::Fr)>,
>)
    ensures
        r matches Some(v) ==> wf_policy(*p) && share_labels_ok(v@, leaf_entries(*p, 0)),
        !wf_policy(*p) ==> r is None,
        wf_policy(*p) && or_only(*p) && n_leaves(*p) <= usize::MAX ==> r is Some,
{
    match count_leaves(p) {
        Some(_) => coeff_node(p, top, 0),
        None => None,
    }
}

/// The index of the last underscore of `s`, or a negative number when
/// there is none.
pub open spec fn last_uscore(s: Seq<char>) -> int
    decreases s.len(),
{
    if s.len() == 0 {
        -1
    } else if s[s.len() - 1] == '_' {
        s.len() - 1
    } else {
        last_uscore(s.drop_last())
    }
}

/// `s` cut off at its last underscore; `s` itself when it has none.
pub open spec fn strip_label(s: Seq<char>) -> Seq<char> {
    if last_uscore(s) < 0 {
        s
    } else {
        s.subrange(0, last_uscore(s))
    }
}

proof fn lemma_uscore_at(s: Seq<char>, m: int)
    requires
        0 <= m < s.len(),
        s[m] == '_',
        forall|j: int| m < j < s.len() ==> s[j] != '_',
    ensures
        last_uscore(s) == m,
    decreases s.len(),
{
    if m + 1 == s.len() {
    } else {
        assert(s.drop_last()[m] == '_');
        lemma_uscore_at(s.drop_last(), m);
    }
}

proof fn lemma_no_uscore(s: Seq<char>)
    requires
        forall|j: int| 0 <= j < s.len() ==> s[j] != '_',
    ensures
        last_uscore(s) == -1,
    decreases s.len(),
{
    if s.len() > 0 {
        lemma_no_uscore(s.drop_last());
    }
}

/// The bare attribute name of a labeled share name: everything before the
/// last underscore, which [`gen_shares_policy`] put between the name and
/// the leaf index.
pub fn remove_index(name: &String) -> (r: String)
    ensures
        r@ == strip_label(name@),
{
    let s = name.as_str();
    let n = s.unicode_len();
    let mut k: usize = n;
    while k > 0
        invariant
            s@ == name@,
            n == s@.len(),
            k <= n,
            forall|j: int| k <= j < n ==> s@[j] != '_',
        decreases k,
    {
        if s.get_char(k - 1) == '_' {
            let r = s.substring_char(0, k - 1).to_owned();
            proof {
                lemma_uscore_at(s@, k - 1);
                assert(last_uscore(name@) == k - 1);
            }
            return r;
        }
        k = k - 1;
    }
    let r = s.to_owned();
    proof {
        lemma_no_uscore(s@);
    }
    r
}


proof fn lemma_dec_no_uscore(n: int)
    ensures
        dec_digits(n).len() >= 1,
        forall|k: int| 0 <= k < dec_digits(n).len() ==> dec_digits(n)[k] != '_',
    decreases n,
{
    if n < 10 {
    } else {
        lemma_dec_no_uscore(n / 10);
        assert forall|k: int| 0 <= k < dec_digits(n).len() implies dec_digits(n)[k] != '_' by {
            if k < dec_digits(n / 10).len() {
                assert(dec_digits(n)[k] == dec_digits(n / 10)[k]);
            }
        }
    }
}

/// Stripping the index from a labeled leaf name gives back the bare
/// attribute name, whatever underscores the attribute itself holds: the
/// label's last underscore is the separator the labeling added.
pub proof fn lemma_label_strip(name: Seq<char>, idx: int)
    ensures
        strip_label(label_of(name, idx)) == name,
{
    reveal_strlit("_");
    lemma_dec_no_uscore(idx);
    let lab = label_of(name, idx);
    assert(lab[name.len() as int] == '_');
    assert forall|j: int| name.len() < j < lab.len() implies lab[j] != '_' by {
        assert(lab[j] == dec_digits(idx)[j - name.len() - 1]);
    }
    lemma_uscore_at(lab, name.len() as int);
    assert(strip_label(lab) =~= name);
}


/// Every entry of a satisfying cover is a leaf of the tree: the bare and
/// labeled name of each cover entry stand, unchanged, among the tree's
/// leaf entries under the same labeling.
pub proof fn lemma_cover_entries_are_leaves(avail: Seq<Seq<char>>, p: PolicyValue, idx: int)
    requires
        wf_policy(p),
        satisfies(avail, p),
    ensures
        forall|k: int|
            0 <= k < spec_pruned(avail, p, idx).len() ==> leaf_entries(p, idx).contains(
                #[trigger] spec_pruned(avail, p, idx)[k],
            ),
    decreases p, 0int,
{
    match p {
        PolicyValue::String(s) => {
            assert(leaf_entries(p, idx)[0] == spec_pruned(avail, p, idx)[0]);
            assert(leaf_entries(p, idx).contains(spec_pruned(avail, p, idx)[0]));
        },
        PolicyValue::Object((t, b)) => {
            match *b {
                PolicyValue::Array(cs) => {
                    assert(leaf_entries(p, idx) == leaf_entries(*b, idx));
                    assert(leaf_entries(*b, idx) == leaf_entries_list(cs@, idx));
                    assert(cs@.len() >= 2 && wf_policy_all(cs@));
                    if t == PolicyType::And {
                        assert(sat_all(avail, cs@));
                        assert(spec_pruned(avail, p, idx) == pruned_all(avail, cs@, idx));
                        lemma_pruned_all_leaves(avail, cs@, idx);
                    } else {
                        assert(t == PolicyType::Or);
                        assert(sat_any(avail, cs@));
                        assert(spec_pruned(avail, p, idx) == pruned_first(avail, cs@, idx));
                        lemma_pruned_first_leaves(avail, cs@, idx);
                    }
                },
                _ => {},
            }
        },
        PolicyValue::Array(_) => {},
    }
}

proof fn lemma_pruned_all_leaves(avail: Seq<Seq<char>>, cs: Seq<PolicyValue>, idx: int)
    requires
        wf_policy_all(cs),
        sat_all(avail, cs),
    ensures
        forall|k: int|
            0 <= k < pruned_all(avail, cs, idx).len() ==> leaf_entries_list(cs, idx).contains(
                #[trigger] pruned_all(avail, cs, idx)[k],
            ),
    decreases cs, 1int,
{
    if cs.len() > 0 {
        let sub = cs.subrange(1, cs.len() as int);
        let idx1 = idx + n_leaves(cs[0]);
        assert(wf_policy(cs[0]) && satisfies(avail, cs[0]));
        assert forall|i: int| 0 <= i < sub.len() implies wf_policy(#[trigger] sub[i]) && satisfies(
            avail,
            sub[i],
        ) by {
            assert(wf_policy(cs[i + 1]) && satisfies(avail, cs[i + 1]));
        }
        lemma_cover_entries_are_leaves(avail, cs[0], idx);
        lemma_pruned_all_leaves(avail, sub, idx1);
        let c0 = spec_pruned(avail, cs[0], idx);
        let crest = pruned_all(avail, sub, idx1);
        let l0 = leaf_entries(cs[0], idx);
        let lrest = leaf_entries_list(sub, idx1);
        assert forall|k: int| 0 <= k < pruned_all(avail, cs, idx).len() implies leaf_entries_list(
            cs,
            idx,
        ).contains(#[trigger] pruned_all(avail, cs, idx)[k]) by {
            let x = pruned_all(avail, cs, idx)[k];
            if k < c0.len() {
                assert(l0.contains(x));
                let w = choose|w: int| 0 <= w < l0.len() && l0[w] == x;
                assert(leaf_entries_list(cs, idx)[w] == x);
            } else {
                assert(crest.contains(x));
                let w = choose|w: int| 0 <= w < lrest.len() && lrest[w] == x;
                assert(leaf_entries_list(cs, idx)[l0.len() + w] == x);
            }
        }
    }
}

proof fn lemma_pruned_first_leaves(avail: Seq<Seq<char>>, cs: Seq<PolicyValue>, idx: int)
    requires
        wf_policy_all(cs),
        sat_any(avail, cs),
    ensures
        forall|k: int|
            0 <= k < pruned_first(avail, cs, idx).len() ==> leaf_entries_list(cs, idx).contains(
                #[trigger] pruned_first(avail, cs, idx)[k],
            ),
    decreases cs, 1int,
{
    let sub = cs.subrange(1, cs.len() as int);
    let idx1 = idx + n_leaves(cs[0]);
    let l0 = leaf_entries(cs[0], idx);
    let lrest = leaf_entries_list(sub, idx1);
    if satisfies(avail, cs[0]) {
        assert(wf_policy(cs[0]));
        lemma_cover_entries_are_leaves(avail, cs[0], idx);
        assert forall|k: int| 0 <= k < pruned_first(avail, cs, idx).len() implies leaf_entries_list(
            cs,
            idx,
        ).contains(#[trigger] pruned_first(avail, cs, idx)[k]) by {
            let x = pruned_first(avail, cs, idx)[k];
            assert(pruned_first(avail, cs, idx) == spec_pruned(avail, cs[0], idx));
            assert(l0.contains(spec_pruned(avail, cs[0], idx)[k]));
            assert(l0.contains(x));
            let w = choose|w: int| 0 <= w < l0.len() && l0[w] == x;
            assert(leaf_entries_list(cs, idx)[w] == x);
        }
    } else {
        let wit = choose|w: int| 0 <= w < cs.len() && satisfies(avail, cs[w]);
        assert(satisfies(avail, sub[wit - 1]));
        assert forall|i: int| 0 <= i < sub.len() implies wf_policy(#[trigger] sub[i]) by {
            assert(wf_policy(cs[i + 1]));
        }
        lemma_pruned_first_leaves(avail, sub, idx1);
        assert forall|k: int| 0 <= k < pruned_first(avail, cs, idx).len() implies leaf_entries_list(
            cs,
            idx,
        ).contains(#[trigger] pruned_first(avail, cs, idx)[k]) by {
            let x = pruned_first(avail, cs, idx)[k];
            assert(pruned_first(avail, sub, idx1).contains(x));
            let w = choose|w: int| 0 <= w < lrest.len() && lrest[w] == x;
            assert(leaf_entries_list(cs, idx)[l0.len() + w] == x);
        }
    }
}


proof fn lemma_views_facts(cs: Seq<PolicyValue>)
    ensures
        views_of(cs).len() == cs.len(),
        forall|k: int| 0 <= k < cs.len() ==> views_of(cs)[k] == view_policy(#[trigger] cs[k]),
    decreases cs,
{
    if cs.len() > 0 {
        let sub = cs.subrange(1, cs.len() as int);
        lemma_views_facts(sub);
        assert forall|k: int| 0 <= k < cs.len() implies views_of(cs)[k] == view_policy(
            #[trigger] cs[k],
        ) by {
            if k > 0 {
                assert(views_of(sub)[k - 1] == view_policy(sub[k - 1]));
            }
        }
    }
}

proof fn lemma_wf_all_split(cs: Seq<PolicyValue>)
    requires
        cs.len() > 0,
    ensures
        wf_policy_all(cs) == (wf_policy(cs[0]) && wf_policy_all(cs.subrange(1, cs.len() as int))),
{
    let sub = cs.subrange(1, cs.len() as int);
    if wf_policy(cs[0]) && wf_policy_all(sub) {
        assert forall|i: int| 0 <= i < cs.len() implies wf_policy(#[trigger] cs[i]) by {
            if i > 0 {
                assert(wf_policy(sub[i - 1]));
            }
        }
    }
    if wf_policy_all(cs) {
        assert forall|i: int| 0 <= i < sub.len() implies wf_policy(#[trigger] sub[i]) by {
            assert(wf_policy(cs[i + 1]));
        }
    }
}

/// Two trees with one specification-land shape agree on everything the
/// sharing layer reads of a tree: well-formedness, satisfaction, leaf
/// count and the labeled leaf entries.
pub proof fn lemma_view_determines(a: PolicyValue, b: PolicyValue, av: Seq<Seq<char>>, idx: int)
    requires
        view_policy(a) == view_policy(b),
    ensures
        wf_policy(a) == wf_policy(b),
        satisfies(av, a) == satisfies(av, b),
        n_leaves(a) == n_leaves(b),
        leaf_entries(a, idx) == leaf_entries(b, idx),
    decreases a, 0int,
{
    match a {
        PolicyValue::String(s1) => {
            match b {
                PolicyValue::String(s2) => {
                    assert(s1@ == s2@);
                },
                PolicyValue::Object(_) => {
                    assert(false);
                },
                PolicyValue::Array(_) => {
                    assert(false);
                },
            }
        },
        PolicyValue::Object(o1) => {
            match b {
                PolicyValue::Object(o2) => {
                    assert(o1.0 == o2.0 && view_policy(*o1.1) == view_policy(*o2.1));
                    lemma_view_determines(*o1.1, *o2.1, av, idx);
                    match *o1.1 {
                        PolicyValue::Array(cs1) => {
                            match *o2.1 {
                                PolicyValue::Array(cs2) => {
                                    assert(views_of(cs1@) == views_of(cs2@));
                                    lemma_views_determine(cs1@, cs2@, av, idx);
                                },
                                _ => {
                                    assert(false);
                                },
                            }
                        },
                        PolicyValue::String(_) => {
                            match *o2.1 {
                                PolicyValue::String(_) => {},
                                _ => {
                                    assert(false);
                                },
                            }
                        },
                        PolicyValue::Object(_) => {
                            match *o2.1 {
                                PolicyValue::Object(_) => {},
                                _ => {
                                    assert(false);
                                },
                            }
                        },
                    }
                },
                _ => {
                    assert(false);
                },
            }
        },
        PolicyValue::Array(cs1) => {
            match b {
                PolicyValue::Array(cs2) => {
                    assert(views_of(cs1@) == views_of(cs2@));
                    lemma_views_determine(cs1@, cs2@, av, idx);
                },
                _ => {
                    assert(false);
                },
            }
        },
    }
}

proof fn lemma_views_determine(
    cs1: Seq<PolicyValue>,
    cs2: Seq<PolicyValue>,
    av: Seq<Seq<char>>,
    idx: int,
)
    requires
        views_of(cs1) == views_of(cs2),
    ensures
        cs1.len() == cs2.len(),
        wf_policy_all(cs1) == wf_policy_all(cs2),
        sat_all(av, cs1) == sat_all(av, cs2),
        sat_any(av, cs1) == sat_any(av, cs2),
        n_leaves_list(cs1) == n_leaves_list(cs2),
        leaf_entries_list(cs1, idx) == leaf_entries_list(cs2, idx),
    decreases cs1, 1int,
{
    lemma_views_facts(cs1);
    lemma_views_facts(cs2);
    if cs1.len() > 0 {
        let sub1 = cs1.subrange(1, cs1.len() as int);
        let sub2 = cs2.subrange(1, cs2.len() as int);
        assert(view_policy(cs1[0]) == view_policy(cs2[0]));
        lemma_view_determines(cs1[0], cs2[0], av, idx);
        lemma_views_facts(sub1);
        lemma_views_facts(sub2);
        assert forall|k: int| 0 <= k < sub1.len() implies views_of(sub1)[k] == views_of(
            sub2,
        )[k] by {
            assert(views_of(sub1)[k] == view_policy(cs1[k + 1]));
            assert(views_of(sub2)[k] == view_policy(cs2[k + 1]));
            assert(views_of(cs1)[k + 1] == views_of(cs2)[k + 1]);
        }
        assert(views_of(sub1) =~= views_of(sub2));
        lemma_views_determine(sub1, sub2, av, idx + n_leaves(cs1[0]));
        lemma_wf_all_split(cs1);
        lemma_wf_all_split(cs2);
        lemma_sat_all_split(av, cs1);
        lemma_sat_all_split(av, cs2);
        lemma_sat_any_split(av, cs1);
        lemma_sat_any_split(av, cs2);
    }
}

/// Every leaf entry's labeled name strips back to its bare name: the
/// labeling is invertible entry by entry.
pub proof fn lemma_entries_strip(p: PolicyValue, idx: int)
    ensures
        forall|k: int|
            0 <= k < leaf_entries(p, idx).len() ==> strip_label(
                #[trigger] leaf_entries(p, idx)[k].1,
            ) == leaf_entries(p, idx)[k].0,
    decreases p, 0int,
{
    match p {
        PolicyValue::String(s) => {
            lemma_label_strip(s@, idx);
        },
        PolicyValue::Object(obj) => {
            lemma_entries_strip(*obj.1, idx);
            assert(leaf_entries(p, idx) == leaf_entries(*obj.1, idx));
        },
        PolicyValue::Array(cs) => {
            lemma_entries_strip_list(cs@, idx);
            assert(leaf_entries(p, idx) == leaf_entries_list(cs@, idx));
        },
    }
}

proof fn lemma_entries_strip_list(cs: Seq<PolicyValue>, idx: int)
    ensures
        forall|k: int|
            0 <= k < leaf_entries_list(cs, idx).len() ==> strip_label(
                #[trigger] leaf_entries_list(cs, idx)[k].1,
            ) == leaf_entries_list(cs, idx)[k].0,
    decreases cs, 1int,
{
    if cs.len() > 0 {
        let sub = cs.subrange(1, cs.len() as int);
        let es0 = leaf_entries(cs[0], idx);
        let es1 = leaf_entries_list(sub, idx + n_leaves(cs[0]));
        lemma_entries_strip(cs[0], idx);
        lemma_entries_strip_list(sub, idx + n_leaves(cs[0]));
        assert forall|k: int| 0 <= k < leaf_entries_list(cs, idx).len() implies strip_label(
            #[trigger] leaf_entries_list(cs, idx)[k].1,
        ) == leaf_entries_list(cs, idx)[k].0 by {
            if k < es0.len() {
                assert(leaf_entries_list(cs, idx)[k] == es0[k]);
                assert(strip_label(es0[k].1) == es0[k].0);
            } else {
                assert(leaf_entries_list(cs, idx)[k] == es1[k - es0.len()]);
                assert(strip_label(es1[k - es0.len()].1) == es1[k - es0.len()].0);
            }
        }
    }
}

} // verus!
