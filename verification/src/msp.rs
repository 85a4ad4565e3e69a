use vstd::prelude::*;

use crate::errors::RabeError;
use crate::parser::{parse, parse_error, sp_parse_tree, view_policy};
use crate::policy::{wf_policy, wf_policy_all, PolicyLanguage, PolicyType, PolicyValue};
use crate::strutil::{dec_digits, dec_signed, fmt_i8, fmt_u64, str_le};

verus! {

/// A monotone-span-program form of an access policy: a row-labelled matrix
/// over `{-1, 0, +1}`, the row-to-attribute map `pi`, and the column count
/// `c`. Rows are jointly sorted by `pi`, so the representation is canonical.
pub struct AbePolicy {
    pub m: Vec<Vec<i8>>,
    pub pi: Vec<String>,
    pub c: usize,
}

/// `v` brought to exactly `c` entries: cut off behind `c`, filled with
/// zeros up to it.
pub open spec fn row_resized(v: Seq<i8>, c: int) -> Seq<i8> {
    Seq::new(c as nat, |k: int| if k < v.len() { v[k] } else { 0i8 })
}

/// The Lewko–Waters walk over a policy in disjunctive normal form, top-down
/// with the current row prototype `v` and column count `c`. Returns the
/// leaf rows in visit order, each paired with its attribute, and the final
/// column count; `None` on a gate with fewer than two children, an `and`
/// gate with other than two, or a bare child list without a gate above it.
pub open spec fn lw_visit(
    p: PolicyValue,
    v: Seq<i8>,
    c: int,
    parent: Option<PolicyType>,
) -> Option<(Seq<(Seq<i8>, Seq<char>)>, int)>
    decreases p, 0int, 0int,
{
    match p {
        PolicyValue::String(s) => Some((seq![(v, s@)], c)),
        PolicyValue::Object((t, b)) => lw_visit(*b, v, c, Some(t)),
        PolicyValue::Array(cs) => if cs@.len() < 2 {
            None
        } else {
            match parent {
                Some(PolicyType::Or) => lw_visit_list(cs@, v, c),
                Some(PolicyType::And) => if cs@.len() != 2 || c >= usize::MAX {
                    None
                } else {
                    let vr = row_resized(v, c).push(1i8);
                    let vl = row_resized(Seq::<i8>::empty(), c).push(-1i8);
                    match lw_visit(cs@[0], vr, c + 1, Some(PolicyType::And)) {
                        Some(r0) => match lw_visit(cs@[1], vl, r0.1, Some(PolicyType::And)) {
                            Some(r1) => Some((r0.0 + r1.0, r1.1)),
                            None => None,
                        },
                        None => None,
                    }
                },
                _ => None,
            }
        },
    }
}

/// The walk over the children of an `or` gate: same prototype for each,
/// the column count threaded through from left to right.
pub open spec fn lw_visit_list(cs: Seq<PolicyValue>, v: Seq<i8>, c: int) -> Option<
    (Seq<(Seq<i8>, Seq<char>)>, int),
>
    decreases cs, 1int, 0int,
{
    if cs.len() == 0 {
        Some((Seq::<(Seq<i8>, Seq<char>)>::empty(), c))
    } else {
        match lw_visit(cs[0], v, c, Some(PolicyType::Or)) {
            Some(r0) => match lw_visit_list(cs.subrange(1, cs.len() as int), v, r0.1) {
                Some(r1) => Some((r0.0 + r1.0, r1.1)),
                None => None,
            },
            None => None,
        }
    }
}

pub open spec fn is_perm(q: Seq<int>, n: int) -> bool {
    &&& q.len() == n
    &&& forall|k: int| 0 <= k < n ==> 0 <= #[trigger] q[k] < n
    &&& forall|k1: int, k2: int| 0 <= k1 < k2 < n ==> q[k1] != q[k2]
}

pub open spec fn sorted_names(pi: Seq<String>) -> bool {
    forall|k1: int, k2: int| 0 <= k1 < k2 < pi.len() ==> str_le(#[trigger] pi[k1]@, #[trigger] pi[k2]@)
}

/// `spi`/`sm` hold the entries of `pi`/`m` reordered by one permutation `q`
/// that sorts the labels, stable on equal labels.
pub open spec fn stable_sorted_pair(
    pi: Seq<String>,
    m: Seq<Vec<i8>>,
    spi: Seq<String>,
    sm: Seq<Vec<i8>>,
) -> bool {
    exists|q: Seq<int>|
        {
            &&& is_perm(q, pi.len() as int)
            &&& forall|k: int|
                0 <= k < pi.len() ==> (#[trigger] spi[k])@ == pi[q[k]]@ && sm[k]@ == m[q[k]]@
            &&& forall|k1: int, k2: int|
                0 <= k1 < k2 < pi.len() && pi[#[trigger] q[k1]]@ == pi[#[trigger] q[k2]]@
                    ==> q[k1] < q[k2]
        }
}

/// `msp` carries exactly the rows `rev` (already in matrix order), padded to
/// width `c` and jointly sorted by attribute with a stable permutation `q`.
pub open spec fn joint_sorted(
    q: Seq<int>,
    rev: Seq<(Seq<i8>, Seq<char>)>,
    msp: AbePolicy,
    c: int,
) -> bool {
    &&& is_perm(q, rev.len() as int)
    &&& forall|k: int|
        0 <= k < rev.len() ==> (#[trigger] msp.pi@[k])@ == rev[q[k]].1 && msp.m@[k]@ == row_resized(
            rev[q[k]].0,
            c,
        )
    &&& forall|k1: int, k2: int|
        0 <= k1 < k2 < rev.len() && rev[#[trigger] q[k1]].1 == rev[#[trigger] q[k2]].1 ==> q[k1]
            < q[k2]
}

/// What `calculate_msp` returns on a well-shaped policy: the Lewko–Waters
/// rows of the walk, in reverse visit order, padded to the final width and
/// then stably sorted by attribute, together with that width.
pub open spec fn msp_of(p: PolicyValue, msp: AbePolicy) -> bool {
    match lw_visit(p, seq![1i8], 1, None) {
        Some(sp) => {
            let n = sp.0.len() as int;
            let rev = Seq::new(n as nat, |k: int| sp.0[n - 1 - k]);
            &&& msp.c == sp.1
            &&& msp.m@.len() == n
            &&& msp.pi@.len() == n
            &&& sorted_names(msp.pi@)
            &&& exists|q: Seq<int>| joint_sorted(q, rev, msp, sp.1)
        },
        None => false,
    }
}


/// Every `and` gate of the tree has exactly two children: with
/// well-formedness this is the disjunctive-normal-form shape the walk
/// accepts.
pub open spec fn dnf_ok(p: PolicyValue) -> bool
    decreases p, 0int,
{
    match p {
        PolicyValue::String(_) => true,
        PolicyValue::Object((t, b)) => match *b {
            PolicyValue::Array(cs) => (t == PolicyType::And ==> cs@.len() == 2) && dnf_ok_list(
                cs@,
            ),
            _ => true,
        },
        PolicyValue::Array(cs) => dnf_ok_list(cs@),
    }
}

pub open spec fn dnf_ok_list(cs: Seq<PolicyValue>) -> bool
    decreases cs, 1int,
{
    forall|i: int| 0 <= i < cs.len() ==> dnf_ok(#[trigger] cs[i])
}

/// How many `and` gates the tree holds: each adds one column to the span
/// program.
pub open spec fn and_count(p: PolicyValue) -> nat
    decreases p, 0int,
{
    match p {
        PolicyValue::String(_) => 0,
        PolicyValue::Object((t, b)) => if t == PolicyType::And {
            1 + and_count(*b)
        } else {
            and_count(*b)
        },
        PolicyValue::Array(cs) => and_count_list(cs@),
    }
}

pub open spec fn and_count_list(cs: Seq<PolicyValue>) -> nat
    decreases cs, 1int,
{
    if cs.len() == 0 {
        0
    } else {
        and_count(cs[0]) + and_count_list(cs.subrange(1, cs.len() as int))
    }
}

/// The walk accepts every well-formed tree in disjunctive normal form, as
/// long as the column count stays within a machine word: each `and` gate
/// adds exactly one column.
proof fn lemma_lw_total(p: PolicyValue, v: Seq<i8>, c: int, parent: Option<PolicyType>)
    requires
        wf_policy(p),
        dnf_ok(p),
        1 <= c,
        c + and_count(p) <= usize::MAX,
    ensures
        lw_visit(p, v, c, parent) matches Some(sp) && sp.1 == c + and_count(p),
    decreases p, 0int,
{
    match p {
        PolicyValue::String(_) => {},
        PolicyValue::Object((t, b)) => {
            match *b {
                PolicyValue::Array(cs) => {
                    assert(and_count(*b) == and_count_list(cs@));
                    assert(and_count(p) == (if t == PolicyType::And {
                        1 + and_count(*b)
                    } else {
                        and_count(*b)
                    }));
                    assert(cs@.len() >= 2 && wf_policy_all(cs@) && dnf_ok_list(cs@));
                    assert(lw_visit(p, v, c, parent) == lw_visit(*b, v, c, Some(t)));
                    if t == PolicyType::Or {
                        lemma_lw_list_total(cs@, v, c);
                        assert(lw_visit(*b, v, c, Some(t)) == lw_visit_list(cs@, v, c));
                    } else {
                        assert(cs@.len() == 2);
                        let sub = cs@.subrange(1, cs@.len() as int);
                        assert(and_count_list(cs@) == and_count(cs@[0]) + and_count_list(sub));
                        assert(and_count_list(sub) == and_count(sub[0]) + and_count_list(
                            sub.subrange(1, sub.len() as int),
                        ));
                        assert(and_count_list(sub.subrange(1, sub.len() as int)) == 0);
                        assert(sub[0] == cs@[1]);
                        assert(wf_policy(cs@[0]) && wf_policy(cs@[1]));
                        assert(dnf_ok(cs@[0]) && dnf_ok(cs@[1]));
                        let vr = row_resized(v, c).push(1i8);
                        let vl = row_resized(Seq::<i8>::empty(), c).push(-1i8);
                        lemma_lw_total(cs@[0], vr, c + 1, Some(PolicyType::And));
                        let c0 = c + 1 + and_count(cs@[0]);
                        lemma_lw_total(cs@[1], vl, c0, Some(PolicyType::And));
                        assert(c < usize::MAX);
                        assert(lw_visit(*b, v, c, Some(t)) matches Some(sp) && sp.1 == c0
                            + and_count(cs@[1]));
                    }
                },
                _ => {
                    assert(false);
                },
            }
        },
        PolicyValue::Array(_) => {
            assert(false);
        },
    }
}

proof fn lemma_lw_list_total(cs: Seq<PolicyValue>, v: Seq<i8>, c: int)
    requires
        wf_policy_all(cs),
        dnf_ok_list(cs),
        1 <= c,
        c + and_count_list(cs) <= usize::MAX,
    ensures
        lw_visit_list(cs, v, c) matches Some(sp) && sp.1 == c + and_count_list(cs),
    decreases cs, 1int,
{
    if cs.len() > 0 {
        let sub = cs.subrange(1, cs.len() as int);
        assert(wf_policy(cs[0]) && dnf_ok(cs[0]));
        lemma_lw_total(cs[0], v, c, Some(PolicyType::Or));
        lemma_lw_list_total(sub, v, c + and_count(cs[0]));
    }
}

/// Relies on `permutation::sort` and `Permutation::apply_slice`:
/// `sort` computes, by a stable sort, the permutation that orders the
/// labels (the `Ord` of `String` is the lexicographic order on its
/// characters), and `apply_slice` applies that one permutation to a slice.
/// Calling it on both vectors reorders them jointly.
#[verifier::external_body]
fn sort_by_labels(pi: Vec<String>, m: Vec<Vec<i8>>) -> (r: (Vec<String>, Vec<Vec<i8>>))
    requires
        pi@.len() == m@.len(),
    ensures
        r.0@.len() == pi@.len(),
        r.1@.len() == m@.len(),
        sorted_names(r.0@),
        stable_sorted_pair(pi@, m@, r.0@, r.1@),
{
    let perm = permutation::sort(&pi[..]);
    let spi = perm.apply_slice(&pi[..]);
    let sm = perm.apply_slice(&m[..]);
    (spi, sm)
}

/// `rows`/`labels` carry, entry for entry, the pairs of `sp`.
pub open spec fn rows_match(
    rows: Seq<Vec<i8>>,
    labels: Seq<String>,
    sp: Seq<(Seq<i8>, Seq<char>)>,
) -> bool {
    &&& rows.len() == sp.len()
    &&& labels.len() == sp.len()
    &&& forall|k: int| 0 <= k < sp.len() ==> (#[trigger] rows[k])@ == sp[k].0
    &&& forall|k: int| 0 <= k < sp.len() ==> (#[trigger] labels[k])@ == sp[k].1
}

fn resized_row(v: &Vec<i8>, c: usize) -> (r: Vec<i8>)
    ensures
        r@ == row_resized(v@, c as int),
{
    let mut out: Vec<i8> = Vec::new();
    let mut k: usize = 0;
    while k < c
        invariant
            out@.len() == k,
            k <= c,
            forall|j: int| 0 <= j < k ==> #[trigger] out@[j] == (if j < v@.len() {
                v@[j]
            } else {
                0i8
            }),
        decreases c - k,
    {
        if k < v.len() {
            let x = v[k];
            out.push(x);
        } else {
            out.push(0i8);
        }
        k = k + 1;
    }
    proof {
        assert(out@ =~= row_resized(v@, c as int));
    }
    out
}

fn copy_row(v: &Vec<i8>) -> (r: Vec<i8>)
    ensures
        r@ == v@,
{
    let mut out: Vec<i8> = Vec::new();
    let mut k: usize = 0;
    while k < v.len()
        invariant
            out@.len() == k,
            k <= v@.len(),
            forall|j: int| 0 <= j < k ==> #[trigger] out@[j] == v@[j],
        decreases v@.len() - k,
    {
        let x = v[k];
        out.push(x);
        k = k + 1;
    }
    proof {
        assert(out@ =~= v@);
    }
    out
}

/// One step of the Lewko–Waters conversion, mirroring [`lw_visit`].
fn lw(p: &PolicyValue, v: &Vec<i8>, c: usize, parent: Option<PolicyType>) -> (r: Option<
    (Vec<Vec<i8>>, Vec<String>, usize),
>)
    ensures
        r matches Some(out) ==> (match lw_visit(*p, v@, c as int, parent) {
            Some(sp) => rows_match(out.0@, out.1@, sp.0) && out.2 == sp.1,
            None => false,
        }),
        r is None ==> lw_visit(*p, v@, c as int, parent) is None,
    decreases *p, 0int, 0int,
{
    match p {
        PolicyValue::String(s) => {
            let mut rows: Vec<Vec<i8>> = Vec::new();
            rows.push(copy_row(v));
            let mut labels: Vec<String> = Vec::new();
            labels.push(s.clone());
            proof {
                let sp0 = seq![(v@, s@)];
                assert(rows@.len() == 1 && rows@[0]@ == v@);
                assert(labels@.len() == 1 && labels@[0]@ == s@);
                assert(rows_match(rows@, labels@, sp0));
                assert(lw_visit(*p, v@, c as int, parent) == Some((sp0, c as int)));
            }
            Some((rows, labels, c))
        },
        PolicyValue::Object(obj) => {
            let r0 = lw(&obj.1, v, c, Some(obj.0));
            proof {
                assert(lw_visit(*p, v@, c as int, parent) == lw_visit(
                    *obj.1,
                    v@,
                    c as int,
                    Some(obj.0),
                ));
            }
            r0
        },
        PolicyValue::Array(cs) => {
            if cs.len() < 2 {
                assert(lw_visit(*p, v@, c as int, parent) is None);
                return None;
            }
            match parent {
                Some(PolicyType::Or) => {
                    let r0 = lw_list(cs, 0, v, c);
                    proof {
                        assert(cs@.subrange(0, cs@.len() as int) =~= cs@);
                        assert(lw_visit(*p, v@, c as int, parent) == lw_visit_list(
                            cs@,
                            v@,
                            c as int,
                        ));
                    }
                    r0
                },
                Some(PolicyType::And) => {
                    if cs.len() != 2 || c == usize::MAX {
                        assert(lw_visit(*p, v@, c as int, parent) is None);
                        return None;
                    }
                    let mut vr = resized_row(v, c);
                    vr.push(1i8);
                    let empty: Vec<i8> = Vec::new();
                    let mut vl = resized_row(&empty, c);
                    vl.push(-1i8);
                    proof {
                        assert(vr@ == row_resized(v@, c as int).push(1i8));
                        assert(vl@ == row_resized(Seq::<i8>::empty(), c as int).push(-1i8));
                    }
                    let (mut rows0, mut labels0, c0) = match lw(&cs[0], &vr, c + 1, Some(
                        PolicyType::And,
                    )) {
                        Some(o) => o,
                        None => {
                            assert(lw_visit(*p, v@, c as int, parent) is None);
                            return None;
                        },
                    };
                    let (mut rows1, mut labels1, c1) = match lw(&cs[1], &vl, c0, Some(
                        PolicyType::And,
                    )) {
                        Some(o) => o,
                        None => {
                            assert(lw_visit(*p, v@, c as int, parent) is None);
                            return None;
                        },
                    };
                    proof {
                        let sp0 = lw_visit(cs@[0], vr@, c + 1, Some(PolicyType::And)).unwrap();
                        let sp1 = lw_visit(cs@[1], vl@, sp0.1, Some(PolicyType::And)).unwrap();
                        assert(rows_match((rows0@ + rows1@), (labels0@ + labels1@), sp0.0 + sp1.0))
                            by {
                            assert forall|k: int| 0 <= k < sp0.0.len() + sp1.0.len() implies ((
                            rows0@ + rows1@)[k])@ == (sp0.0 + sp1.0)[k].0 && ((labels0@
                                + labels1@)[k])@ == (sp0.0 + sp1.0)[k].1 by {
                                if k < sp0.0.len() {
                                    assert(rows0@[k]@ == sp0.0[k].0);
                                    assert(labels0@[k]@ == sp0.0[k].1);
                                } else {
                                    assert(rows1@[k - sp0.0.len()]@ == sp1.0[k - sp0.0.len()].0);
                                    assert(labels1@[k - sp0.0.len()]@ == sp1.0[k - sp0.0.len()].1);
                                }
                            }
                        }
                        assert(lw_visit(*p, v@, c as int, parent) == Some(
                            (sp0.0 + sp1.0, sp1.1),
                        ));
                    }
                    rows0.append(&mut rows1);
                    labels0.append(&mut labels1);
                    Some((rows0, labels0, c1))
                },
                _ => {
                    assert(lw_visit(*p, v@, c as int, parent) is None);
                    None
                },
            }
        },
    }
}

/// The children of an `or` gate, from index `i` on, mirroring
/// [`lw_visit_list`].
fn lw_list(cs: &Vec<PolicyValue>, i: usize, v: &Vec<i8>, c: usize) -> (r: Option<
    (Vec<Vec<i8>>, Vec<String>, usize),
>)
    requires
        i <= cs@.len(),
    ensures
        r matches Some(out) ==> (match lw_visit_list(
            cs@.subrange(i as int, cs@.len() as int),
            v@,
            c as int,
        ) {
            Some(sp) => rows_match(out.0@, out.1@, sp.0) && out.2 == sp.1,
            None => false,
        }),
        r is None ==> lw_visit_list(cs@.subrange(i as int, cs@.len() as int), v@, c as int)
            is None,
    decreases cs@, 1int, cs@.len() - i,
{
    let ghost whole = cs@.subrange(i as int, cs@.len() as int);
    if i == cs.len() {
        let rows: Vec<Vec<i8>> = Vec::new();
        let labels: Vec<String> = Vec::new();
        return Some((rows, labels, c));
    }
    assert(whole[0] == cs@[i as int]);
    let (mut rows0, mut labels0, c0) = match lw(&cs[i], v, c, Some(PolicyType::Or)) {
        Some(o) => o,
        None => {
            return None;
        },
    };
    proof {
        assert(whole.subrange(1, whole.len() as int) =~= cs@.subrange(
            i + 1,
            cs@.len() as int,
        ));
    }
    let (mut rows1, mut labels1, c1) = match lw_list(cs, i + 1, v, c0) {
        Some(o) => o,
        None => {
            return None;
        },
    };
    proof {
        let sp0 = lw_visit(cs@[i as int], v@, c as int, Some(PolicyType::Or)).unwrap();
        let sp1 = lw_visit_list(cs@.subrange(i + 1, cs@.len() as int), v@, c0 as int).unwrap();
        assert(rows_match((rows0@ + rows1@), (labels0@ + labels1@), sp0.0 + sp1.0)) by {
            assert forall|k: int| 0 <= k < sp0.0.len() + sp1.0.len() implies ((rows0@ + rows1@)[k])@
                == (sp0.0 + sp1.0)[k].0 && ((labels0@ + labels1@)[k])@ == (sp0.0 + sp1.0)[k].1 by {
                if k < sp0.0.len() {
                    assert(rows0@[k]@ == sp0.0[k].0);
                    assert(labels0@[k]@ == sp0.0[k].1);
                } else {
                    assert(rows1@[k - sp0.0.len()]@ == sp1.0[k - sp0.0.len()].0);
                    assert(labels1@[k - sp0.0.len()]@ == sp1.0[k - sp0.0.len()].1);
                }
            }
        }
    }
    rows0.append(&mut rows1);
    labels0.append(&mut labels1);
    Some((rows0, labels0, c1))
}

/// Convert a boolean policy in disjunctive normal form to a monotone span
/// program by the Lewko–Waters algorithm: walk the tree collecting one row
/// per leaf, pad every row to the final column count, bring the rows into
/// the matrix order, and sort matrix and labels jointly by attribute.
pub fn calculate_msp(p: &PolicyValue) -> (r: Result<AbePolicy, RabeError>)
    ensures
        r matches Ok(msp) ==> msp_of(*p, msp),
        r matches Err(e) ==> e == RabeError::PolicyShape && lw_visit(*p, seq![1i8], 1, None)
            is None,
        wf_policy(*p) && dnf_ok(*p) && 1 + and_count(*p) <= usize::MAX ==> r is Ok,
{
    let mut v0: Vec<i8> = Vec::new();
    v0.push(1i8);
    proof {
        assert(v0@ =~= seq![1i8]);
    }
    match lw(p, &v0, 1, None) {
        None => {
            proof {
                if wf_policy(*p) && dnf_ok(*p) && 1 + and_count(*p) <= usize::MAX {
                    lemma_lw_total(*p, seq![1i8], 1, None);
                }
            }
            Err(RabeError::PolicyShape)
        },
        Some((rows, labels, c)) => {
            let ghost sp = lw_visit(*p, seq![1i8], 1, None).unwrap();
            let ghost n_ = sp.0.len() as int;
            let ghost rev = Seq::new(n_ as nat, |k: int| sp.0[n_ - 1 - k]);
            let n = rows.len();
            let mut pm: Vec<Vec<i8>> = Vec::new();
            let mut ppi: Vec<String> = Vec::new();
            let mut k: usize = 0;
            while k < n
                invariant
                    n == rows@.len(),
                    rows_match(rows@, labels@, sp.0),
                    n == n_,
                    rev == Seq::new(n_ as nat, |k: int| sp.0[n_ - 1 - k]),
                    k <= n,
                    pm@.len() == k,
                    ppi@.len() == k,
                    forall|j: int| 0 <= j < k ==> (#[trigger] pm@[j])@ == row_resized(
                        rev[j].0,
                        c as int,
                    ),
                    forall|j: int| 0 <= j < k ==> (#[trigger] ppi@[j])@ == rev[j].1,
                decreases n - k,
            {
                let row = resized_row(&rows[n - 1 - k], c);
                pm.push(row);
                let label = labels[n - 1 - k].clone();
                ppi.push(label);
                k = k + 1;
            }
            let (spi, sm) = sort_by_labels(ppi, pm);
            let msp = AbePolicy { m: sm, pi: spi, c };
            proof {
                let q = choose|q: Seq<int>|
                    {
                        &&& is_perm(q, ppi@.len() as int)
                        &&& forall|k: int|
                            0 <= k < ppi@.len() ==> (#[trigger] spi@[k])@ == ppi@[q[k]]@ && sm@[k]@
                                == pm@[q[k]]@
                        &&& forall|k1: int, k2: int|
                            0 <= k1 < k2 < ppi@.len() && ppi@[#[trigger] q[k1]]@
                                == ppi@[#[trigger] q[k2]]@ ==> q[k1] < q[k2]
                    };
                assert(joint_sorted(q, rev, msp, c as int));
            }
            Ok(msp)
        },
    }
}

impl AbePolicy {
    /// The monotone span program of a textual policy; the policy must be in
    /// disjunctive normal form.
    pub fn new(policy: &String, language: PolicyLanguage) -> (r: Result<AbePolicy, RabeError>)
        ensures
            r matches Ok(msp) ==> (exists|t: PolicyValue|
                wf_policy(t) && msp_of(t, msp) && sp_parse_tree(language, policy@) == Some(
                    view_policy(t),
                )),
            r matches Err(e) ==> parse_error(e),
            sp_parse_tree(language, policy@) is None ==> (r matches Err(e) && parse_error(e)),
            sp_parse_tree(language, policy@) is Some ==> (r is Ok || r == Err::<
                AbePolicy,
                RabeError,
            >(RabeError::PolicyShape)),
    {
        AbePolicy::from_language(policy, language)
    }

    /// Parse `content` in the given language and compile it to a monotone
    /// span program. The compiled program belongs to a well-formed tree
    /// whose serialization is the input's canonical form.
    pub fn from_language(content: &String, language: PolicyLanguage) -> (r: Result<
        AbePolicy,
        RabeError,
    >)
        ensures
            r matches Ok(msp) ==> (exists|t: PolicyValue|
                wf_policy(t) && msp_of(t, msp) && sp_parse_tree(language, content@) == Some(
                    view_policy(t),
                )),
            r matches Err(e) ==> parse_error(e),
            sp_parse_tree(language, content@) is None ==> (r matches Err(e) && parse_error(e)),
            sp_parse_tree(language, content@) is Some ==> (r is Ok || r == Err::<
                AbePolicy,
                RabeError,
            >(RabeError::PolicyShape)),
    {
        match parse(content.as_str(), language) {
            Ok(pol) => {
                let r = calculate_msp(&pol);
                match r {
                    Ok(msp) => {
                        assert(wf_policy(pol) && msp_of(pol, msp) && sp_parse_tree(
                            language,
                            content@,
                        ) == Some(view_policy(pol)));
                        Ok(msp)
                    },
                    Err(e) => Err(e),
                }
            },
            Err(e) => Err(e),
        }
    }

    /// Compile an already parsed policy tree to a monotone span program.
    pub fn from_policy(content: &PolicyValue) -> (r: Result<AbePolicy, RabeError>)
        ensures
            r matches Ok(msp) ==> msp_of(*content, msp),
            r matches Err(e) ==> e == RabeError::PolicyShape && lw_visit(
                *content,
                seq![1i8],
                1,
                None,
            ) is None,
            wf_policy(*content) && dnf_ok(*content) && 1 + and_count(*content) <= usize::MAX
                ==> r is Ok,
    {
        calculate_msp(content)
    }
}


/// The entries of one matrix row in decimal, joined by commas.
pub open spec fn row_items(row: Seq<i8>) -> Seq<char>
    decreases row.len(),
{
    if row.len() == 0 {
        Seq::<char>::empty()
    } else if row.len() == 1 {
        dec_signed(row[0] as int)
    } else {
        dec_signed(row[0] as int) + ","@ + row_items(row.subrange(1, row.len() as int))
    }
}

/// One matrix row in parentheses; a bare `)` for an empty row.
pub open spec fn row_repr(row: Seq<i8>) -> Seq<char> {
    if row.len() == 0 {
        ")"@
    } else {
        "("@ + row_items(row) + ")"@
    }
}

/// The matrix rows, joined by commas.
pub open spec fn m_items(m: Seq<Vec<i8>>) -> Seq<char>
    decreases m.len(),
{
    if m.len() == 0 {
        Seq::<char>::empty()
    } else if m.len() == 1 {
        row_repr(m[0]@)
    } else {
        row_repr(m[0]@) + ","@ + m_items(m.subrange(1, m.len() as int))
    }
}

/// The matrix in brackets; a bare `]` when it has no rows.
pub open spec fn m_repr(m: Seq<Vec<i8>>) -> Seq<char> {
    if m.len() == 0 {
        "]"@
    } else {
        "["@ + m_items(m) + "]"@
    }
}

/// The labels, each in double quotes, joined by commas.
pub open spec fn pi_items(pi: Seq<String>) -> Seq<char>
    decreases pi.len(),
{
    if pi.len() == 0 {
        Seq::<char>::empty()
    } else if pi.len() == 1 {
        "\""@ + pi[0]@ + "\""@
    } else {
        "\""@ + pi[0]@ + "\""@ + ","@ + pi_items(pi.subrange(1, pi.len() as int))
    }
}

/// The label vector in brackets; a bare `]` when it has no entries.
pub open spec fn pi_repr(pi: Seq<String>) -> Seq<char> {
    if pi.len() == 0 {
        "]"@
    } else {
        "["@ + pi_items(pi) + "]"@
    }
}

/// The whole policy's textual form.
pub open spec fn msp_repr(msp: AbePolicy) -> Seq<char> {
    "{_m: "@ + m_repr(msp.m@) + ", _pi: "@ + pi_repr(msp.pi@) + ", _c: "@ + dec_digits(
        msp.c as int,
    ) + "}"@
}

fn row_items_exec(row: &Vec<i8>, i: usize) -> (r: String)
    requires
        i <= row@.len(),
    ensures
        r@ == row_items(row@.subrange(i as int, row@.len() as int)),
    decreases row@.len() - i,
{
    let n = row.len();
    if i >= n {
        String::new()
    } else if i == n - 1 {
        let out = fmt_i8(row[i]);
        assert(row@.subrange(i as int, row@.len() as int)[0] == row@[i as int]);
        out
    } else {
        let mut out = fmt_i8(row[i]);
        out.append(",");
        let rest = row_items_exec(row, i + 1);
        out.append(rest.as_str());
        proof {
            let whole = row@.subrange(i as int, row@.len() as int);
            assert(whole[0] == row@[i as int]);
            assert(whole.subrange(1, whole.len() as int) =~= row@.subrange(
                i + 1,
                row@.len() as int,
            ));
            assert(out@ =~= dec_signed(row@[i as int] as int) + ","@ + rest@);
        }
        out
    }
}

fn m_items_exec(m: &Vec<Vec<i8>>, i: usize) -> (r: String)
    requires
        i <= m@.len(),
    ensures
        r@ == m_items(m@.subrange(i as int, m@.len() as int)),
    decreases m@.len() - i,
{
    let n = m.len();
    if i >= n {
        String::new()
    } else {
        let row = &m[i];
        let mut out = if row.len() == 0 {
            String::from_str(")")
        } else {
            let mut o = String::from_str("(");
            let items = row_items_exec(row, 0);
            o.append(items.as_str());
            o.append(")");
            proof {
                assert(row@.subrange(0, row@.len() as int) =~= row@);
                assert(o@ =~= "("@ + row_items(row@) + ")"@);
            }
            o
        };
        assert(m@.subrange(i as int, m@.len() as int)[0] == m@[i as int]);
        if i == n - 1 {
            out
        } else {
            out.append(",");
            let rest = m_items_exec(m, i + 1);
            out.append(rest.as_str());
            proof {
                let whole = m@.subrange(i as int, m@.len() as int);
                assert(whole.subrange(1, whole.len() as int) =~= m@.subrange(
                    i + 1,
                    m@.len() as int,
                ));
                assert(out@ =~= row_repr(m@[i as int]@) + ","@ + rest@);
            }
            out
        }
    }
}

fn pi_items_exec(pi: &Vec<String>, i: usize) -> (r: String)
    requires
        i <= pi@.len(),
    ensures
        r@ == pi_items(pi@.subrange(i as int, pi@.len() as int)),
    decreases pi@.len() - i,
{
    let n = pi.len();
    if i >= n {
        String::new()
    } else {
        let mut out = String::from_str("\"");
        out.append(pi[i].as_str());
        out.append("\"");
        assert(pi@.subrange(i as int, pi@.len() as int)[0] == pi@[i as int]);
        if i == n - 1 {
            proof {
                assert(out@ =~= "\""@ + pi@[i as int]@ + "\""@);
            }
            out
        } else {
            out.append(",");
            let rest = pi_items_exec(pi, i + 1);
            out.append(rest.as_str());
            proof {
                let whole = pi@.subrange(i as int, pi@.len() as int);
                assert(whole.subrange(1, whole.len() as int) =~= pi@.subrange(
                    i + 1,
                    pi@.len() as int,
                ));
                assert(out@ =~= "\""@ + pi@[i as int]@ + "\""@ + ","@ + rest@);
            }
            out
        }
    }
}

impl AbePolicy {
    /// The policy's textual form: the rows in parentheses, the quoted
    /// labels, and the column count.
    pub fn to_string(&self) -> (r: String)
        ensures
            r@ == msp_repr(*self),
    {
        let mut out = String::from_str("{_m: ");
        if self.m.len() == 0 {
            out.append("]");
        } else {
            out.append("[");
            let items = m_items_exec(&self.m, 0);
            out.append(items.as_str());
            out.append("]");
            proof {
                assert(self.m@.subrange(0, self.m@.len() as int) =~= self.m@);
            }
        }
        out.append(", _pi: ");
        if self.pi.len() == 0 {
            out.append("]");
        } else {
            out.append("[");
            let items = pi_items_exec(&self.pi, 0);
            out.append(items.as_str());
            out.append("]");
            proof {
                assert(self.pi@.subrange(0, self.pi@.len() as int) =~= self.pi@);
            }
        }
        out.append(", _c: ");
        let digits = fmt_u64(self.c as u64);
        out.append(digits.as_str());
        out.append("}");
        proof {
            assert(out@ =~= msp_repr(*self));
        }
        out
    }
}

} // verus!
