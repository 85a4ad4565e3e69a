use vstd::prelude::*;

verus! {

/// The two surface syntaxes a policy can be written in.
#[derive(Clone, Copy, Debug, PartialEq, Eq, Structural)]
pub enum PolicyLanguage {
    JsonPolicy,
    HumanPolicy,
}

/// The kind of a policy tree node: a threshold gate or a leaf.
#[derive(Clone, Copy, Debug, PartialEq, Eq, Structural)]
pub enum PolicyType {
    And,
    Or,
    Leaf,
}

/// A boolean access policy over attribute names, as a polymorphic tree.
///
/// A well-formed policy is either a `String` leaf holding a non-empty
/// attribute name, or an `Object` pairing an `And`/`Or` gate with an `Array`
/// of at least two well-formed children (see [`wf_policy`]).
pub enum PolicyValue {
    Object((PolicyType, Box<PolicyValue>)),
    Array(Vec<PolicyValue>),
    String(String),
}

/// A well-formed policy tree: leaves carry non-empty names, every gate is
/// `And` or `Or` and wraps an array of at least two well-formed children.
pub open spec fn wf_policy(p: PolicyValue) -> bool
    decreases p, 0int,
{
    match p {
        PolicyValue::String(s) => s@.len() > 0,
        PolicyValue::Object((t, b)) => (t == PolicyType::And || t == PolicyType::Or)
            && match *b {
                PolicyValue::Array(cs) => cs@.len() >= 2 && wf_policy_all(cs@),
                _ => false,
            },
        PolicyValue::Array(_) => false,
    }
}

pub open spec fn wf_policy_all(cs: Seq<PolicyValue>) -> bool
    decreases cs, 0int,
{
    forall|i: int| 0 <= i < cs.len() ==> wf_policy(#[trigger] cs[i])
}

/// What `serialize_policy` emits, in the JSON syntax.
pub open spec fn json_ser(v: PolicyValue) -> Seq<char>
    decreases v, 1int,
{
    match v {
        PolicyValue::String(s) => "{\"name\": \""@ + s@ + "\"}"@,
        PolicyValue::Object((t, b)) => match t {
            PolicyType::And => "{\"name\": \"and\", "@ + json_ser(*b) + "}"@,
            PolicyType::Or => "{\"name\": \"or\", "@ + json_ser(*b) + "}"@,
            PolicyType::Leaf => json_ser(*b),
        },
        PolicyValue::Array(cs) => "\"children\": ["@ + json_ser_list(cs@) + "]"@,
    }
}

/// The children of a gate in JSON syntax, joined by `", "`.
pub open spec fn json_ser_list(cs: Seq<PolicyValue>) -> Seq<char>
    decreases cs, 2int,
{
    if cs.len() == 0 {
        Seq::<char>::empty()
    } else if cs.len() == 1 {
        json_ser(cs[0])
    } else {
        json_ser(cs[0]) + ", "@ + json_ser_list(cs.subrange(1, cs.len() as int))
    }
}

/// What `serialize_policy` emits, in the human-readable syntax: leaves stand
/// bare, every gate is parenthesized with its children joined by the infix
/// operator.
pub open spec fn human_ser(v: PolicyValue, parent: Option<PolicyType>) -> Seq<char>
    decreases v, 1int,
{
    match v {
        PolicyValue::String(s) => s@,
        PolicyValue::Object((t, b)) => human_ser(*b, Some(t)),
        PolicyValue::Array(cs) => match parent {
            Some(PolicyType::And) => "("@ + human_ser_list(cs@, " and "@) + ")"@,
            Some(PolicyType::Or) => "("@ + human_ser_list(cs@, " or "@) + ")"@,
            _ => Seq::<char>::empty(),
        },
    }
}

/// The children of a gate in human syntax, joined by `sep`.
pub open spec fn human_ser_list(cs: Seq<PolicyValue>, sep: Seq<char>) -> Seq<char>
    decreases cs, 2int,
{
    if cs.len() == 0 {
        Seq::<char>::empty()
    } else if cs.len() == 1 {
        human_ser(cs[0], None)
    } else {
        human_ser(cs[0], None) + sep + human_ser_list(cs.subrange(1, cs.len() as int), sep)
    }
}

/// The serializer's full specification, by language.
pub open spec fn spec_serialize(v: PolicyValue, l: PolicyLanguage, parent: Option<PolicyType>) -> Seq<char> {
    match l {
        PolicyLanguage::JsonPolicy => json_ser(v),
        PolicyLanguage::HumanPolicy => human_ser(v, parent),
    }
}

/// The inputs on which the serializer is defined: in the human syntax a bare
/// `Array` needs a gate kind from its parent to pick the infix operator.
pub open spec fn serialize_ok(v: PolicyValue, l: PolicyLanguage, parent: Option<PolicyType>) -> bool
    decreases v, 1int,
{
    match l {
        PolicyLanguage::JsonPolicy => true,
        PolicyLanguage::HumanPolicy => match v {
            PolicyValue::String(_) => true,
            PolicyValue::Object((t, b)) => serialize_ok(*b, l, Some(t)),
            PolicyValue::Array(cs) => (parent == Some(PolicyType::And) || parent == Some(
                PolicyType::Or,
            )) && serialize_ok_list(cs@, l),
        },
    }
}

pub open spec fn serialize_ok_list(cs: Seq<PolicyValue>, l: PolicyLanguage) -> bool
    decreases cs, 2int,
{
    forall|i: int| 0 <= i < cs.len() ==> serialize_ok(#[trigger] cs[i], l, None)
}

/// Serialize a policy tree back to its textual form in the given language.
///
/// The JSON form of a leaf is `{"name": "A"}`; of a gate,
/// `{"name": "and", "children": [...]}`. The human form of a leaf is the bare
/// attribute; every gate is wrapped in parentheses, so mixed `and`/`or` stay
/// unambiguous.
pub fn serialize_policy(val: &PolicyValue, language: PolicyLanguage, parent: Option<PolicyType>) -> (res: String)
    requires
        serialize_ok(*val, language, parent),
    ensures
        res@ == spec_serialize(*val, language, parent),
{
    match language {
        PolicyLanguage::JsonPolicy => serialize_json(val),
        PolicyLanguage::HumanPolicy => serialize_human(val, parent),
    }
}

fn serialize_json(val: &PolicyValue) -> (res: String)
    ensures
        res@ == json_ser(*val),
    decreases *val, 1int,
{
    match val {
        PolicyValue::String(s) => {
            let mut out = String::from_str("{\"name\": \"");
            out.append(s.as_str());
            out.append("\"}");
            assert(out@ =~= "{\"name\": \""@ + s@ + "\"}"@);
            out
        },
        PolicyValue::Object(obj) => {
            match obj.0 {
                PolicyType::And => {
                    let mut out = String::from_str("{\"name\": \"and\", ");
                    let inner = serialize_json(&obj.1);
                    out.append(inner.as_str());
                    out.append("}");
                    assert(out@ =~= "{\"name\": \"and\", "@ + inner@ + "}"@);
                    out
                },
                PolicyType::Or => {
                    let mut out = String::from_str("{\"name\": \"or\", ");
                    let inner = serialize_json(&obj.1);
                    out.append(inner.as_str());
                    out.append("}");
                    assert(out@ =~= "{\"name\": \"or\", "@ + inner@ + "}"@);
                    out
                },
                PolicyType::Leaf => serialize_json(&obj.1),
            }
        },
        PolicyValue::Array(cs) => {
            let mut out = String::from_str("\"children\": [");
            let inner = serialize_json_list(cs, 0);
            out.append(inner.as_str());
            out.append("]");
            proof {
                assert(cs@.subrange(0, cs@.len() as int) =~= cs@);
                assert(out@ =~= "\"children\": ["@ + inner@ + "]"@);
            }
            out
        },
    }
}

fn serialize_json_list(cs: &Vec<PolicyValue>, i: usize) -> (res: String)
    requires
        i <= cs@.len(),
    ensures
        res@ == json_ser_list(cs@.subrange(i as int, cs@.len() as int)),
    decreases cs@, 2int, cs@.len() - i,
{
    let n = cs.len();
    if i >= n {
        let out = String::new();
        assert(cs@.subrange(i as int, cs@.len() as int).len() == 0);
        out
    } else if i == n - 1 {
        let out = serialize_json(&cs[i]);
        assert(cs@.subrange(i as int, cs@.len() as int)[0] == cs@[i as int]);
        out
    } else {
        let mut out = serialize_json(&cs[i]);
        out.append(", ");
        let rest = serialize_json_list(cs, i + 1);
        out.append(rest.as_str());
        proof {
            let whole = cs@.subrange(i as int, cs@.len() as int);
            assert(whole[0] == cs@[i as int]);
            assert(whole.subrange(1, whole.len() as int) =~= cs@.subrange(
                i + 1,
                cs@.len() as int,
            ));
            assert(out@ =~= json_ser(cs@[i as int]) + ", "@ + rest@);
        }
        out
    }
}

fn serialize_human(val: &PolicyValue, parent: Option<PolicyType>) -> (res: String)
    requires
        serialize_ok(*val, PolicyLanguage::HumanPolicy, parent),
    ensures
        res@ == human_ser(*val, parent),
    decreases *val, 1int,
{
    match val {
        PolicyValue::String(s) => {
            let mut out = String::new();
            out.append(s.as_str());
            assert(out@ =~= s@);
            out
        },
        PolicyValue::Object(obj) => serialize_human(&obj.1, Some(obj.0)),
        PolicyValue::Array(cs) => {
            let mut out = String::from_str("(");
            let inner = match parent {
                Some(PolicyType::And) => serialize_human_list(cs, 0, " and "),
                _ => serialize_human_list(cs, 0, " or "),
            };
            out.append(inner.as_str());
            out.append(")");
            proof {
                assert(cs@.subrange(0, cs@.len() as int) =~= cs@);
                assert(out@ =~= "("@ + inner@ + ")"@);
            }
            out
        },
    }
}

fn serialize_human_list(cs: &Vec<PolicyValue>, i: usize, sep: &str) -> (res: String)
    requires
        i <= cs@.len(),
        serialize_ok_list(cs@, PolicyLanguage::HumanPolicy),
    ensures
        res@ == human_ser_list(cs@.subrange(i as int, cs@.len() as int), sep@),
    decreases cs@, 2int, cs@.len() - i,
{
    let n = cs.len();
    if i >= n {
        let out = String::new();
        assert(cs@.subrange(i as int, cs@.len() as int).len() == 0);
        out
    } else if i == n - 1 {
        let out = serialize_human(&cs[i], None);
        assert(cs@.subrange(i as int, cs@.len() as int)[0] == cs@[i as int]);
        out
    } else {
        let mut out = serialize_human(&cs[i], None);
        out.append(sep);
        let rest = serialize_human_list(cs, i + 1, sep);
        out.append(rest.as_str());
        proof {
            let whole = cs@.subrange(i as int, cs@.len() as int);
            assert(whole[0] == cs@[i as int]);
            assert(whole.subrange(1, whole.len() as int) =~= cs@.subrange(
                i + 1,
                cs@.len() as int,
            ));
            assert(out@ =~= human_ser(cs@[i as int], None) + sep@ + rest@);
        }
        out
    }
}


/// A well-formed policy can always be serialized, in either language and
/// without a parent gate: every bare child list sits under an `and` or
/// `or` gate that picks its operator.
pub proof fn lemma_wf_serializable(p: PolicyValue, l: PolicyLanguage)
    requires
        wf_policy(p),
    ensures
        serialize_ok(p, l, None),
    decreases p, 0int,
{
    if l == PolicyLanguage::HumanPolicy {
        match p {
            PolicyValue::String(_) => {},
            PolicyValue::Object((t, b)) => {
                match *b {
                    PolicyValue::Array(cs) => {
                        assert forall|i: int| 0 <= i < cs@.len() implies serialize_ok(
                            #[trigger] cs@[i],
                            l,
                            None,
                        ) by {
                            assert(wf_policy(cs@[i]));
                            lemma_wf_serializable(cs@[i], l);
                        }
                        assert(serialize_ok_list(cs@, l));
                        assert(serialize_ok(*b, l, Some(t)));
                    },
                    _ => {},
                }
            },
            PolicyValue::Array(_) => {},
        }
    }
}

} // verus!
