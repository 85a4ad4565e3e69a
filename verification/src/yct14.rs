use vstd::prelude::*;
use vstd::string::*;

use crate::algebra::{fr_inverse, fr_mul, fr_one, fr_rand, gt_mul, gt_one, gt_pow, gt_rand, gt_to_bytes};
use crate::errors::RabeError;
use crate::parser::{parse, parse_error, sp_parse_tree, str_eq, view_policy};
use crate::policy::{wf_policy, PolicyLanguage, PolicyValue};
use crate::secretsharing::{
    calc_coefficients, calc_pruned, gen_shares_policy, leaf_entries, lemma_entries_strip,
    lemma_view_determines, n_leaves, remove_index, satisfies, share_labels_ok, strip_label,
};
use crate::symenc::{aead_pt_max, decrypt_symmetric, digest_of, encrypt_symmetric, opens_to};

verus! {

/// One half of an attribute's key material: a group element on the public
/// side, a scalar on the private side.
pub enum Yct14Type {
    Public(rabe_bn::Gt),
    Private(rabe_bn::Fr),
}

/// An attribute name together with its key material.
pub struct Yct14Attribute {
    pub name: String,
    pub node: Yct14Type,
}

/// A public key: the element `g^s` and one public entry per attribute of
/// the universe.
pub struct Yct14AbePublicKey {
    pub g: rabe_bn::Gt,
    pub attributes: Vec<Yct14Attribute>,
}

/// A master key: the master scalar `s` and one private entry per attribute
/// of the universe.
pub struct Yct14AbeMasterKey {
    pub s: rabe_bn::Fr,
    pub attributes: Vec<Yct14Attribute>,
}

/// A user's secret key: the textual policy with its language, and one
/// private entry per leaf of the policy, under the leaf's labeled name.
pub struct Yct14AbeSecretKey {
    pub policy: (String, PolicyLanguage),
    pub du: Vec<Yct14Attribute>,
}

/// A ciphertext: one public entry per attribute it was encrypted under,
/// and the sealed envelope.
pub struct Yct14AbeCiphertext {
    pub attributes: Vec<Yct14Attribute>,
    pub ct: Vec<u8>,
}

/// The index of the first attribute called `name`, or a negative number
/// when there is none.
pub open spec fn find_name(attrs: Seq<Yct14Attribute>, name: Seq<char>) -> int
    decreases attrs.len(),
{
    if attrs.len() == 0 {
        -1
    } else if attrs[0].name@ == name {
        0
    } else {
        let t = find_name(attrs.subrange(1, attrs.len() as int), name);
        if t < 0 {
            -1
        } else {
            t + 1
        }
    }
}

/// The attribute names of the entries, in order.
pub open spec fn names_of(attrs: Seq<Yct14Attribute>) -> Seq<Seq<char>> {
    Seq::new(attrs.len(), |i: int| attrs[i].name@)
}

/// `name` stands in `attrs` and its first entry is a public one.
pub open spec fn has_public_entry(attrs: Seq<Yct14Attribute>, name: Seq<char>) -> bool {
    find_name(attrs, name) >= 0 && attrs[find_name(attrs, name)].node is Public
}

/// `name` stands in `attrs` and its first entry is a private one.
pub open spec fn has_private_entry(attrs: Seq<Yct14Attribute>, name: Seq<char>) -> bool {
    find_name(attrs, name) >= 0 && attrs[find_name(attrs, name)].node is Private
}

/// The key policy parses to the shape of `t`, a well-formed tree of
/// machine-bounded size, and every leaf's bare attribute has a private
/// master-key entry: key generation then fails only should a scalar lack
/// an inverse.
pub open spec fn keygen_ready(
    msk: Yct14AbeMasterKey,
    language: PolicyLanguage,
    policy: Seq<char>,
    t: PolicyValue,
) -> bool {
    &&& sp_parse_tree(language, policy) == Some(view_policy(t))
    &&& wf_policy(t)
    &&& n_leaves(t) <= usize::MAX
    &&& forall|k: int|
        0 <= k < leaf_entries(t, 0).len() ==> has_private_entry(
            msk.attributes@,
            #[trigger] leaf_entries(t, 0)[k].0,
        )
}

/// The key's policy parses to the shape of `t`, a well-formed tree of
/// machine-bounded size that the ciphertext's attribute names do not
/// satisfy: the honest decryption path must then report a policy mismatch.
pub open spec fn mismatch_witness(
    sk: Yct14AbeSecretKey,
    ct: Yct14AbeCiphertext,
    t: PolicyValue,
) -> bool {
    &&& sp_parse_tree(sk.policy.1, sk.policy.0@) == Some(view_policy(t))
    &&& wf_policy(t)
    &&& n_leaves(t) <= usize::MAX
    &&& !satisfies(names_of(ct.attributes@), t)
}

proof fn lemma_find_at(attrs: Seq<Yct14Attribute>, name: Seq<char>, m: int)
    requires
        0 <= m < attrs.len(),
        attrs[m].name@ == name,
        forall|j: int| 0 <= j < m ==> (#[trigger] attrs[j]).name@ != name,
    ensures
        find_name(attrs, name) == m,
    decreases m,
{
    if m > 0 {
        let sub = attrs.subrange(1, attrs.len() as int);
        lemma_find_at(sub, name, m - 1);
    }
}

proof fn lemma_find_none(attrs: Seq<Yct14Attribute>, name: Seq<char>)
    requires
        forall|j: int| 0 <= j < attrs.len() ==> (#[trigger] attrs[j]).name@ != name,
    ensures
        find_name(attrs, name) < 0,
    decreases attrs.len(),
{
    if attrs.len() > 0 {
        lemma_find_none(attrs.subrange(1, attrs.len() as int), name);
    }
}

/// The position of the first attribute called `name`, searched front to
/// back.
fn find_attr(attrs: &Vec<Yct14Attribute>, name: &String) -> (r: Option<usize>)
    ensures
        r matches Some(k) ==> k < attrs@.len() && k == find_name(attrs@, name@),
        r is None ==> find_name(attrs@, name@) < 0,
{
    let mut k: usize = 0;
    while k < attrs.len()
        invariant
            k <= attrs@.len(),
            forall|j: int| 0 <= j < k ==> (#[trigger] attrs@[j]).name@ != name@,
        decreases attrs@.len() - k,
    {
        if str_eq(attrs[k].name.as_str(), name.as_str()) {
            proof {
                lemma_find_at(attrs@, name@, k as int);
            }
            return Some(k);
        }
        k = k + 1;
    }
    proof {
        lemma_find_none(attrs@, name@);
    }
    None
}

impl Yct14Type {
    /// The public group element this entry holds; a type-confusion error on
    /// a private entry.
    pub fn public(&self) -> (r: Result<rabe_bn::Gt, RabeError>)
        ensures
            (match *self {
                Yct14Type::Public(g) => r == Ok::<rabe_bn::Gt, RabeError>(g),
                Yct14Type::Private(_) => r == Err::<rabe_bn::Gt, RabeError>(
                    RabeError::TypeConfusion,
                ),
            }),
    {
        match self {
            Yct14Type::Public(g) => Ok(*g),
            Yct14Type::Private(_) => Err(RabeError::TypeConfusion),
        }
    }

    /// The private scalar this entry holds; a type-confusion error on a
    /// public entry.
    pub fn private(&self) -> (r: Result<rabe_bn::Fr, RabeError>)
        ensures
            (match *self {
                Yct14Type::Private(v) => r == Ok::<rabe_bn::Fr, RabeError>(v),
                Yct14Type::Public(_) => r == Err::<rabe_bn::Fr, RabeError>(
                    RabeError::TypeConfusion,
                ),
            }),
    {
        match self {
            Yct14Type::Private(v) => Ok(*v),
            Yct14Type::Public(_) => Err(RabeError::TypeConfusion),
        }
    }
}

impl Yct14Attribute {
    /// A fresh attribute pair: a random scalar `s_i`, published as
    /// `g^{s_i}` in the public part and kept as `s_i` in the private part.
    pub fn new(name: String, g: rabe_bn::Gt) -> (r: (Yct14Attribute, Yct14Attribute))
        ensures
            r.0.name@ == name@ && r.0.node is Public,
            r.1.name@ == name@ && r.1.node is Private,
    {
        let si = fr_rand();
        let public_part = Yct14Attribute { name: name.clone(), node: Yct14Type::Public(gt_pow(&g, si)) };
        let private_part = Yct14Attribute { name, node: Yct14Type::Private(si) };
        (public_part, private_part)
    }

    /// A secret-key entry from a labeled share: the bare attribute name is
    /// the labeled name cut at its last underscore; the entry holds
    /// `share · s_a^{-1}` for the master key's scalar `s_a` of that bare
    /// name, under the labeled name. An absent bare name is unknown, a
    /// public entry in its place a type confusion; a present private entry
    /// yields the key entry unless the scalar has no inverse.
    pub fn private_from(input: (String, rabe_bn::Fr), msk: &Yct14AbeMasterKey) -> (r: Result<
        Yct14Attribute,
        RabeError,
    >)
        ensures
            r matches Ok(a) ==> a.name@ == input.0@ && a.node is Private,
            find_name(msk.attributes@, strip_label(input.0@)) < 0 ==> r == Err::<
                Yct14Attribute,
                RabeError,
            >(RabeError::UnknownAttribute),
            find_name(msk.attributes@, strip_label(input.0@)) >= 0 ==> (match msk.attributes@[
                find_name(msk.attributes@, strip_label(input.0@))].node {
                Yct14Type::Private(_) => r is Ok || r == Err::<Yct14Attribute, RabeError>(
                    RabeError::FieldInverse,
                ),
                Yct14Type::Public(_) => r == Err::<Yct14Attribute, RabeError>(
                    RabeError::TypeConfusion,
                ),
            }),
    {
        let bare = remove_index(&input.0);
        let si = match msk.get_private(&bare) {
            Ok(v) => v,
            Err(e) => {
                return Err(e);
            },
        };
        let inv = match fr_inverse(&si) {
            Some(v) => v,
            None => {
                return Err(RabeError::FieldInverse);
            },
        };
        Ok(Yct14Attribute { name: input.0, node: Yct14Type::Private(fr_mul(input.1, inv)) })
    }

    /// A ciphertext entry: the public key's element `g^{s_i}` for `name`,
    /// raised to the fresh scalar `k`. An absent attribute is unknown, a
    /// private entry in its place a type confusion; a present public entry
    /// always yields the ciphertext entry.
    pub fn public_from(name: &String, pk: &Yct14AbePublicKey, k: rabe_bn::Fr) -> (r: Result<
        Yct14Attribute,
        RabeError,
    >)
        ensures
            find_name(pk.attributes@, name@) < 0 ==> r == Err::<Yct14Attribute, RabeError>(
                RabeError::UnknownAttribute,
            ),
            find_name(pk.attributes@, name@) >= 0 ==> (match pk.attributes@[find_name(
                pk.attributes@,
                name@,
            )].node {
                Yct14Type::Public(_) => r matches Ok(a) && a.name@ == name@ && a.node is Public,
                Yct14Type::Private(_) => r == Err::<Yct14Attribute, RabeError>(
                    RabeError::TypeConfusion,
                ),
            }),
    {
        let at = match find_attr(&pk.attributes, name) {
            Some(i) => i,
            None => {
                return Err(RabeError::UnknownAttribute);
            },
        };
        let base = match pk.attributes[at].node.public() {
            Ok(g) => g,
            Err(_) => {
                return Err(RabeError::TypeConfusion);
            },
        };
        Ok(Yct14Attribute { name: name.clone(), node: Yct14Type::Public(gt_pow(&base, k)) })
    }
}

impl Yct14AbeMasterKey {
    /// The private scalar of the first entry called `attribute`: absent
    /// attributes are unknown, a public entry in its place is a type
    /// confusion.
    pub fn get_private(&self, attribute: &String) -> (r: Result<rabe_bn::Fr, RabeError>)
        ensures
            find_name(self.attributes@, attribute@) < 0 ==> r == Err::<rabe_bn::Fr, RabeError>(
                RabeError::UnknownAttribute,
            ),
            find_name(self.attributes@, attribute@) >= 0 ==> (match self.attributes@[find_name(
                self.attributes@,
                attribute@,
            )].node {
                Yct14Type::Private(v) => r == Ok::<rabe_bn::Fr, RabeError>(v),
                Yct14Type::Public(_) => r == Err::<rabe_bn::Fr, RabeError>(
                    RabeError::TypeConfusion,
                ),
            }),
    {
        match find_attr(&self.attributes, attribute) {
            Some(i) => self.attributes[i].node.private(),
            None => Err(RabeError::UnknownAttribute),
        }
    }
}

impl Yct14AbeSecretKey {
    /// The private scalar of the first key entry called `attribute` (a
    /// labeled leaf name).
    pub fn get_private(&self, attribute: &String) -> (r: Result<rabe_bn::Fr, RabeError>)
        ensures
            find_name(self.du@, attribute@) < 0 ==> r == Err::<rabe_bn::Fr, RabeError>(
                RabeError::UnknownAttribute,
            ),
            find_name(self.du@, attribute@) >= 0 ==> (match self.du@[find_name(
                self.du@,
                attribute@,
            )].node {
                Yct14Type::Private(v) => r == Ok::<rabe_bn::Fr, RabeError>(v),
                Yct14Type::Public(_) => r == Err::<rabe_bn::Fr, RabeError>(
                    RabeError::TypeConfusion,
                ),
            }),
    {
        match find_attr(&self.du, attribute) {
            Some(i) => self.du[i].node.private(),
            None => Err(RabeError::UnknownAttribute),
        }
    }
}

impl Yct14AbeCiphertext {
    /// The public group element of the first ciphertext entry called
    /// `attribute`.
    pub fn get_public(&self, attribute: &String) -> (r: Result<rabe_bn::Gt, RabeError>)
        ensures
            find_name(self.attributes@, attribute@) < 0 ==> r == Err::<rabe_bn::Gt, RabeError>(
                RabeError::UnknownAttribute,
            ),
            find_name(self.attributes@, attribute@) >= 0 ==> (match self.attributes@[find_name(
                self.attributes@,
                attribute@,
            )].node {
                Yct14Type::Public(g) => r == Ok::<rabe_bn::Gt, RabeError>(g),
                Yct14Type::Private(_) => r == Err::<rabe_bn::Gt, RabeError>(
                    RabeError::TypeConfusion,
                ),
            }),
    {
        match find_attr(&self.attributes, attribute) {
            Some(i) => self.attributes[i].node.public(),
            None => Err(RabeError::UnknownAttribute),
        }
    }
}

/// Set up the scheme for an attribute universe: a random master scalar `s`
/// and generator `g`, a random scalar per attribute; the public key holds
/// `g^s` and the per-attribute elements `g^{s_i}`, the master key holds `s`
/// and the scalars themselves.
pub fn setup(attributes: Vec<&str>) -> (r: (Yct14AbePublicKey, Yct14AbeMasterKey))
    ensures
        r.0.attributes@.len() == attributes@.len(),
        r.1.attributes@.len() == attributes@.len(),
        forall|i: int| 0 <= i < attributes@.len() ==> (#[trigger] r.0.attributes@[i]).name@
            == attributes@[i]@ && r.0.attributes@[i].node is Public,
        forall|i: int| 0 <= i < attributes@.len() ==> (#[trigger] r.1.attributes@[i]).name@
            == attributes@[i]@ && r.1.attributes@[i].node is Private,
{
    let s = fr_rand();
    let g = gt_rand();
    let mut public_attrs: Vec<Yct14Attribute> = Vec::new();
    let mut private_attrs: Vec<Yct14Attribute> = Vec::new();
    let mut i: usize = 0;
    while i < attributes.len()
        invariant
            i <= attributes@.len(),
            public_attrs@.len() == i,
            private_attrs@.len() == i,
            forall|j: int| 0 <= j < i ==> (#[trigger] public_attrs@[j]).name@ == attributes@[j]@
                && public_attrs@[j].node is Public,
            forall|j: int| 0 <= j < i ==> (#[trigger] private_attrs@[j]).name@ == attributes@[j]@
                && private_attrs@[j].node is Private,
        decreases attributes@.len() - i,
    {
        let name: String = String::from_str(attributes[i]);
        let pair = Yct14Attribute::new(name, g);
        public_attrs.push(pair.0);
        private_attrs.push(pair.1);
        i = i + 1;
    }
    (
        Yct14AbePublicKey { g: gt_pow(&g, s), attributes: public_attrs },
        Yct14AbeMasterKey { s, attributes: private_attrs },
    )
}

/// `du` holds one private entry per leaf entry of `es`, under the leaf's
/// labeled name.
pub open spec fn du_matches(du: Seq<Yct14Attribute>, es: Seq<(Seq<char>, Seq<char>)>) -> bool {
    &&& du.len() == es.len()
    &&& forall|k: int| 0 <= k < es.len() ==> (#[trigger] du[k]).name@ == es[k].1 && du[k].node
        is Private
}

/// Generate a user's secret key: parse the policy, deal one share of the
/// master scalar per leaf, and store per leaf `share · s_a^{-1}` under the
/// leaf's labeled name, where `s_a` is the master scalar of the leaf's
/// attribute. Fails on a parse error, a malformed tree, an attribute
/// outside the universe, or a scalar that cannot be inverted.
pub fn keygen(msk: &Yct14AbeMasterKey, policy: &String, language: PolicyLanguage) -> (r: Result<
    Yct14AbeSecretKey,
    RabeError,
>)
    ensures
        r matches Ok(sk) ==> sk.policy.0@ == policy@ && sk.policy.1 == language && (exists|
            t: PolicyValue,
        |
            wf_policy(t) && du_matches(sk.du@, leaf_entries(t, 0)) && sp_parse_tree(
                language,
                policy@,
            ) == Some(view_policy(t))),
        r matches Err(e) ==> parse_error(e) || e == RabeError::UnknownAttribute || e
            == RabeError::TypeConfusion || e == RabeError::FieldInverse,
        sp_parse_tree(language, policy@) is None ==> (r matches Err(e) && parse_error(e)),
        r == Err::<Yct14AbeSecretKey, RabeError>(RabeError::UnknownAttribute) ==> (exists|
            t: PolicyValue,
            k: int,
        |
            #![auto]
            sp_parse_tree(language, policy@) == Some(view_policy(t)) && wf_policy(t) && 0 <= k
                < leaf_entries(t, 0).len() && find_name(
                msk.attributes@,
                leaf_entries(t, 0)[k].0,
            ) < 0),
        r == Err::<Yct14AbeSecretKey, RabeError>(RabeError::TypeConfusion) ==> (exists|
            t: PolicyValue,
            k: int,
        |
            #![auto]
            sp_parse_tree(language, policy@) == Some(view_policy(t)) && wf_policy(t) && 0 <= k
                < leaf_entries(t, 0).len() && find_name(msk.attributes@, leaf_entries(t, 0)[k].0)
                >= 0 && !has_private_entry(msk.attributes@, leaf_entries(t, 0)[k].0)),
        forall|t: PolicyValue|
            keygen_ready(*msk, language, policy@, t) ==> (r is Ok || r == Err::<
                Yct14AbeSecretKey,
                RabeError,
            >(RabeError::FieldInverse)),
{
    let tree = match parse(policy.as_str(), language) {
        Ok(t) => t,
        Err(e) => {
            return Err(e);
        },
    };
    let shares = match gen_shares_policy(msk.s, &tree) {
        Some(v) => v,
        None => {
            proof {
                assert forall|t: PolicyValue| !keygen_ready(*msk, language, policy@, t) by {
                    if sp_parse_tree(language, policy@) == Some(view_policy(t)) {
                        lemma_view_determines(t, tree, Seq::<Seq<char>>::empty(), 0);
                    }
                }
            }
            return Err(RabeError::PolicyShape);
        },
    };
    let mut du: Vec<Yct14Attribute> = Vec::new();
    let mut i: usize = 0;
    while i < shares.len()
        invariant
            i <= shares@.len(),
            du@.len() == i,
            forall|k: int| 0 <= k < i ==> (#[trigger] du@[k]).name@ == shares@[k].0@ && du@[k].node
                is Private,
            wf_policy(tree),
            sp_parse_tree(language, policy@) == Some(view_policy(tree)),
            share_labels_ok(shares@, leaf_entries(tree, 0)),
        decreases shares@.len() - i,
    {
        let label = shares[i].0.clone();
        let value = shares[i].1;
        let entry = match Yct14Attribute::private_from((label, value), msk) {
            Ok(a) => a,
            Err(e) => {
                proof {
                    let es = leaf_entries(tree, 0);
                    assert(shares@[i as int].0@ == es[i as int].1);
                    lemma_entries_strip(tree, 0);
                    assert(strip_label(shares@[i as int].0@) == es[i as int].0);
                    if e != RabeError::FieldInverse {
                        if e == RabeError::UnknownAttribute {
                            assert(find_name(msk.attributes@, es[i as int].0) < 0);
                        } else {
                            assert(find_name(msk.attributes@, es[i as int].0) >= 0);
                            assert(!has_private_entry(msk.attributes@, es[i as int].0));
                        }
                        assert forall|t: PolicyValue| !keygen_ready(
                            *msk,
                            language,
                            policy@,
                            t,
                        ) by {
                            if sp_parse_tree(language, policy@) == Some(view_policy(t)) {
                                lemma_view_determines(t, tree, Seq::<Seq<char>>::empty(), 0);
                            }
                        }
                    }
                }
                return Err(e);
            },
        };
        du.push(entry);
        i = i + 1;
    }
    let sk = Yct14AbeSecretKey { policy: (policy.clone(), language), du };
    proof {
        assert(wf_policy(tree) && du_matches(sk.du@, leaf_entries(tree, 0)) && sp_parse_tree(
            language,
            policy@,
        ) == Some(view_policy(tree)));
    }
    Ok(sk)
}

/// Encrypt a plaintext under an attribute set: a fresh scalar `k` gives
/// the session element `(g^s)^k`; each attribute's entry is `(g^{s_j})^k`;
/// the plaintext is sealed under the session element's bytes. Rejects an
/// empty attribute set and an empty plaintext; fails on an attribute
/// outside the public key. Succeeds whenever the inputs are non-empty, the
/// plaintext is within the cipher's bound, and every attribute has a
/// public entry in the key.
pub fn encrypt(pk: &Yct14AbePublicKey, attributes: &Vec<&str>, plaintext: &[u8]) -> (r: Result<
    Yct14AbeCiphertext,
    RabeError,
>)
    ensures
        (attributes@.len() == 0 || plaintext@.len() == 0) ==> r == Err::<
            Yct14AbeCiphertext,
            RabeError,
        >(RabeError::EmptyInput),
        (attributes@.len() > 0 && 0 < plaintext@.len() <= aead_pt_max() && (forall|i: int|
            0 <= i < attributes@.len() ==> has_public_entry(
                pk.attributes@,
                #[trigger] attributes@[i]@,
            ))) ==> r is Ok,
        r matches Err(e) ==> (e == RabeError::UnknownAttribute ==> exists|i: int|
            0 <= i < attributes@.len() && find_name(pk.attributes@, #[trigger] attributes@[i]@)
                < 0),
        r matches Err(e) ==> (e == RabeError::TypeConfusion ==> exists|i: int|
            0 <= i < attributes@.len() && find_name(pk.attributes@, #[trigger] attributes@[i]@)
                >= 0 && !has_public_entry(pk.attributes@, attributes@[i]@)),
        r matches Ok(c) ==> c.attributes@.len() == attributes@.len() && (forall|i: int|
            0 <= i < attributes@.len() ==> (#[trigger] c.attributes@[i]).name@ == attributes@[i]@
                && c.attributes@[i].node is Public) && (exists|kb: Seq<u8>|
            opens_to(digest_of(kb), c.ct@, plaintext@)),
        r is Ok ==> (forall|i: int|
            0 <= i < attributes@.len() ==> has_public_entry(
                pk.attributes@,
                #[trigger] attributes@[i]@,
            )),
        r matches Err(e) ==> e == RabeError::EmptyInput || e == RabeError::UnknownAttribute || e
            == RabeError::TypeConfusion || e == RabeError::SymmetricFailure,
{
    if attributes.len() == 0 {
        return Err(RabeError::EmptyInput);
    }
    if plaintext.len() == 0 {
        return Err(RabeError::EmptyInput);
    }
    let k = fr_rand();
    let session = gt_pow(&pk.g, k);
    let mut attrs: Vec<Yct14Attribute> = Vec::new();
    let mut i: usize = 0;
    while i < attributes.len()
        invariant
            attributes@.len() > 0,
            plaintext@.len() > 0,
            i <= attributes@.len(),
            attrs@.len() == i,
            forall|j: int| 0 <= j < i ==> (#[trigger] attrs@[j]).name@ == attributes@[j]@
                && attrs@[j].node is Public,
            forall|j: int| 0 <= j < i ==> has_public_entry(
                pk.attributes@,
                #[trigger] attributes@[j]@,
            ),
        decreases attributes@.len() - i,
    {
        let name: String = String::from_str(attributes[i]);
        let entry = match Yct14Attribute::public_from(&name, pk, k) {
            Ok(a) => a,
            Err(e) => {
                proof {
                    if e == RabeError::UnknownAttribute {
                        assert(find_name(pk.attributes@, attributes@[i as int]@) < 0);
                    } else {
                        assert(find_name(pk.attributes@, attributes@[i as int]@) >= 0
                            && !has_public_entry(pk.attributes@, attributes@[i as int]@));
                    }
                }
                return Err(e);
            },
        };
        attrs.push(entry);
        i = i + 1;
    }
    let key_src = gt_to_bytes(&session);
    let envelope = match encrypt_symmetric(&key_src, plaintext) {
        Ok(c) => c,
        Err(e) => {
            // the seal refuses exactly the plaintexts beyond the bound
            assert(plaintext@.len() > aead_pt_max());
            return Err(e);
        },
    };
    let c = Yct14AbeCiphertext { attributes: attrs, ct: envelope };
    proof {
        assert(opens_to(digest_of(key_src@), c.ct@, plaintext@));
    }
    Ok(c)
}

/// The recovery coefficient stored under `name`, searched front to back.
fn find_coeff(coeffs: &Vec<(String, rabe_bn::Fr)>, name: &String) -> Option<rabe_bn::Fr> {
    let mut k: usize = 0;
    while k < coeffs.len()
        decreases coeffs@.len() - k,
    {
        if str_eq(coeffs[k].0.as_str(), name.as_str()) {
            return Some(coeffs[k].1);
        }
        k = k + 1;
    }
    None
}

/// Decrypt a ciphertext with a secret key: reparse the key's policy, check
/// that the ciphertext's attributes satisfy it, and recombine the covered
/// leaves' material as `∏ (u_i^{d_i})^{λ_i}` into the session element that
/// opens the envelope. Fails with a policy mismatch exactly on the honest
/// path's satisfaction check; an undecryptable envelope is a symmetric
/// failure, not a mismatch.
pub fn decrypt(sk: &Yct14AbeSecretKey, ct: &Yct14AbeCiphertext) -> (r: Result<Vec<u8>, RabeError>)
    ensures
        r matches Ok(pt) ==> (exists|kb: Seq<u8>|
            opens_to(digest_of(kb), ct.ct@, pt@) && (forall|q: Seq<u8>|
                opens_to(digest_of(kb), ct.ct@, q) ==> q == pt@)),
        r is Ok ==> (exists|t: PolicyValue|
            wf_policy(t) && satisfies(names_of(ct.attributes@), t) && sp_parse_tree(
                sk.policy.1,
                sk.policy.0@,
            ) == Some(view_policy(t))),
        r == Err::<Vec<u8>, RabeError>(RabeError::PolicyMismatch) ==> (exists|t: PolicyValue|
            wf_policy(t) && !satisfies(names_of(ct.attributes@), t) && sp_parse_tree(
                sk.policy.1,
                sk.policy.0@,
            ) == Some(view_policy(t))),
        forall|t: PolicyValue| mismatch_witness(*sk, *ct, t) ==> r == Err::<Vec<u8>, RabeError>(
            RabeError::PolicyMismatch,
        ),
        sp_parse_tree(sk.policy.1, sk.policy.0@) is None ==> (r matches Err(e) && parse_error(
            e,
        )),
        r matches Err(e) ==> parse_error(e) || e == RabeError::PolicyMismatch || e
            == RabeError::UnknownAttribute || e == RabeError::TypeConfusion || e
            == RabeError::FieldInverse || e == RabeError::SymmetricFailure,
{
    let mut names: Vec<String> = Vec::new();
    let mut i: usize = 0;
    while i < ct.attributes.len()
        invariant
            i <= ct.attributes@.len(),
            names@.len() == i,
            forall|j: int| 0 <= j < i ==> (#[trigger] names@[j])@ == ct.attributes@[j].name@,
        decreases ct.attributes@.len() - i,
    {
        let n = ct.attributes[i].name.clone();
        names.push(n);
        i = i + 1;
    }
    proof {
        assert(names.deep_view() =~= names_of(ct.attributes@));
    }
    let tree = match parse(sk.policy.0.as_str(), sk.policy.1) {
        Ok(t) => t,
        Err(e) => {
            return Err(e);
        },
    };
    let (sat, cover) = match calc_pruned(&names, &tree) {
        Ok(pr) => pr,
        Err(e) => {
            proof {
                assert forall|t: PolicyValue| !mismatch_witness(*sk, *ct, t) by {
                    if sp_parse_tree(sk.policy.1, sk.policy.0@) == Some(view_policy(t)) {
                        lemma_view_determines(t, tree, names_of(ct.attributes@), 0);
                    }
                }
            }
            return Err(e);
        },
    };
    proof {
        if sat {
            assert forall|t: PolicyValue| !mismatch_witness(*sk, *ct, t) by {
                if sp_parse_tree(sk.policy.1, sk.policy.0@) == Some(view_policy(t)) {
                    lemma_view_determines(t, tree, names_of(ct.attributes@), 0);
                }
            }
        }
    }
    if !sat {
        proof {
            assert(wf_policy(tree) && !satisfies(names_of(ct.attributes@), tree)
                && sp_parse_tree(sk.policy.1, sk.policy.0@) == Some(view_policy(tree)));
        }
        return Err(RabeError::PolicyMismatch);
    }
    let coeffs = match calc_coefficients(&tree, fr_one()) {
        Some(v) => v,
        None => {
            return Err(RabeError::FieldInverse);
        },
    };
    let mut prod = gt_one();
    let mut j: usize = 0;
    while j < cover.len()
        invariant
            sat == satisfies(names.deep_view(), tree),
            sat,
            names.deep_view() == names_of(ct.attributes@),
            wf_policy(tree),
            sp_parse_tree(sk.policy.1, sk.policy.0@) == Some(view_policy(tree)),
            forall|t: PolicyValue| !mismatch_witness(*sk, *ct, t),
        decreases cover@.len() - j,
    {
        let u = match ct.get_public(&cover[j].0) {
            Ok(g) => g,
            Err(e) => {
                return Err(e);
            },
        };
        let d = match sk.get_private(&cover[j].1) {
            Ok(v) => v,
            Err(e) => {
                return Err(e);
            },
        };
        let lambda = match find_coeff(&coeffs, &cover[j].1) {
            Some(v) => v,
            None => {
                return Err(RabeError::UnknownAttribute);
            },
        };
        let z = gt_pow(&u, d);
        prod = gt_mul(prod, gt_pow(&z, lambda));
        j = j + 1;
    }
    let key_src = gt_to_bytes(&prod);
    match decrypt_symmetric(&key_src, ct.ct.as_slice()) {
        Ok(pt) => {
            proof {
                assert(opens_to(digest_of(key_src@), ct.ct@, pt@) && (forall|q: Seq<u8>|
                    opens_to(digest_of(key_src@), ct.ct@, q) ==> q == pt@));
            }
            Ok(pt)
        },
        Err(e) => Err(e),
    }
}

} // verus!
