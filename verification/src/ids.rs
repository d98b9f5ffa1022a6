//! Short opaque identifiers: ten lowercase-alphanumeric characters, used for
//! project ids, deployment ids and deployment URL slugs.

use vstd::prelude::*;

verus! {

/// One byte of the id alphabet: a lowercase ASCII letter (97..=122) or an
/// ASCII digit (48..=57).
pub open spec fn is_id_byte(b: u8) -> bool {
    (97 <= b && b <= 122) || (48 <= b && b <= 57)
}

/// Ids are exactly this long.
pub const ID_LEN: usize = 10;

/// A sequence of bytes forms a valid short id.
pub open spec fn is_valid_id(s: Seq<u8>) -> bool {
    s.len() == ID_LEN && forall|i: int| 0 <= i < s.len() ==> is_id_byte(s[i])
}

/// An opaque short id: ten bytes drawn from `[a-z0-9]`.
#[derive(Debug, PartialEq, Eq, Hash)]
pub struct NanoId {
    bytes: Vec<u8>,
}

impl Clone for NanoId {
    fn clone(&self) -> (r: Self)
        ensures
            r@ == self@,
    {
        NanoId { bytes: self.bytes.clone() }
    }
}

impl NanoId {
    pub closed spec fn view(&self) -> Seq<u8> {
        self.bytes@
    }

    /// The id is well formed.
    pub open spec fn wf(&self) -> bool {
        is_valid_id(self@)
    }

    /// Wraps raw bytes; callers outside the library go through here.
    pub fn from_bytes(bytes: Vec<u8>) -> (r: Result<NanoId, ()>)
        ensures
            r is Ok ==> is_valid_id(bytes@) && r->Ok_0@ == bytes@ && r->Ok_0.wf(),
            r is Err ==> !is_valid_id(bytes@),
    {
        if bytes.len() != ID_LEN {
            return Err(());
        }
        let mut i: usize = 0;
        while i < bytes.len()
            invariant
                i <= bytes.len(),
                bytes.len() == ID_LEN,
                forall|j: int| 0 <= j < i ==> is_id_byte(bytes@[j]),
            decreases bytes.len() - i,
        {
            let b = bytes[i];
            if !((97 <= b && b <= 122) || (48 <= b && b <= 57)) {
                return Err(());
            }
            i += 1;
        }
        Ok(NanoId { bytes })
    }

    pub fn as_bytes(&self) -> (r: &Vec<u8>)
        ensures
            r@ == self@,
    {
        &self.bytes
    }

    pub fn to_vec(&self) -> (r: Vec<u8>)
        ensures
            r@ == self@,
    {
        self.bytes.clone()
    }

    pub fn eq_id(&self, other: &NanoId) -> (r: bool)
        ensures
            r <==> self@ == other@,
    {
        crate::bytes::bytes_eq(&self.bytes, &other.bytes)
    }
}

/// Relies on nanoid's `format` with its default OS random source: the
/// result has exactly `len` characters, each drawn from the given
/// alphabet. The alphabet here is ASCII, so characters are single bytes.
#[verifier::external_body]
pub(crate) fn nanoid_bytes(alphabet: &Vec<u8>, len: usize) -> (r: Vec<u8>)
    requires
        0 < alphabet@.len() <= 255,
        0 < len,
        forall|i: int| 0 <= i < alphabet@.len() ==> alphabet@[i] < 128,
    ensures
        r@.len() == len,
        forall|i: int| 0 <= i < r@.len() ==> alphabet@.contains(r@[i]),
{
    let chars: Vec<char> = alphabet.iter().map(|b| *b as char).collect();
    nanoid::format(nanoid::rngs::default, &chars, len).into_bytes()
}

/// The id alphabet: the lowercase ASCII letters followed by the digits.
pub fn id_alphabet() -> (r: Vec<u8>)
    ensures
        r@.len() == 36,
        forall|i: int| 0 <= i < r@.len() ==> is_id_byte(r@[i]) && r@[i] < 128,
{
    let mut out: Vec<u8> = Vec::new();
    let mut b: u8 = 97;
    while b <= 122
        invariant
            97 <= b <= 123,
            out@.len() == b - 97,
            forall|i: int| 0 <= i < out@.len() ==> is_id_byte(out@[i]) && out@[i] < 128,
        decreases 123 - b,
    {
        out.push(b);
        b += 1;
    }
    let mut d: u8 = 48;
    while d <= 57
        invariant
            48 <= d <= 58,
            out@.len() == 26 + d - 48,
            forall|i: int| 0 <= i < out@.len() ==> is_id_byte(out@[i]) && out@[i] < 128,
        decreases 58 - d,
    {
        out.push(d);
        d += 1;
    }
    out
}

/// A fresh random string over the id alphabet.
pub fn random_id_string(len: usize) -> (r: Vec<u8>)
    requires
        0 < len,
    ensures
        r@.len() == len,
        forall|i: int| 0 <= i < r@.len() ==> is_id_byte(r@[i]),
{
    let alphabet = id_alphabet();
    let out = nanoid_bytes(&alphabet, len);
    proof {
        assert forall|i: int| 0 <= i < out@.len() implies is_id_byte(out@[i]) by {
            let j = choose|j: int| 0 <= j < alphabet@.len() && alphabet@[j] == out@[i];
        }
    }
    out
}

impl NanoId {
    /// A fresh random id.
    pub fn random() -> (r: NanoId)
        ensures
            r.wf(),
    {
        NanoId { bytes: random_id_string(ID_LEN) }
    }
}

/// A fresh random URL slug for a deployment: ten characters over the id
/// alphabet.
pub fn create_deployment_url_id() -> (r: Vec<u8>)
    ensures
        is_valid_id(r@),
{
    random_id_string(ID_LEN)
}

/// An app name is valid when it is not the reserved label `api` and holds
/// no `"--"`, which the hostname grammar uses as its separator.
pub fn is_app_name_valid(name: &[u8]) -> (r: bool)
    ensures
        r <==> name@ != seq![97u8, 112u8, 105u8] && crate::label::no_dd(name@),
{
    let api: Vec<u8> = vec![97u8, 112u8, 105u8];
    proof {
        assert(api@ =~= seq![97u8, 112u8, 105u8]);
    }
    if crate::bytes::bytes_eq_slice(name, api.as_slice()) {
        return false;
    }
    match crate::label::find_dd(name) {
        Some(_) => {
            proof {
                crate::label::lemma_first_dd_from(name@, 0);
            }
            false
        },
        None => {
            proof {
                crate::label::lemma_first_dd_from(name@, 0);
            }
            true
        },
    }
}

} // verus!
