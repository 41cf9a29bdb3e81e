//! Object identifiers: fixed-size content hashes, written on disk as
//! forty lowercase-or-uppercase hexadecimal digits.

use vstd::prelude::*;

verus! {

/// The size of an object id in bytes.
pub const ID_LEN: usize = 20;

/// The size of an object id in hexadecimal digits.
pub const ID_HEX_LEN: usize = 40;

/// Whether `b` is an ASCII hexadecimal digit.
pub open spec fn is_hex_digit(b: u8) -> bool {
    (48 <= b <= 57) || (97 <= b <= 102) || (65 <= b <= 70)
}

/// The numeric value of a hexadecimal digit.
pub open spec fn hex_val(b: u8) -> u8 {
    if 48 <= b <= 57 {
        (b - 48) as u8
    } else if 97 <= b <= 102 {
        (b - 87) as u8
    } else {
        (b - 55) as u8
    }
}

/// Every byte of `s` is a hexadecimal digit.
pub open spec fn all_hex(s: Seq<u8>) -> bool {
    forall|i: int| 0 <= i < s.len() ==> is_hex_digit(#[trigger] s[i])
}

/// The bytes denoted by a sequence of hexadecimal digit pairs.
pub open spec fn hex_decoded(s: Seq<u8>) -> Seq<u8> {
    Seq::new((s.len() / 2) as nat, |i: int| (hex_val(s[2 * i]) * 16 + hex_val(s[2 * i + 1])) as u8)
}

/// An object identifier: twenty raw bytes.
#[derive(Debug)]
pub struct ObjectId {
    bytes: Vec<u8>,
}

impl ObjectId {
    /// The bytes of the id.
    pub closed spec fn view(&self) -> Seq<u8> {
        self.bytes@
    }

    /// A well-formed id has exactly twenty bytes.
    pub open spec fn wf(&self) -> bool {
        self@.len() == ID_LEN
    }

    /// Decodes forty hexadecimal digits into an id. Returns `None`
    /// exactly when `hex` has the wrong length or holds a byte that is
    /// no hexadecimal digit.
    pub fn from_hex(hex: &Vec<u8>) -> (r: Option<ObjectId>)
        ensures
            match r {
                Some(id) => hex@.len() == ID_HEX_LEN && all_hex(hex@) && id.wf() && id@
                    == hex_decoded(hex@),
                None => !(hex@.len() == ID_HEX_LEN && all_hex(hex@)),
            },
    {
        if hex.len() != ID_HEX_LEN {
            return None;
        }
        let mut bytes: Vec<u8> = Vec::new();
        let mut i: usize = 0;
        while i < ID_HEX_LEN
            invariant
                i % 2 == 0,
                i <= ID_HEX_LEN,
                hex@.len() == ID_HEX_LEN,
                forall|j: int| 0 <= j < i ==> is_hex_digit(#[trigger] hex@[j]),
                bytes@.len() == i / 2,
                forall|k: int|
                    0 <= k < i / 2 ==> bytes@[k] == (hex_val(hex@[2 * k]) * 16 + hex_val(
                        hex@[2 * k + 1],
                    )) as u8,
            decreases ID_HEX_LEN - i,
        {
            let hi = hex[i];
            let lo = hex[i + 1];
            let hv = if 48 <= hi && hi <= 57 {
                hi - 48
            } else if 97 <= hi && hi <= 102 {
                hi - 87
            } else if 65 <= hi && hi <= 70 {
                hi - 55
            } else {
                return None;
            };
            let lv = if 48 <= lo && lo <= 57 {
                lo - 48
            } else if 97 <= lo && lo <= 102 {
                lo - 87
            } else if 65 <= lo && lo <= 70 {
                lo - 55
            } else {
                return None;
            };
            assert(hv == hex_val(hex@[i as int]) && hv < 16);
            assert(lv == hex_val(hex@[i + 1 as int]) && lv < 16);
            bytes.push(hv * 16 + lv);
            i = i + 2;
        }
        let id = ObjectId { bytes };
        proof {
            assert(id@ =~= hex_decoded(hex@));
        }
        Some(id)
    }

    /// Copies the id.
    pub fn duplicate(&self) -> (r: ObjectId)
        ensures
            r@ == self@,
            r.wf() == self.wf(),
    {
        ObjectId { bytes: crate::bytes::bytes_clone(&self.bytes) }
    }

    /// The raw bytes, for callers that need to show or store them.
    pub fn as_bytes(&self) -> (r: &Vec<u8>)
        ensures
            r@ == self@,
    {
        &self.bytes
    }

    /// Builds an id directly from twenty raw bytes.
    pub fn from_bytes(bytes: Vec<u8>) -> (r: Option<ObjectId>)
        ensures
            match r {
                Some(id) => bytes@.len() == ID_LEN && id@ == bytes@ && id.wf(),
                None => bytes@.len() != ID_LEN,
            },
    {
        if bytes.len() != ID_LEN {
            return None;
        }
        Some(ObjectId { bytes })
    }
}

impl PartialEq for ObjectId {
    /// Ids are equal exactly when their bytes are.
    fn eq(&self, other: &Self) -> (r: bool) {
        crate::bytes::bytes_eq(&self.bytes, &other.bytes)
    }
}

impl vstd::std_specs::cmp::PartialEqSpecImpl for ObjectId {
    open spec fn obeys_eq_spec() -> bool {
        true
    }

    open spec fn eq_spec(&self, other: &Self) -> bool {
        self@ == other@
    }
}

impl Eq for ObjectId {

}

} // verus!
