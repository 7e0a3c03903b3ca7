//! Identifiers: opaque strings minted by the service on create and supplied
//! by the client afterwards.  Equality is character-wise; a freshly minted
//! identifier is a uniformly random token in the hyphenated 36-character
//! format, independent of the uploaded payload.

use vstd::prelude::*;
use vstd::string::StrSliceExecFns;

verus! {

/// Whether a character is a lowercase hexadecimal digit.
pub open spec fn is_hex_char(c: char) -> bool {
    (48 <= c as u32 && c as u32 <= 57)  // '0' ..= '9'
    || (97 <= c as u32 && c as u32 <= 102)  // 'a' ..= 'f'
}

/// The token format of a minted identifier: 36 characters, hyphens at the
/// four fixed positions, lowercase hexadecimal digits everywhere else.
pub open spec fn valid_token(s: Seq<char>) -> bool {
    &&& s.len() == 36
    &&& forall|i: int|
        0 <= i < 36 ==> (if i == 8 || i == 13 || i == 18 || i == 23 {
            (#[trigger] s[i]) as u32 == 45  // '-'
        } else {
            is_hex_char(s[i])
        })
}

/// Decides whether an identifier has the minted token format.
pub fn validate_id(id: &str) -> (r: bool)
    ensures
        r == valid_token(id@),
{
    let n = id.unicode_len();
    if n != 36 {
        return false;
    }
    let mut i: usize = 0;
    while i < 36
        invariant
            id@.len() == 36,
            i <= 36,
            forall|j: int|
                0 <= j < i ==> (if j == 8 || j == 13 || j == 18 || j == 23 {
                    (#[trigger] id@[j]) as u32 == 45
                } else {
                    is_hex_char(id@[j])
                }),
        decreases 36 - i,
    {
        let c = id.get_char(i);
        let u = c as u32;
        let ok = if i == 8 || i == 13 || i == 18 || i == 23 {
            u == 45
        } else {
            (48 <= u && u <= 57) || (97 <= u && u <= 102)
        };
        if !ok {
            return false;
        }
        i = i + 1;
    }
    true
}

/// Character-wise equality of two identifiers.
pub fn id_eq(a: &str, b: &str) -> (r: bool)
    ensures
        r == (a@ == b@),
{
    let na = a.unicode_len();
    let nb = b.unicode_len();
    if na != nb {
        proof {
            assert(a@ != b@);
        }
        return false;
    }
    let mut i: usize = 0;
    while i < na
        invariant
            na == a@.len(),
            na == b@.len(),
            i <= na,
            forall|j: int| 0 <= j < i ==> a@[j] == b@[j],
        decreases na - i,
    {
        if a.get_char(i) != b.get_char(i) {
            return false;
        }
        i = i + 1;
    }
    proof {
        assert(a@ =~= b@);
    }
    true
}

/// Relies on `uuid::Uuid::new_v4` and the hyphenated `Display` format of
/// `uuid::Uuid`: a fresh version-4 token rendered as 36 characters, lowercase
/// hexadecimal with hyphens at the four fixed positions.  Nothing is assumed
/// about which token comes back.
#[verifier::external_body]
pub fn mint_id() -> (r: String)
    ensures
        valid_token(r@),
{
    uuid::Uuid::new_v4().to_string()
}

} // verus!
