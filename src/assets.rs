use vstd::prelude::*;

verus! {

pub const ASSET_CODE_MIN_LEN: usize = 1;

pub const ASSET_CODE_MAX_LEN: usize = 12;

/// Length of a Stellar account id (`G` and 55 base32 characters).
pub const STELLAR_ACCOUNT_ID_LEN: usize = 56;

#[derive(Clone, Copy, Debug, PartialEq, Eq, Structural)]
pub enum AssetPairError {
    InvalidFormat,
    InvalidAssetCode,
    InvalidIssuer,
    SameAssets,
}

/// ASCII letter or digit.
pub open spec fn alnum(b: u8) -> bool {
    (65 <= b <= 90) || (97 <= b <= 122) || (48 <= b <= 57)
}

/// `A`-`Z` or `2`-`7`.
pub open spec fn base32(b: u8) -> bool {
    (65 <= b <= 90) || (50 <= b <= 55)
}

/// An asset code: 1 to 12 ASCII letters or digits.
pub open spec fn valid_code(s: Seq<u8>) -> bool {
    ASSET_CODE_MIN_LEN <= s.len() <= ASSET_CODE_MAX_LEN && forall|i: int|
        0 <= i < s.len() ==> alnum(#[trigger] s[i])
}

/// An issuer: `G` followed by 55 base32 characters.
pub open spec fn valid_issuer(s: Seq<u8>) -> bool {
    s.len() == STELLAR_ACCOUNT_ID_LEN && s[0] == 71 && forall|i: int|
        1 <= i < s.len() ==> base32(#[trigger] s[i])
}

/// `k` is the first position of byte `b` in `s`.
pub open spec fn first_at(s: Seq<u8>, b: u8, k: int) -> bool {
    0 <= k < s.len() && s[k] == b && forall|j: int| 0 <= j < k ==> s[j] != b
}

/// One side of a pair: `XLM`, a bare code, or `CODE:ISSUER`.
pub open spec fn asset_part_check(s: Seq<u8>) -> Result<(), AssetPairError> {
    if s.len() == 0 {
        Err(AssetPairError::InvalidFormat)
    } else if !s.contains(58u8) {
        if s == seq![88u8, 76u8, 77u8] || valid_code(s) {
            Ok(())
        } else {
            Err(AssetPairError::InvalidAssetCode)
        }
    } else {
        let k = choose|k: int| first_at(s, 58u8, k);
        if !valid_code(s.take(k)) {
            Err(AssetPairError::InvalidAssetCode)
        } else if !valid_issuer(s.skip(k + 1)) {
            Err(AssetPairError::InvalidIssuer)
        } else {
            Ok(())
        }
    }
}

/// `k` is the only position of `/` in `s`.
pub open spec fn sole_slash(s: Seq<u8>, k: int) -> bool {
    0 <= k < s.len() && s[k] == 47 && forall|j: int| 0 <= j < s.len() && j != k ==> s[j] != 47
}

/// `BASE/QUOTE`: exactly one `/` with a non-empty side on each hand, each side a
/// valid asset, and the two sides different.
pub open spec fn asset_pair_check(s: Seq<u8>) -> Result<(), AssetPairError> {
    if !(exists|k: int| sole_slash(s, k)) {
        Err(AssetPairError::InvalidFormat)
    } else {
        let k = choose|k: int| sole_slash(s, k);
        if k == 0 || k >= s.len() - 1 {
            Err(AssetPairError::InvalidFormat)
        } else if asset_part_check(s.take(k)) is Err {
            asset_part_check(s.take(k))
        } else if asset_part_check(s.skip(k + 1)) is Err {
            asset_part_check(s.skip(k + 1))
        } else if s.take(k) == s.skip(k + 1) {
            Err(AssetPairError::SameAssets)
        } else {
            Ok(())
        }
    }
}

/// ASCII letter or digit.
pub fn is_alnum(b: u8) -> (r: bool)
    ensures
        r == alnum(b),
{
    (b >= 65 && b <= 90) || (b >= 97 && b <= 122) || (b >= 48 && b <= 57)
}

/// Character of the base32 alphabet of Stellar keys (`A`-`Z`, `2`-`7`).
pub fn is_base32(b: u8) -> (r: bool)
    ensures
        r == base32(b),
{
    (b >= 65 && b <= 90) || (b >= 50 && b <= 55)
}

fn validate_asset_code_bytes(bytes: &Vec<u8>, start: usize, end: usize) -> (r: bool)
    requires
        start <= end <= bytes.len(),
    ensures
        r == valid_code(bytes@.subrange(start as int, end as int)),
{
    let ghost s = bytes@.subrange(start as int, end as int);
    let len = end - start;
    if len < ASSET_CODE_MIN_LEN || len > ASSET_CODE_MAX_LEN {
        return false;
    }
    let mut i: usize = start;
    while i < end
        invariant
            start <= i <= end <= bytes.len(),
            s == bytes@.subrange(start as int, end as int),
            forall|j: int| 0 <= j < i - start ==> alnum(#[trigger] s[j]),
        decreases end - i,
    {
        if !is_alnum(bytes[i]) {
            assert(s[i - start] == bytes@[i as int]);
            return false;
        }
        i = i + 1;
    }
    true
}

fn validate_issuer_bytes(bytes: &Vec<u8>, start: usize, end: usize) -> (r: bool)
    requires
        start <= end <= bytes.len(),
    ensures
        r == valid_issuer(bytes@.subrange(start as int, end as int)),
{
    let ghost s = bytes@.subrange(start as int, end as int);
    if end - start != STELLAR_ACCOUNT_ID_LEN {
        return false;
    }
    if bytes[start] != 71 {
        return false;
    }
    let mut i: usize = start + 1;
    while i < end
        invariant
            start + 1 <= i <= end <= bytes.len(),
            s == bytes@.subrange(start as int, end as int),
            forall|j: int| 1 <= j < i - start ==> base32(#[trigger] s[j]),
        decreases end - i,
    {
        if !is_base32(bytes[i]) {
            assert(s[i - start] == bytes@[i as int]);
            return false;
        }
        i = i + 1;
    }
    true
}

fn ranges_equal(bytes: &Vec<u8>, a_start: usize, a_end: usize, b_start: usize, b_end: usize) -> (r: bool)
    requires
        a_start <= a_end <= bytes.len(),
        b_start <= b_end <= bytes.len(),
    ensures
        r == (bytes@.subrange(a_start as int, a_end as int) == bytes@.subrange(
            b_start as int,
            b_end as int,
        )),
{
    let ghost a = bytes@.subrange(a_start as int, a_end as int);
    let ghost b = bytes@.subrange(b_start as int, b_end as int);
    if a_end - a_start != b_end - b_start {
        assert(a.len() != b.len());
        return false;
    }
    let n = a_end - a_start;
    let mut i: usize = 0;
    while i < n
        invariant
            0 <= i <= n == a_end - a_start == b_end - b_start,
            a_end <= bytes.len(),
            b_end <= bytes.len(),
            a == bytes@.subrange(a_start as int, a_end as int),
            b == bytes@.subrange(b_start as int, b_end as int),
            forall|j: int| 0 <= j < i ==> a[j] == b[j],
        decreases n - i,
    {
        if bytes[a_start + i] != bytes[b_start + i] {
            assert(a[i as int] != b[i as int]);
            return false;
        }
        i = i + 1;
    }
    assert(a =~= b);
    true
}

fn validate_asset_part(bytes: &Vec<u8>, start: usize, end: usize) -> (r: Result<(), AssetPairError>)
    requires
        start <= end <= bytes.len(),
    ensures
        r == asset_part_check(bytes@.subrange(start as int, end as int)),
{
    let ghost s = bytes@.subrange(start as int, end as int);
    if start >= end {
        return Err(AssetPairError::InvalidFormat);
    }
    let mut i: usize = start;
    while i < end && bytes[i] != 58
        invariant
            start <= i <= end <= bytes.len(),
            s == bytes@.subrange(start as int, end as int),
            forall|j: int| 0 <= j < i - start ==> s[j] != 58,
        decreases end - i,
    {
        i = i + 1;
    }
    let colon_at = i;
    if colon_at == end {
        assert(!s.contains(58u8));
        let xlm = end - start == 3 && bytes[start] == 88 && bytes[start + 1] == 76 && bytes[start + 2] == 77;
        assert(xlm == (s == seq![88u8, 76u8, 77u8])) by {
            if end - start == 3 {
                assert(s[0] == bytes@[start as int] && s[1] == bytes@[start + 1] && s[2] == bytes@[start + 2]);
                if s == seq![88u8, 76u8, 77u8] {
                    assert(s[0] == 88 && s[1] == 76 && s[2] == 77);
                }
                if xlm {
                    assert(s =~= seq![88u8, 76u8, 77u8]);
                }
            }
        }
        if xlm || validate_asset_code_bytes(bytes, start, end) {
            Ok(())
        } else {
            Err(AssetPairError::InvalidAssetCode)
        }
    } else {
        let ghost k = colon_at - start;
        proof {
            assert(first_at(s, 58u8, k));
            assert(s.contains(58u8)) by {
                assert(s[k] == 58);
            }
            let c = choose|c: int| first_at(s, 58u8, c);
            if c < k {
                assert(s[c] != 58);
            }
            if k < c {
                assert(s[k] != 58);
            }
            assert(c == k);
            assert(s.take(k) =~= bytes@.subrange(start as int, colon_at as int));
            assert(s.skip(k + 1) =~= bytes@.subrange(colon_at + 1, end as int));
        }
        if !validate_asset_code_bytes(bytes, start, colon_at) {
            return Err(AssetPairError::InvalidAssetCode);
        }
        if !validate_issuer_bytes(bytes, colon_at + 1, end) {
            return Err(AssetPairError::InvalidIssuer);
        }
        Ok(())
    }
}

/// Checks an asset pair `BASE/QUOTE`, each side `XLM`, a code of 1 to 12 letters
/// and digits, or `CODE:ISSUER` with a 56-character issuer starting with `G`; the
/// sides must differ.
pub fn validate_asset_pair(asset_pair: &Vec<u8>) -> (r: Result<(), AssetPairError>)
    ensures
        r == asset_pair_check(asset_pair@),
{
    let ghost s = asset_pair@;
    let len = asset_pair.len();
    let mut slash_at: usize = len;
    let mut i: usize = 0;
    while i < len
        invariant
            0 <= i <= len == s.len(),
            s == asset_pair@,
            slash_at <= len,
            forall|j: int| 0 <= j < i && j != slash_at ==> s[j] != 47,
            slash_at < len ==> slash_at < i && s[slash_at as int] == 47,
        decreases len - i,
    {
        assert(s[i as int] == asset_pair@[i as int]);
        if asset_pair[i] == 47 {
            if slash_at < len {
                proof {
                    assert forall|k: int| !sole_slash(s, k) by {
                        if sole_slash(s, k) {
                            if k != slash_at {
                                assert(s[slash_at as int] != 47);
                            } else {
                                assert(s[i as int] != 47);
                            }
                        }
                    }
                }
                return Err(AssetPairError::InvalidFormat);
            }
            slash_at = i;
        }
        i = i + 1;
    }
    if slash_at == len {
        assert forall|k: int| !sole_slash(s, k) by {
            if sole_slash(s, k) {
                assert(s[k] != 47);
            }
        }
        return Err(AssetPairError::InvalidFormat);
    }
    proof {
        assert forall|j: int| 0 <= j < s.len() && j != slash_at implies s[j] != 47 by {
            assert(j < i);
        }
        assert(sole_slash(s, slash_at as int));
        let c = choose|c: int| sole_slash(s, c);
        if c != slash_at {
            assert(s[c] != 47);
        }
        assert(s.take(slash_at as int) =~= s.subrange(0, slash_at as int));
        assert(s.skip(slash_at + 1) =~= s.subrange(slash_at + 1, len as int));
    }
    if slash_at == 0 || slash_at >= len - 1 {
        return Err(AssetPairError::InvalidFormat);
    }
    validate_asset_part(asset_pair, 0, slash_at)?;
    validate_asset_part(asset_pair, slash_at + 1, len)?;
    if ranges_equal(asset_pair, 0, slash_at, slash_at + 1, len) {
        return Err(AssetPairError::SameAssets);
    }
    Ok(())
}

} // verus!
