//! The event payload grammar: contract events arrive ABI-encoded in a log's
//! data, as 32-byte head slots (addresses and integers in place, strings by
//! offset) followed by length-prefixed tails. The layout is stated byte for
//! byte in spec functions and the decoders are proved against them.

use vstd::prelude::*;

use crate::strutil::{hex_of, push_char, push_hex};
use crate::types::{CustomError, DecodedEvent};

verus! {

/// The big-endian value of a byte string.
pub open spec fn be_nat(s: Seq<u8>) -> nat
    decreases s.len(),
{
    if s.len() == 0 {
        0
    } else {
        (be_nat(s.drop_last()) * 256 + s.last()) as nat
    }
}

/// 256 to the `k`-th power: the weight of `k` trailing bytes.
pub open spec fn pow256(k: nat) -> nat
    decreases k,
{
    if k == 0 {
        1
    } else {
        256 * pow256((k - 1) as nat)
    }
}

/// The 32-byte head slot number `slot` of an encoded payload.
pub open spec fn word(d: Seq<u8>, slot: int) -> Seq<u8> {
    d.subrange(32 * slot, 32 * slot + 32)
}

/// The unsigned integer in head slot `slot`.
pub open spec fn uint_at(d: Seq<u8>, slot: int) -> nat {
    be_nat(word(d, slot))
}

/// Fits a non-negative `i64`: what the store's columns can hold.
pub open spec fn fits_i64(n: nat) -> bool {
    n < 0x8000000000000000
}

/// The address in head slot `slot`, rendered as the store keeps it:
/// `0x` followed by the lowercase hex of its final 20 bytes.
pub open spec fn addr_at(d: Seq<u8>, slot: int) -> Seq<char> {
    seq!['0', 'x'] + hex_of(word(d, slot).subrange(12, 32))
}

/// Where the tail of the string in head slot `slot` begins.
pub open spec fn str_offset(d: Seq<u8>, slot: int) -> nat {
    uint_at(d, slot)
}

/// The byte length of the string in head slot `slot`.
pub open spec fn str_len(d: Seq<u8>, slot: int) -> nat {
    be_nat(d.subrange(str_offset(d, slot) as int, str_offset(d, slot) as int + 32))
}

/// The content bytes of the string in head slot `slot`.
pub open spec fn str_bytes(d: Seq<u8>, slot: int) -> Seq<u8> {
    d.subrange(
        str_offset(d, slot) as int + 32,
        str_offset(d, slot) as int + 32 + str_len(d, slot) as int,
    )
}

/// A head slot holds a well-formed string: the offset and length words
/// are sane and the tail lies inside the payload.
pub open spec fn str_ok(d: Seq<u8>, slot: int) -> bool {
    &&& fits_i64(str_offset(d, slot))
    &&& str_offset(d, slot) + 32 <= d.len()
    &&& fits_i64(str_len(d, slot))
    &&& str_offset(d, slot) + 32 + str_len(d, slot) <= d.len()
}

/// The characters of the string in head slot `slot`: the tail bytes
/// decoded as UTF-8, ill-formed sequences replaced.
pub open spec fn str_chars(d: Seq<u8>, slot: int) -> Seq<char> {
    crate::strutil::utf8_lossy_of(str_bytes(d, slot))
}

/// A byte string of zeroes has value zero.
proof fn lemma_be_nat_zeros(s: Seq<u8>)
    requires
        forall|k: int| 0 <= k < s.len() ==> s[k] == 0,
    ensures
        be_nat(s) == 0,
    decreases s.len(),
{
    if s.len() > 0 {
        lemma_be_nat_zeros(s.drop_last());
    }
}

/// More trailing bytes never weigh less.
proof fn lemma_pow256_le(a: nat, b: nat)
    requires
        a <= b,
    ensures
        pow256(a) <= pow256(b),
    decreases b,
{
    if a < b {
        lemma_pow256_le(a, (b - 1) as nat);
        assert(pow256(b) == 256 * pow256((b - 1) as nat));
    }
}

/// A string of `k` bytes stays below `256^k`.
proof fn lemma_be_nat_bound(s: Seq<u8>)
    ensures
        be_nat(s) < pow256(s.len()),
    decreases s.len(),
{
    if s.len() > 0 {
        lemma_be_nat_bound(s.drop_last());
        assert(be_nat(s) == be_nat(s.drop_last()) * 256 + s.last());
        assert(be_nat(s.drop_last()) * 256 + s.last() < pow256(s.len())) by (nonlinear_arith)
            requires
                be_nat(s.drop_last()) < pow256((s.len() - 1) as nat),
                s.last() < 256,
                pow256(s.len()) == 256 * pow256((s.len() - 1) as nat),
        {}
    }
}

/// Sixteen bytes fit a `u128`.
proof fn lemma_pow256_16()
    ensures
        pow256(16) == 0x100000000000000000000000000000000,
{
    reveal_with_fuel(pow256, 17);
}

/// Reads `nbytes` big-endian bytes starting at `start`.
fn read_be(d: &[u8], start: usize, nbytes: usize) -> (v: u128)
    requires
        nbytes <= 16,
        start + nbytes <= d@.len(),
    ensures
        v == be_nat(d@.subrange(start as int, start + nbytes)),
{
    let dlen = d.len();
    let mut v: u128 = 0;
    let mut j: usize = 0;
    proof {
        assert(d@.subrange(start as int, start as int) =~= Seq::<u8>::empty());
    }
    while j < nbytes
        invariant
            nbytes <= 16,
            start + nbytes <= d@.len(),
            d@.len() == dlen,
            j <= nbytes,
            v == be_nat(d@.subrange(start as int, start + j)),
            v < pow256(j as nat),
        decreases nbytes - j,
    {
        let b = d[start + j];
        proof {
            lemma_pow256_le((j + 1) as nat, 16);
            lemma_pow256_16();
            assert(v * 256 + b < pow256((j + 1) as nat)) by (nonlinear_arith)
                requires
                    v < pow256(j as nat),
                    b < 256,
                    pow256((j + 1) as nat) == 256 * pow256(j as nat),
            {}
        }
        v = v * 256 + (b as u128);
        j = j + 1;
        proof {
            assert(d@.subrange(start as int, start + j).drop_last() =~= d@.subrange(
                start as int,
                start + j - 1,
            ));
            assert(d@.subrange(start as int, start + j).last() == d@[start + j - 1]);
        }
    }
    v
}

/// Reads the integer in head slot `slot`, refusing one that does not fit
/// the store's signed 64-bit columns.
pub fn read_uint_i64(d: &[u8], slot: usize) -> (r: Result<i64, CustomError>)
    requires
        32 * slot + 32 <= d@.len(),
    ensures
        fits_i64(uint_at(d@, slot as int)) ==> r == Result::<i64, CustomError>::Ok(
            uint_at(d@, slot as int) as i64,
        ),
        !fits_i64(uint_at(d@, slot as int)) ==> r == Result::<i64, CustomError>::Err(
            CustomError::InvalidAbiString,
        ),
    {
    let dlen = d.len();
    let base = 32 * slot;
    let mut j: usize = 0;
    while j < 16
        invariant
            32 * slot + 32 <= d@.len(),
            d@.len() == dlen,
            base == 32 * slot,
            j <= 16,
            forall|k: int| 0 <= k < j ==> word(d@, slot as int)[k] == 0,
        decreases 16 - j,
    {
        if d[base + j] != 0 {
            proof {
                let w = word(d@, slot as int);
                assert(w[j as int] == d@[base + j]);
                assert(be_nat(w) >= pow256((31 - j) as nat)) by {
                    lemma_be_nat_lower(w, j as int);
                }
                lemma_pow256_le(16, (31 - j) as nat);
                lemma_pow256_16();
            }
            return Result::Err(CustomError::InvalidAbiString);
        }
        proof {
            assert(word(d@, slot as int)[j as int] == d@[base + j]);
        }
        j = j + 1;
    }
    let v = read_be(d, base + 16, 16);
    proof {
        let w = word(d@, slot as int);
        assert(d@.subrange(base + 16, base + 32) =~= w.subrange(16, 32));
        lemma_be_nat_skip_zeros(w, 16);
    }
    if v <= 0x7fffffffffffffff as u128 {
        Result::Ok(v as i64)
    } else {
        Result::Err(CustomError::InvalidAbiString)
    }
}

/// A non-zero byte anywhere puts the value at or above its weight.
proof fn lemma_be_nat_lower(s: Seq<u8>, j: int)
    requires
        0 <= j < s.len(),
        s[j] >= 1,
    ensures
        be_nat(s) >= pow256((s.len() - 1 - j) as nat),
    decreases s.len(),
{
    if j == s.len() - 1 {
        assert(be_nat(s) == be_nat(s.drop_last()) * 256 + s.last());
    } else {
        lemma_be_nat_lower(s.drop_last(), j);
        assert(be_nat(s) == be_nat(s.drop_last()) * 256 + s.last());
        assert(be_nat(s.drop_last()) * 256 >= pow256((s.len() - 1 - j) as nat)) by (
        nonlinear_arith)
            requires
                be_nat(s.drop_last()) >= pow256((s.len() - 2 - j) as nat),
                pow256((s.len() - 1 - j) as nat) == 256 * pow256((s.len() - 2 - j) as nat),
        {}
    }
}

/// When the first `k` bytes are zero the value is the value of the rest.
proof fn lemma_be_nat_skip_zeros(s: Seq<u8>, k: int)
    requires
        0 <= k <= s.len(),
        forall|i: int| 0 <= i < k ==> s[i] == 0,
    ensures
        be_nat(s) == be_nat(s.subrange(k, s.len() as int)),
    decreases s.len(),
{
    if s.len() == 0 || k == s.len() {
        lemma_be_nat_zeros(s);
        assert(be_nat(s.subrange(k, s.len() as int)) == be_nat(s) || k == s.len());
        if k == s.len() {
            assert(s.subrange(k, s.len() as int) =~= Seq::<u8>::empty());
            lemma_be_nat_zeros(s);
        }
    } else {
        lemma_be_nat_skip_zeros(s.drop_last(), k);
        assert(s.drop_last().subrange(k, s.drop_last().len() as int) =~= s.subrange(
            k,
            s.len() as int,
        ).drop_last());
        assert(be_nat(s) == be_nat(s.drop_last()) * 256 + s.last());
        assert(be_nat(s.subrange(k, s.len() as int)) == be_nat(
            s.subrange(k, s.len() as int).drop_last(),
        ) * 256 + s.subrange(k, s.len() as int).last());
    }
}

/// Renders the address in head slot `slot` as the store keeps it.
pub fn read_address(d: &[u8], slot: usize) -> (r: String)
    requires
        32 * slot + 32 <= d@.len(),
    ensures
        r@ == addr_at(d@, slot as int),
{
    let dlen = d.len();
    let base = 32 * slot;
    let mut tail: Vec<u8> = Vec::new();
    let mut j: usize = 0;
    while j < 20
        invariant
            32 * slot + 32 <= d@.len(),
            d@.len() == dlen,
            base == 32 * slot,
            j <= 20,
            tail@ =~= word(d@, slot as int).subrange(12, 12 + j),
        decreases 20 - j,
    {
        tail.push(d[base + 12 + j]);
        j = j + 1;
        proof {
            assert(word(d@, slot as int)[12 + j - 1] == d@[base + 12 + j - 1]);
            assert(tail@ =~= word(d@, slot as int).subrange(12, 12 + j));
        }
    }
    proof {
        assert(word(d@, slot as int).subrange(12, 32) =~= tail@);
    }
    let mut out = String::new();
    push_char(&mut out, '0');
    push_char(&mut out, 'x');
    push_hex(&mut out, tail.as_slice());
    proof {
        assert(out@ =~= addr_at(d@, slot as int));
    }
    out
}

/// Reads the ASCII string whose offset stands in head slot `slot`.
pub fn read_string(d: &[u8], slot: usize) -> (r: Result<String, CustomError>)
    requires
        32 * slot + 32 <= d@.len(),
    ensures
        str_ok(d@, slot as int) ==> (match r {
            Result::Ok(s) => s@ == str_chars(d@, slot as int),
            Result::Err(_) => false,
        }),
        !str_ok(d@, slot as int) ==> r == Result::<String, CustomError>::Err(
            CustomError::InvalidAbiString,
        ),
{
    let _dlen = d.len();
    let off64 = match read_uint_i64(d, slot) {
        Result::Ok(v) => v,
        Result::Err(_) => {
            return Result::Err(CustomError::InvalidAbiString);
        },
    };
    if (off64 as u128) + 32 > (d.len() as u128) {
        return Result::Err(CustomError::InvalidAbiString);
    }
    let off = off64 as usize;
    proof {
        assert(off == str_offset(d@, slot as int));
    }
    let n128 = read_be(d, off, 16);
    proof {
        lemma_be_nat_bound(d@.subrange(off as int, off + 16));
        lemma_pow256_16();
    }
    // The length word is 32 bytes; a tail longer than the payload is
    // refused, so only the low 16 bytes can matter. A high half that is
    // not zero is out of range in any case.
    let mut hz: usize = 0;
    let mut high_zero = true;
    while hz < 16
        invariant
            32 * slot + 32 <= d@.len(),
            off + 32 <= d@.len(),
            d@.len() <= usize::MAX,
            off == str_offset(d@, slot as int),
            hz <= 16,
            high_zero == (forall|k: int|
                0 <= k < hz ==> #[trigger] d@.subrange(off as int, off + 32)[k] == 0),
        decreases 16 - hz,
    {
        if d[off + hz] != 0 {
            high_zero = false;
        }
        proof {
            assert(d@.subrange(off as int, off + 32)[hz as int] == d@[off + hz]);
        }
        hz = hz + 1;
    }
    let n_low = read_be(d, off + 16, 16);
    proof {
        let lw = d@.subrange(off as int, off + 32);
        if high_zero {
            assert(d@.subrange(off + 16, off + 32) =~= lw.subrange(16, 32));
            lemma_be_nat_skip_zeros(lw, 16);
            lemma_be_nat_bound(lw.subrange(16, 32));
            lemma_pow256_16();
        }
    }
    if !high_zero {
        proof {
            let lw = d@.subrange(off as int, off + 32);
            let bad = choose|k: int| 0 <= k < 16 && lw[k] != 0;
            lemma_be_nat_lower(lw, bad);
            lemma_pow256_le(16, (31 - bad) as nat);
            lemma_pow256_16();
        }
        return Result::Err(CustomError::InvalidAbiString);
    }
    if n_low > 0x7fffffffffffffff as u128 {
        return Result::Err(CustomError::InvalidAbiString);
    }
    if (off as u128) + 32 + n_low > (d.len() as u128) {
        return Result::Err(CustomError::InvalidAbiString);
    }
    let n = n_low as usize;
    proof {
        assert(n == str_len(d@, slot as int));
    }
    let mut content: Vec<u8> = Vec::new();
    let mut j: usize = 0;
    while j < n
        invariant
            off + 32 + n <= d@.len(),
            d@.len() <= usize::MAX,
            off == str_offset(d@, slot as int),
            n == str_len(d@, slot as int),
            j <= n,
            content@ =~= str_bytes(d@, slot as int).subrange(0, j as int),
        decreases n - j,
    {
        let b = d[off + 32 + j];
        proof {
            assert(str_bytes(d@, slot as int)[j as int] == d@[off + 32 + j]);
        }
        content.push(b);
        j = j + 1;
        proof {
            assert(content@ =~= str_bytes(d@, slot as int).subrange(0, j as int));
        }
    }
    proof {
        assert(content@ =~= str_bytes(d@, slot as int));
    }
    let out = crate::strutil::utf8_lossy(content);
    Result::Ok(out)
}


/// The price an event carries, converted from wei to gwei.
pub open spec fn gwei_at(d: Seq<u8>, slot: int) -> int {
    uint_at(d, slot) as int / 1000000000
}

/// A price word is usable: it fits sixteen bytes and, once in gwei,
/// a signed 64-bit column.
pub open spec fn price_ok(d: Seq<u8>, slot: int) -> bool {
    uint_at(d, slot) < pow256(16) && gwei_at(d, slot) < 0x8000000000000000
}

/// Reads the integer in head slot `slot` up to sixteen bytes wide.
fn read_uint_u128(d: &[u8], slot: usize) -> (r: Result<u128, CustomError>)
    requires
        32 * slot + 32 <= d@.len(),
    ensures
        uint_at(d@, slot as int) < pow256(16) ==> r == Result::<u128, CustomError>::Ok(
            uint_at(d@, slot as int) as u128,
        ),
        uint_at(d@, slot as int) >= pow256(16) ==> r == Result::<u128, CustomError>::Err(
            CustomError::InvalidAbiString,
        ),
{
    let dlen = d.len();
    let base = 32 * slot;
    let mut j: usize = 0;
    while j < 16
        invariant
            32 * slot + 32 <= d@.len(),
            d@.len() == dlen,
            base == 32 * slot,
            j <= 16,
            forall|k: int| 0 <= k < j ==> word(d@, slot as int)[k] == 0,
        decreases 16 - j,
    {
        if d[base + j] != 0 {
            proof {
                let w = word(d@, slot as int);
                assert(w[j as int] == d@[base + j]);
                assert(be_nat(w) >= pow256((31 - j) as nat)) by {
                    lemma_be_nat_lower(w, j as int);
                }
                lemma_pow256_le(16, (31 - j) as nat);
            }
            return Result::Err(CustomError::InvalidAbiString);
        }
        proof {
            assert(word(d@, slot as int)[j as int] == d@[base + j]);
        }
        j = j + 1;
    }
    let v = read_be(d, base + 16, 16);
    proof {
        let w = word(d@, slot as int);
        assert(d@.subrange(base + 16, base + 32) =~= w.subrange(16, 32));
        lemma_be_nat_skip_zeros(w, 16);
        lemma_be_nat_bound(w.subrange(16, 32));
        lemma_pow256_16();
    }
    Result::Ok(v)
}

/// Reads a price word and converts it from wei to gwei.
fn read_price_gwei(d: &[u8], slot: usize) -> (r: Result<i64, CustomError>)
    requires
        32 * slot + 32 <= d@.len(),
    ensures
        price_ok(d@, slot as int) ==> r == Result::<i64, CustomError>::Ok(
            gwei_at(d@, slot as int) as i64,
        ),
        !price_ok(d@, slot as int) ==> r == Result::<i64, CustomError>::Err(
            CustomError::InvalidAbiString,
        ),
{
    let wei = match read_uint_u128(d, slot) {
        Result::Ok(v) => v,
        Result::Err(_) => {
            return Result::Err(CustomError::InvalidAbiString);
        },
    };
    proof {
        lemma_pow256_16();
        assert(wei == uint_at(d@, slot as int));
    }
    let gwei = wei / 1000000000u128;
    proof {
        assert(gwei == gwei_at(d@, slot as int));
    }
    if gwei > 0x7fffffffffffffff as u128 {
        return Result::Err(CustomError::InvalidAbiString);
    }
    Result::Ok(gwei as i64)
}

/// The `UpdateValidBlock` payload is decodable: both integers fit the
/// store's columns and the CID string is well formed.
pub open spec fn uvb_ok(d: Seq<u8>) -> bool {
    &&& d.len() >= 128
    &&& fits_i64(uint_at(d, 1))
    &&& fits_i64(uint_at(d, 2))
    &&& str_ok(d, 3)
}

/// Decodes `UpdateValidBlock(address donor, uint256 end_block,
/// uint256 provider_id, string cid)`.
pub fn decode_update_valid_block(data: &[u8]) -> (r: Result<DecodedEvent, CustomError>)
    ensures
        data@.len() < 96 ==> (r matches Result::Err(CustomError::Inequality(_))),
        data@.len() >= 96 && !uvb_ok(data@) ==> r == Result::<DecodedEvent, CustomError>::Err(
            CustomError::InvalidAbiString,
        ),
        uvb_ok(data@) ==> (r matches Result::Ok(
            DecodedEvent::UpdateValidBlock { donor, end_block, provider_id, cid },
        ) && donor@ == addr_at(data@, 0) && end_block == uint_at(data@, 1) as i64 && provider_id
            == uint_at(data@, 2) as i64 && cid@ == str_chars(data@, 3)),
{
    if data.len() < 96 {
        return Result::Err(
            CustomError::Inequality("update_valid_block: data len < 96".to_owned()),
        );
    }
    if data.len() < 128 {
        return Result::Err(CustomError::InvalidAbiString);
    }
    let donor = read_address(data, 0);
    let end_block = match read_uint_i64(data, 1) {
        Result::Ok(v) => v,
        Result::Err(_) => {
            return Result::Err(CustomError::InvalidAbiString);
        },
    };
    let provider_id = match read_uint_i64(data, 2) {
        Result::Ok(v) => v,
        Result::Err(_) => {
            return Result::Err(CustomError::InvalidAbiString);
        },
    };
    let cid = match read_string(data, 3) {
        Result::Ok(v) => v,
        Result::Err(_) => {
            return Result::Err(CustomError::InvalidAbiString);
        },
    };
    Result::Ok(DecodedEvent::UpdateValidBlock { donor, end_block, provider_id, cid })
}

/// The `AddProvider` payload is decodable.
pub open spec fn add_provider_ok(d: Seq<u8>) -> bool {
    &&& d.len() >= 160
    &&& fits_i64(uint_at(d, 1))
    &&& price_ok(d, 2)
    &&& str_ok(d, 3)
    &&& str_ok(d, 4)
}

/// Decodes `AddProvider(address owner, uint256 provider_id,
/// uint256 price_wei, string api_url, string name)`.
pub fn decode_add_provider(data: &[u8]) -> (r: Result<DecodedEvent, CustomError>)
    ensures
        data@.len() < 96 ==> (r matches Result::Err(CustomError::Inequality(_))),
        data@.len() >= 96 && !add_provider_ok(data@) ==> r == Result::<
            DecodedEvent,
            CustomError,
        >::Err(CustomError::InvalidAbiString),
        add_provider_ok(data@) ==> (r matches Result::Ok(
            DecodedEvent::AddProvider { owner, provider_id, block_price_gwei, api_url, name },
        ) && owner@ == addr_at(data@, 0) && provider_id == uint_at(data@, 1) as i64
            && block_price_gwei == gwei_at(data@, 2) as i64 && api_url@ == str_chars(data@, 3)
            && name@ == str_chars(data@, 4)),
{
    if data.len() < 96 {
        return Result::Err(
            CustomError::Inequality("update_add_provider: data len < 96".to_owned()),
        );
    }
    if data.len() < 160 {
        return Result::Err(CustomError::InvalidAbiString);
    }
    let owner = read_address(data, 0);
    let provider_id = match read_uint_i64(data, 1) {
        Result::Ok(v) => v,
        Result::Err(_) => {
            return Result::Err(CustomError::InvalidAbiString);
        },
    };
    let block_price_gwei = match read_price_gwei(data, 2) {
        Result::Ok(v) => v,
        Result::Err(_) => {
            return Result::Err(CustomError::InvalidAbiString);
        },
    };
    let api_url = match read_string(data, 3) {
        Result::Ok(v) => v,
        Result::Err(_) => {
            return Result::Err(CustomError::InvalidAbiString);
        },
    };
    let name = match read_string(data, 4) {
        Result::Ok(v) => v,
        Result::Err(_) => {
            return Result::Err(CustomError::InvalidAbiString);
        },
    };
    Result::Ok(
        DecodedEvent::AddProvider { owner, provider_id, block_price_gwei, api_url, name },
    )
}

/// The `UpdateProviderBlockPrice` payload is decodable.
pub open spec fn upb_ok(d: Seq<u8>) -> bool {
    &&& d.len() >= 64
    &&& fits_i64(uint_at(d, 0))
    &&& price_ok(d, 1)
}

/// Decodes `UpdateProviderBlockPrice(uint256 provider_id, uint256 price_wei)`.
pub fn decode_update_provider_block_price(data: &[u8]) -> (r: Result<DecodedEvent, CustomError>)
    ensures
        data@.len() < 64 ==> (r matches Result::Err(CustomError::Inequality(_))),
        data@.len() >= 64 && !upb_ok(data@) ==> r == Result::<DecodedEvent, CustomError>::Err(
            CustomError::InvalidAbiString,
        ),
        upb_ok(data@) ==> (r matches Result::Ok(
            DecodedEvent::UpdateProviderBlockPrice { provider_id, block_price_gwei },
        ) && provider_id == uint_at(data@, 0) as i64 && block_price_gwei == gwei_at(
            data@,
            1,
        ) as i64),
{
    if data.len() < 64 {
        return Result::Err(
            CustomError::Inequality("update_provider_block_price: data len < 64".to_owned()),
        );
    }
    let provider_id = match read_uint_i64(data, 0) {
        Result::Ok(v) => v,
        Result::Err(_) => {
            return Result::Err(CustomError::InvalidAbiString);
        },
    };
    let block_price_gwei = match read_price_gwei(data, 1) {
        Result::Ok(v) => v,
        Result::Err(_) => {
            return Result::Err(CustomError::InvalidAbiString);
        },
    };
    Result::Ok(DecodedEvent::UpdateProviderBlockPrice { provider_id, block_price_gwei })
}

/// The `UpdateProviderApiUrl` and `UpdateProviderName` payloads are
/// decodable: a fitting integer and a well-formed string.
pub open spec fn uint_string_ok(d: Seq<u8>) -> bool {
    &&& d.len() >= 64
    &&& fits_i64(uint_at(d, 0))
    &&& str_ok(d, 1)
}

/// Decodes `UpdateProviderApiUrl(uint256 provider_id, string api_url)`.
pub fn decode_update_provider_api_url(data: &[u8]) -> (r: Result<DecodedEvent, CustomError>)
    ensures
        data@.len() < 64 ==> (r matches Result::Err(CustomError::Inequality(_))),
        data@.len() >= 64 && !uint_string_ok(data@) ==> r == Result::<
            DecodedEvent,
            CustomError,
        >::Err(CustomError::InvalidAbiString),
        uint_string_ok(data@) ==> (r matches Result::Ok(
            DecodedEvent::UpdateProviderApiUrl { provider_id, api_url },
        ) && provider_id == uint_at(data@, 0) as i64 && api_url@ == str_chars(data@, 1)),
{
    if data.len() < 64 {
        return Result::Err(
            CustomError::Inequality("update_provider_api_url: data len < 64".to_owned()),
        );
    }
    let provider_id = match read_uint_i64(data, 0) {
        Result::Ok(v) => v,
        Result::Err(_) => {
            return Result::Err(CustomError::InvalidAbiString);
        },
    };
    let api_url = match read_string(data, 1) {
        Result::Ok(v) => v,
        Result::Err(_) => {
            return Result::Err(CustomError::InvalidAbiString);
        },
    };
    Result::Ok(DecodedEvent::UpdateProviderApiUrl { provider_id, api_url })
}

/// The `UpdateProviderAddress` payload is decodable.
pub open spec fn upa_ok(d: Seq<u8>) -> bool {
    &&& d.len() >= 64
    &&& fits_i64(uint_at(d, 0))
}

/// Decodes `UpdateProviderAddress(uint256 provider_id, address owner)`.
pub fn decode_update_provider_owner(data: &[u8]) -> (r: Result<DecodedEvent, CustomError>)
    ensures
        data@.len() < 64 ==> (r matches Result::Err(CustomError::Inequality(_))),
        data@.len() >= 64 && !upa_ok(data@) ==> r == Result::<DecodedEvent, CustomError>::Err(
            CustomError::InvalidAbiString,
        ),
        upa_ok(data@) ==> (r matches Result::Ok(
            DecodedEvent::UpdateProviderAddress { provider_id, owner },
        ) && provider_id == uint_at(data@, 0) as i64 && owner@ == addr_at(data@, 1)),
{
    if data.len() < 64 {
        return Result::Err(
            CustomError::Inequality("update_provider_owner: data len < 64".to_owned()),
        );
    }
    let provider_id = match read_uint_i64(data, 0) {
        Result::Ok(v) => v,
        Result::Err(_) => {
            return Result::Err(CustomError::InvalidAbiString);
        },
    };
    let owner = read_address(data, 1);
    Result::Ok(DecodedEvent::UpdateProviderAddress { provider_id, owner })
}

/// Decodes `UpdateProviderName(uint256 provider_id, string name)`.
pub fn decode_update_provider_name(data: &[u8]) -> (r: Result<DecodedEvent, CustomError>)
    ensures
        data@.len() < 64 ==> (r matches Result::Err(CustomError::Inequality(_))),
        data@.len() >= 64 && !uint_string_ok(data@) ==> r == Result::<
            DecodedEvent,
            CustomError,
        >::Err(CustomError::InvalidAbiString),
        uint_string_ok(data@) ==> (r matches Result::Ok(
            DecodedEvent::UpdateProviderName { provider_id, name },
        ) && provider_id == uint_at(data@, 0) as i64 && name@ == str_chars(data@, 1)),
{
    if data.len() < 64 {
        return Result::Err(
            CustomError::Inequality("update_provider_name: data len < 64".to_owned()),
        );
    }
    let provider_id = match read_uint_i64(data, 0) {
        Result::Ok(v) => v,
        Result::Err(_) => {
            return Result::Err(CustomError::InvalidAbiString);
        },
    };
    let name = match read_string(data, 1) {
        Result::Ok(v) => v,
        Result::Err(_) => {
            return Result::Err(CustomError::InvalidAbiString);
        },
    };
    Result::Ok(DecodedEvent::UpdateProviderName { provider_id, name })
}

} // verus!
