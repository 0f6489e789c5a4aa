//! Shamir (k, n) threshold sharing of byte strings, block by block, over
//! the prime field.

use crate::codec::{fresh_bytes32, le_bytes, le_value_at, read_u64_le, u64_le_bytes};
use crate::field::{be_bytes, be_limb, be_value, lemma_bytes_round_trip, prime, FieldElement};
use vstd::arithmetic::div_mod::{lemma_fundamental_div_mod_converse, lemma_small_mod};
use vstd::arithmetic::power::pow;
use vstd::prelude::*;

verus! {

/// How many bytes of the secret one block carries.
pub const BLOCK_BYTES: usize = 31;

/// Why sharing or reconstruction failed.
#[derive(Clone, Copy, Debug, PartialEq, Eq, Structural)]
pub enum ShamirError {
    /// The threshold is not within `1 <= k <= n <= 255`.
    InvalidThreshold,
    /// Fewer shares than the threshold.
    InsufficientShares,
    /// Two shares carry the same evaluation point.
    DuplicateX,
    /// The shares do not belong together.
    Corrupt,
    /// The operating system's random source failed.
    NoRandomness,
}

/// One of the `n` pieces of a secret: the polynomials of all blocks
/// evaluated at the point `x`.
#[derive(Clone, Debug, PartialEq, Eq)]
pub struct Share {
    /// The evaluation point, from 1 to `n`.
    pub x: u8,
    /// The length of the secret in bytes.
    pub secret_len: u64,
    /// For each block, the value of its polynomial at `x`, as 32 bytes,
    /// most significant first.
    pub blocks: Vec<[u8; 32]>,
}

/// The blocks of a share laid end to end.
pub open spec fn flattened(blocks: Seq<[u8; 32]>) -> Seq<u8> {
    Seq::new(32 * blocks.len(), |p: int| blocks[p / 32]@[p % 32])
}

/// The wire form of a share: the point; the number of blocks and the
/// secret's length, eight bytes each, least significant first; then the
/// blocks.
pub open spec fn wire_form(share: Share) -> Seq<u8> {
    seq![share.x] + le_bytes(share.blocks@.len(), 8) + le_bytes(share.secret_len as nat, 8)
        + flattened(share.blocks@)
}

/// Whether bytes are the wire form of some share: a header of 17 bytes
/// and as many blocks of 32 bytes as the header says.
pub open spec fn is_wire_form(bytes: Seq<u8>) -> bool {
    bytes.len() >= 17 && bytes.len() - 17 == 32 * le_value_at(bytes, 1)
}

/// Whether `share` is what the wire form `bytes` holds.
pub open spec fn holds_share(bytes: Seq<u8>, share: Share) -> bool {
    &&& share.x == bytes[0]
    &&& share.blocks@.len() == le_value_at(bytes, 1)
    &&& share.secret_len == le_value_at(bytes, 9)
    &&& forall|j: int|
        0 <= j < share.blocks@.len() ==> (#[trigger] share.blocks@[j])@ == bytes.subrange(
            17 + 32 * j,
            17 + 32 * j + 32,
        )
}

/// The wire form of a share reads back as that share.
pub proof fn lemma_wire_round_trip(share: Share)
    requires
        share.blocks@.len() <= u64::MAX,
    ensures
        is_wire_form(wire_form(share)),
        holds_share(wire_form(share), share),
{
    let w = wire_form(share);
    let count = le_bytes(share.blocks@.len(), 8);
    let len = le_bytes(share.secret_len as nat, 8);
    reveal_with_fuel(le_bytes, 9);
    assert(count.len() == 8 && len.len() == 8);
    assert(w.len() == 17 + 32 * share.blocks@.len());
    assert forall|i: int| 0 <= i < 8 implies w[1 + i] == count[i] && w[9 + i] == len[i] by {}
    assert(le_value_at(w, 1) == share.blocks@.len());
    assert(le_value_at(w, 9) == share.secret_len);
    assert forall|j: int| 0 <= j < share.blocks@.len() implies (#[trigger] share.blocks@[j])@
        == w.subrange(17 + 32 * j, 17 + 32 * j + 32) by {
        let piece = w.subrange(17 + 32 * j, 17 + 32 * j + 32);
        assert forall|i: int| 0 <= i < 32 implies piece[i] == share.blocks@[j]@[i] by {
            assert(piece[i] == flattened(share.blocks@)[32 * j + i]);
            assert((32 * j + i) / 32 == j && (32 * j + i) % 32 == i);
        }
        assert(share.blocks@[j]@ =~= piece);
    }
}

impl Share {
    /// Writes the share in its wire form.
    pub fn to_bytes(&self) -> (bytes: Vec<u8>)
        ensures
            bytes@ == wire_form(*self),
    {
        let mut bytes: Vec<u8> = Vec::new();
        bytes.push(self.x);
        let count = u64_le_bytes(self.blocks.len() as u64);
        bytes.extend_from_slice(count.as_slice());
        let len = u64_le_bytes(self.secret_len);
        bytes.extend_from_slice(len.as_slice());
        let ghost header = bytes@;
        assert(header =~= seq![self.x] + le_bytes(self.blocks@.len(), 8) + le_bytes(
            self.secret_len as nat,
            8,
        ));
        let mut j: usize = 0;
        assert(flattened(self.blocks@.take(0)) =~= Seq::<u8>::empty());
        assert(header + Seq::<u8>::empty() =~= header);
        while j < self.blocks.len()
            invariant
                0 <= j <= self.blocks@.len(),
                bytes@ == header + flattened(self.blocks@.take(j as int)),
            decreases self.blocks@.len() - j,
        {
            let ghost before = flattened(self.blocks@.take(j as int));
            bytes.extend_from_slice(self.blocks[j].as_slice());
            proof {
                let after = flattened(self.blocks@.take(j + 1));
                assert forall|p: int| 0 <= p < after.len() implies after[p] == (before
                    + self.blocks@[j as int]@)[p] by {
                    if p < 32 * j {
                        assert(p / 32 < j);
                    } else {
                        assert(p / 32 == j && p % 32 == p - 32 * j);
                    }
                }
                assert(after =~= before + self.blocks@[j as int]@);
                assert(bytes@ =~= header + after);
            }
            j = j + 1;
        }
        assert(self.blocks@.take(self.blocks@.len() as int) =~= self.blocks@);
        bytes
    }

    /// Reads a share from its wire form. Bytes that are no wire form are
    /// corrupt.
    pub fn from_bytes(bytes: &[u8]) -> (r: Result<Share, ShamirError>)
        ensures
            r is Ok <==> is_wire_form(bytes@),
            r is Err ==> r.unwrap_err() == ShamirError::Corrupt,
            r is Ok ==> holds_share(bytes@, r.unwrap()),
    {
        let total = bytes.len();
        if total < 17 {
            return Err(ShamirError::Corrupt);
        }
        let count = read_u64_le(bytes, 1);
        let secret_len = read_u64_le(bytes, 9);
        let rest: usize = total - 17;
        if rest % 32 != 0 || (rest / 32) as u64 != count {
            return Err(ShamirError::Corrupt);
        }
        let mut blocks: Vec<[u8; 32]> = Vec::new();
        let mut j: usize = 0;
        while j < rest / 32
            invariant
                0 <= j <= rest / 32,
                total == bytes@.len(),
                rest == total - 17,
                rest % 32 == 0,
                blocks@.len() == j,
                forall|m: int|
                    0 <= m < j ==> (#[trigger] blocks@[m])@ == bytes@.subrange(
                        17 + 32 * m,
                        17 + 32 * m + 32,
                    ),
            decreases rest / 32 - j,
        {
            let start: usize = 17 + 32 * j;
            let mut block = [0u8; 32];
            let mut i: usize = 0;
            while i < 32
                invariant
                    0 <= i <= 32,
                    total == bytes@.len(),
                    start + 32 <= total,
                    forall|m: int| 0 <= m < i ==> block@[m] == bytes@[start + m],
                decreases 32 - i,
            {
                block[i] = bytes[start + i];
                i = i + 1;
            }
            assert(block@ =~= bytes@.subrange(17 + 32 * j, 17 + 32 * j + 32));
            blocks.push(block);
            j = j + 1;
        }
        Ok(Share { x: bytes[0], secret_len, blocks })
    }
}

/// The number of blocks of a secret: one for every 31 bytes begun.
pub open spec fn block_count(len: int) -> int {
    (len + 30) / 31
}

/// Block `j` of a secret as 32 bytes: one zero byte, then the block's 31
/// bytes of the secret, with zeros after the secret's end.
pub open spec fn block_bytes(secret: Seq<u8>, j: int) -> Seq<u8> {
    Seq::new(
        32,
        |i: int|
            if i >= 1 && 31 * j + i - 1 < secret.len() {
                secret[31 * j + i - 1]
            } else {
                0u8
            },
    )
}

/// Block `j` of a secret as a field element.
pub open spec fn block_value(secret: Seq<u8>, j: int) -> int {
    be_value(block_bytes(secret, j)) % prime()
}

/// The values of a vector of field elements.
pub open spec fn values(elements: Seq<FieldElement>) -> Seq<int> {
    Seq::new(elements.len(), |i: int| elements[i]@)
}

/// Whether all elements of a vector are reduced.
pub open spec fn all_reduced(elements: Seq<FieldElement>) -> bool {
    forall|i: int| 0 <= i < elements.len() ==> (#[trigger] elements[i]).wf()
}

/// The value at `x` of the polynomial with the given coefficients, the
/// constant term first.
pub open spec fn eval_poly(coefficients: Seq<int>, x: int) -> int
    decreases coefficients.len(),
{
    if coefficients.len() == 0 {
        0
    } else {
        ((eval_poly(coefficients.drop_first(), x) * x) % prime() + coefficients[0]) % prime()
    }
}

/// The inverse of a non-zero field element: its power to the prime less
/// two.
pub open spec fn inverse_of(v: int) -> int {
    pow(v, (prime() - 2) as nat) % prime()
}

/// The Lagrange basis of point `i` at zero, over the first `m` points:
/// the product of `x_j / (x_j - x_i)` over all `j < m` other than `i`.
pub open spec fn basis_upto(xs: Seq<int>, i: int, m: nat) -> int
    decreases m,
{
    if m == 0 {
        1
    } else {
        let before = basis_upto(xs, i, (m - 1) as nat);
        if m - 1 == i {
            before
        } else {
            (before * ((xs[m - 1] * inverse_of((xs[m - 1] + prime() - xs[i]) % prime()))
                % prime())) % prime()
        }
    }
}

/// The value at zero of the polynomial through the first `t` points,
/// by Lagrange interpolation over all points given: the sum of
/// `y_i * basis_i`.
pub open spec fn lagrange_upto(xs: Seq<int>, ys: Seq<int>, t: nat) -> int
    decreases t,
{
    if t == 0 {
        0
    } else {
        (lagrange_upto(xs, ys, (t - 1) as nat) + (ys[t - 1] * basis_upto(
            xs,
            t - 1,
            xs.len(),
        )) % prime()) % prime()
    }
}

/// Whether the first `k` values are pairwise different.
pub open spec fn pairwise_distinct(xs: Seq<int>, k: int) -> bool {
    forall|a: int, b: int| 0 <= a < b < k ==> xs[a] != xs[b]
}

/// Reads block `j` of a secret.
pub fn read_block(secret: &[u8], j: usize) -> (r: FieldElement)
    requires
        31 * j < secret@.len(),
    ensures
        r.wf(),
        r@ == block_value(secret@, j as int),
{
    let mut bytes = [0u8; 32];
    let total = secret.len();
    let start: usize = 31 * j;
    let mut i: usize = 1;
    while i < 32
        invariant
            1 <= i <= 32,
            start == 31 * j,
            total == secret@.len(),
            start < total,
            forall|m: int| 0 <= m < i ==> bytes@[m] == block_bytes(secret@, j as int)[m],
            forall|m: int| i <= m < 32 ==> bytes@[m] == 0,
        decreases 32 - i,
    {
        if i - 1 < total - start {
            bytes[i] = secret[start + (i - 1)];
        }
        i = i + 1;
    }
    assert(bytes@ =~= block_bytes(secret@, j as int));
    FieldElement::from_bytes_be(&bytes)
}

/// Evaluates at `x` the polynomial with constant term `constant` and the
/// further coefficients given, lowest degree first.
pub fn evaluate(constant: &FieldElement, higher: &Vec<FieldElement>, x: &FieldElement) -> (r:
    FieldElement)
    requires
        constant.wf(),
        x.wf(),
        all_reduced(higher@),
    ensures
        r.wf(),
        r@ == eval_poly(seq![constant@] + values(higher@), x@),
{
    let ghost all = seq![constant@] + values(higher@);
    let mut acc = FieldElement::zero();
    let mut i: usize = higher.len();
    assert(values(higher@).subrange(i as int, higher@.len() as int) =~= Seq::<int>::empty());
    while i > 0
        invariant
            0 <= i <= higher@.len(),
            acc.wf(),
            x.wf(),
            all_reduced(higher@),
            acc@ == eval_poly(values(higher@).subrange(i as int, higher@.len() as int), x@),
        decreases i,
    {
        i = i - 1;
        let ghost tail = values(higher@).subrange(i as int, higher@.len() as int);
        assert(tail.drop_first() =~= values(higher@).subrange(i + 1, higher@.len() as int));
        assert(tail[0] == higher@[i as int]@);
        assert(higher@[i as int].wf());
        acc = acc.mul(x).add(&higher[i]);
    }
    assert(values(higher@).subrange(0, higher@.len() as int) =~= values(higher@));
    assert(all.drop_first() =~= values(higher@));
    acc.mul(x).add(constant)
}

/// The Lagrange basis of point `i` at zero.
pub fn basis_at_zero(xs: &Vec<FieldElement>, i: usize) -> (r: FieldElement)
    requires
        i < xs@.len(),
        all_reduced(xs@),
        pairwise_distinct(values(xs@), xs@.len() as int),
    ensures
        r.wf(),
        r@ == basis_upto(values(xs@), i as int, xs@.len()),
{
    let mut acc = FieldElement::one();
    let mut m: usize = 0;
    while m < xs.len()
        invariant
            0 <= m <= xs@.len(),
            i < xs@.len(),
            all_reduced(xs@),
            pairwise_distinct(values(xs@), xs@.len() as int),
            acc.wf(),
            acc@ == basis_upto(values(xs@), i as int, m as nat),
        decreases xs@.len() - m,
    {
        if m != i {
            assert(xs@[m as int].wf() && xs@[i as int].wf());
            let difference = xs[m].sub(&xs[i]);
            proof {
                let a = xs@[m as int]@;
                let b = xs@[i as int]@;
                assert(a != b) by {
                    if m < i {
                        assert(values(xs@)[m as int] != values(xs@)[i as int]);
                    } else {
                        assert(values(xs@)[i as int] != values(xs@)[m as int]);
                    }
                }
                if a + prime() - b < prime() {
                    lemma_small_mod((a + prime() - b) as nat, prime() as nat);
                } else {
                    lemma_fundamental_div_mod_converse(a + prime() - b, prime(), 1, a - b);
                }
                assert(difference@ != 0);
            }
            let ratio = match xs[m].div(&difference) {
                Ok(ratio) => ratio,
                Err(_) => FieldElement::zero(),
            };
            acc = acc.mul(&ratio);
        }
        m = m + 1;
    }
    acc
}

/// The Lagrange bases at zero of all points.
pub fn bases_at_zero(xs: &Vec<FieldElement>) -> (bases: Vec<FieldElement>)
    requires
        all_reduced(xs@),
        pairwise_distinct(values(xs@), xs@.len() as int),
    ensures
        bases@.len() == xs@.len(),
        all_reduced(bases@),
        forall|i: int|
            0 <= i < bases@.len() ==> (#[trigger] bases@[i])@ == basis_upto(
                values(xs@),
                i,
                xs@.len(),
            ),
{
    let mut bases: Vec<FieldElement> = Vec::new();
    let mut i: usize = 0;
    while i < xs.len()
        invariant
            0 <= i <= xs@.len(),
            all_reduced(xs@),
            pairwise_distinct(values(xs@), xs@.len() as int),
            bases@.len() == i,
            all_reduced(bases@),
            forall|m: int|
                0 <= m < i ==> (#[trigger] bases@[m])@ == basis_upto(values(xs@), m, xs@.len()),
        decreases xs@.len() - i,
    {
        bases.push(basis_at_zero(xs, i));
        i = i + 1;
    }
    bases
}

/// The sum of `y_i * basis_i`: the value at zero of the polynomial
/// through the points `(xs, ys)`, where `bases` are the bases of `xs`.
fn combine(bases: &Vec<FieldElement>, ys: &Vec<FieldElement>, Ghost(xs): Ghost<Seq<int>>) -> (r:
    FieldElement)
    requires
        bases@.len() == ys@.len(),
        xs.len() == ys@.len(),
        all_reduced(bases@),
        all_reduced(ys@),
        forall|i: int|
            0 <= i < bases@.len() ==> (#[trigger] bases@[i])@ == basis_upto(xs, i, xs.len()),
    ensures
        r.wf(),
        r@ == lagrange_upto(xs, values(ys@), xs.len()),
{
    let mut acc = FieldElement::zero();
    let mut t: usize = 0;
    while t < ys.len()
        invariant
            0 <= t <= ys@.len(),
            bases@.len() == ys@.len(),
            xs.len() == ys@.len(),
            all_reduced(bases@),
            all_reduced(ys@),
            forall|i: int|
                0 <= i < bases@.len() ==> (#[trigger] bases@[i])@ == basis_upto(xs, i, xs.len()),
            acc.wf(),
            acc@ == lagrange_upto(xs, values(ys@), t as nat),
        decreases ys@.len() - t,
    {
        assert(ys@[t as int].wf() && bases@[t as int].wf());
        let term = ys[t].mul(&bases[t]);
        acc = acc.add(&term);
        t = t + 1;
    }
    acc
}

/// The value at zero of the polynomial through the points `(xs, ys)`.
pub fn interpolate_at_zero(xs: &Vec<FieldElement>, ys: &Vec<FieldElement>) -> (r: FieldElement)
    requires
        xs@.len() == ys@.len(),
        all_reduced(xs@),
        all_reduced(ys@),
        pairwise_distinct(values(xs@), xs@.len() as int),
    ensures
        r.wf(),
        r@ == lagrange_upto(values(xs@), values(ys@), xs@.len()),
{
    let bases = bases_at_zero(xs);
    combine(&bases, ys, Ghost(values(xs@)))
}

/// Whether `share` holds, for every block of the secret, the block's
/// polynomial evaluated at `x`: the polynomial whose constant term is the
/// block and whose further coefficients are `coefficients[j]`.
pub open spec fn is_share_of(
    share: Share,
    secret: Seq<u8>,
    coefficients: Seq<Vec<FieldElement>>,
    x: int,
) -> bool {
    &&& share.x == x
    &&& share.secret_len == secret.len()
    &&& share.blocks@.len() == block_count(secret.len() as int)
    &&& forall|j: int|
        0 <= j < share.blocks@.len() ==> (#[trigger] share.blocks@[j])@ == be_bytes(
            eval_poly(seq![block_value(secret, j)] + values(coefficients[j]@), x),
        )
}

/// Whether there is one list of `k - 1` reduced coefficients for each
/// block of a secret of `len` bytes.
pub open spec fn coefficients_fit(coefficients: Seq<Vec<FieldElement>>, len: int, k: int) -> bool {
    &&& coefficients.len() == block_count(len)
    &&& forall|j: int|
        0 <= j < coefficients.len() ==> (#[trigger] coefficients[j])@.len() == k - 1
            && all_reduced(coefficients[j]@)
}

/// Makes the share at point `x`.
pub fn share_at(secret: &[u8], coefficients: &Vec<Vec<FieldElement>>, x: u8) -> (share: Share)
    requires
        secret@.len() + 30 <= usize::MAX,
        coefficients@.len() == block_count(secret@.len() as int),
        forall|j: int| 0 <= j < coefficients@.len() ==> all_reduced((#[trigger] coefficients@[j])@),
    ensures
        is_share_of(share, secret@, coefficients@, x as int),
{
    let at = FieldElement::from_u64(x as u64);
    let count: usize = (secret.len() + 30) / 31;
    let mut blocks: Vec<[u8; 32]> = Vec::new();
    let mut j: usize = 0;
    while j < count
        invariant
            0 <= j <= count,
            count == block_count(secret@.len() as int),
            coefficients@.len() == count,
            forall|m: int|
                0 <= m < coefficients@.len() ==> all_reduced((#[trigger] coefficients@[m])@),
            at.wf(),
            at@ == x,
            blocks@.len() == j,
            forall|m: int|
                0 <= m < j ==> (#[trigger] blocks@[m])@ == be_bytes(
                    eval_poly(seq![block_value(secret@, m)] + values(coefficients@[m]@), x as int),
                ),
        decreases count - j,
    {
        let constant = read_block(secret, j);
        assert(all_reduced(coefficients@[j as int]@));
        let y = evaluate(&constant, &coefficients[j], &at);
        blocks.push(y.to_bytes_be());
        j = j + 1;
    }
    Share { x, secret_len: secret.len() as u64, blocks }
}

/// Splits a secret into `n` shares of threshold `k`, with the given
/// further coefficients for each block's polynomial. Share `i` is the
/// evaluation at `x = i + 1`.
pub fn split_with(secret: &[u8], k: usize, n: usize, coefficients: &Vec<Vec<FieldElement>>) -> (r:
    Result<Vec<Share>, ShamirError>)
    requires
        secret@.len() + 30 <= usize::MAX,
        1 <= k <= n <= 255 ==> coefficients_fit(coefficients@, secret@.len() as int, k as int),
    ensures
        r is Ok <==> 1 <= k <= n <= 255,
        r is Err ==> r == Err::<Vec<Share>, ShamirError>(ShamirError::InvalidThreshold),
        r is Ok ==> r.unwrap()@.len() == n && forall|i: int|
            0 <= i < n ==> is_share_of(#[trigger] r.unwrap()@[i], secret@, coefficients@, i + 1),
{
    if k < 1 || k > n || n > 255 {
        return Err(ShamirError::InvalidThreshold);
    }
    let mut shares: Vec<Share> = Vec::new();
    let mut i: usize = 0;
    while i < n
        invariant
            0 <= i <= n <= 255,
            secret@.len() + 30 <= usize::MAX,
            coefficients_fit(coefficients@, secret@.len() as int, k as int),
            shares@.len() == i,
            forall|m: int|
                0 <= m < i ==> is_share_of(#[trigger] shares@[m], secret@, coefficients@, m + 1),
        decreases n - i,
    {
        let share = share_at(secret, coefficients, (i + 1) as u8);
        shares.push(share);
        i = i + 1;
    }
    Ok(shares)
}

/// The evaluation points of the first `k` shares.
pub open spec fn points_of(shares: Seq<Share>, k: int) -> Seq<int> {
    Seq::new(k as nat, |i: int| shares[i].x as int)
}

/// The values of block `j` in the first `k` shares, reduced.
pub open spec fn block_points(shares: Seq<Share>, k: int, j: int) -> Seq<int> {
    Seq::new(k as nat, |i: int| be_value(shares[i].blocks@[j]@) % prime())
}

/// Whether the first `k` shares belong together: no point is zero, all
/// agree on the secret's length and the number of blocks, and that
/// number is the number of blocks of a secret of that length.
pub open spec fn belong_together(shares: Seq<Share>, k: int) -> bool {
    &&& forall|i: int|
        0 <= i < k ==> (#[trigger] shares[i]).x != 0 && shares[i].secret_len
            == shares[0].secret_len && shares[i].blocks@.len() == shares[0].blocks@.len()
    &&& shares[0].blocks@.len() == block_count(shares[0].secret_len as int)
}

/// The constant term of block `j`, interpolated from the first `k` shares.
pub open spec fn recovered_block(shares: Seq<Share>, k: int, j: int) -> int {
    lagrange_upto(points_of(shares, k), block_points(shares, k, j), k as nat)
}

/// The secret that the first `k` shares give: of each block's constant
/// term the 31 bytes after the leading one, one block after another, cut
/// to the secret's length.
pub open spec fn recovered(shares: Seq<Share>, k: int) -> Seq<u8> {
    Seq::new(
        shares[0].secret_len as nat,
        |p: int| be_bytes(recovered_block(shares, k, p / 31))[1 + p % 31],
    )
}

/// What reconstruction from the first `k` of the shares gives: too few
/// shares are insufficient; a repeated point is a duplicate; shares that
/// do not belong together are corrupt; else the secret.
pub open spec fn reconstruct_outcome(shares: Seq<Share>, k: int) -> Result<Seq<u8>, ShamirError> {
    if k < 1 || shares.len() < k {
        Err(ShamirError::InsufficientShares)
    } else if !pairwise_distinct(points_of(shares, k), k) {
        Err(ShamirError::DuplicateX)
    } else if !belong_together(shares, k) {
        Err(ShamirError::Corrupt)
    } else {
        Ok(recovered(shares, k))
    }
}

/// With threshold one a block's share is the block itself, and
/// interpolating from that one share gives the block back.
pub proof fn lemma_single_share_block(
    secret: Seq<u8>,
    coefficients: Seq<Vec<FieldElement>>,
    share: Share,
    x: int,
    j: int,
)
    requires
        coefficients_fit(coefficients, secret.len() as int, 1),
        is_share_of(share, secret, coefficients, x),
        0 <= j < block_count(secret.len() as int),
    ensures
        be_bytes(recovered_block(seq![share], 1, j)) == block_bytes(secret, j),
{
    let bb = block_bytes(secret, j);
    let bv = block_value(secret, j);
    assert(bb[0] == 0);
    assert(0 <= be_limb(bb, 0) < 0x100_0000_0000_0000);
    assert(0 <= be_limb(bb, 8) < 0x1_0000_0000_0000_0000);
    assert(0 <= be_limb(bb, 16) < 0x1_0000_0000_0000_0000);
    assert(0 <= be_limb(bb, 24) < 0x1_0000_0000_0000_0000);
    assert(0 <= be_value(bb) < prime());
    lemma_small_mod(be_value(bb) as nat, prime() as nat);
    assert(bv == be_value(bb));
    lemma_bytes_round_trip(bb, be_bytes(bv));
    assert(be_bytes(bv) == bb);

    let poly = seq![bv] + values(coefficients[j]@);
    assert(coefficients[j]@.len() == 0);
    assert(poly =~= seq![bv]);
    assert(poly.drop_first() =~= Seq::<int>::empty());
    assert(eval_poly(poly.drop_first(), x) == 0);
    assert(0 * x == 0);
    lemma_small_mod(0, prime() as nat);
    assert(eval_poly(poly, x) == bv);
    assert(share.blocks@[j]@ == bb);

    let shares = seq![share];
    let xs = points_of(shares, 1);
    let ys = block_points(shares, 1, j);
    assert(ys[0] == bv);
    assert(basis_upto(xs, 0, 0) == 1);
    assert(basis_upto(xs, 0, 1) == 1);
    assert(lagrange_upto(xs, ys, 0) == 0);
    assert(bv * 1 == bv);
    assert(lagrange_upto(xs, ys, 1) == bv);
}

/// With threshold one, each share alone gives the secret back.
pub proof fn lemma_threshold_one_round_trip(
    secret: Seq<u8>,
    coefficients: Seq<Vec<FieldElement>>,
    share: Share,
    x: int,
)
    requires
        1 <= x <= 255,
        coefficients_fit(coefficients, secret.len() as int, 1),
        is_share_of(share, secret, coefficients, x),
    ensures
        reconstruct_outcome(seq![share], 1) == Ok::<Seq<u8>, ShamirError>(secret),
{
    let shares = seq![share];
    assert(belong_together(shares, 1));
    assert(pairwise_distinct(points_of(shares, 1), 1));
    let got = recovered(shares, 1);
    assert forall|p: int| 0 <= p < secret.len() implies got[p] == secret[p] by {
        let j = p / 31;
        lemma_single_share_block(secret, coefficients, share, x, j);
        assert(block_bytes(secret, j)[1 + p % 31] == secret[p]);
    }
    assert(got =~= secret);
}

/// Whether two of the first `k` shares carry the same point.
pub fn has_duplicate_point(shares: &Vec<Share>, k: usize) -> (dup: bool)
    requires
        k <= shares@.len(),
    ensures
        dup == !pairwise_distinct(points_of(shares@, k as int), k as int),
{
    let ghost xs = points_of(shares@, k as int);
    let mut b: usize = 0;
    while b < k
        invariant
            0 <= b <= k <= shares@.len(),
            xs == points_of(shares@, k as int),
            forall|p: int, q: int| 0 <= p < q < b ==> xs[p] != xs[q],
        decreases k - b,
    {
        let mut a: usize = 0;
        while a < b
            invariant
                0 <= a <= b < k <= shares@.len(),
                xs == points_of(shares@, k as int),
                forall|p: int| 0 <= p < a ==> xs[p] != xs[b as int],
            decreases b - a,
        {
            if shares[a].x == shares[b].x {
                assert(xs[a as int] == xs[b as int]);
                return true;
            }
            a = a + 1;
        }
        b = b + 1;
    }
    false
}

/// Whether the first `k` shares belong together.
pub fn belongs_together(shares: &Vec<Share>, k: usize) -> (yes: bool)
    requires
        1 <= k <= shares@.len(),
    ensures
        yes == belong_together(shares@, k as int),
{
    let len: u64 = shares[0].secret_len;
    let count: usize = shares[0].blocks.len();
    let mut i: usize = 0;
    while i < k
        invariant
            0 <= i <= k <= shares@.len(),
            len == shares@[0].secret_len,
            count == shares@[0].blocks@.len(),
            forall|m: int|
                0 <= m < i ==> (#[trigger] shares@[m]).x != 0 && shares@[m].secret_len == len
                    && shares@[m].blocks@.len() == count,
        decreases k - i,
    {
        if shares[i].x == 0 || shares[i].secret_len != len || shares[i].blocks.len() != count {
            return false;
        }
        i = i + 1;
    }
    let needed: u64 = len / 31 + (if len % 31 == 0 {
        0
    } else {
        1
    });
    count as u64 == needed
}

/// The evaluation points of the first `k` shares as field elements.
pub fn points(shares: &Vec<Share>, k: usize) -> (xs: Vec<FieldElement>)
    requires
        k <= shares@.len(),
    ensures
        xs@.len() == k,
        all_reduced(xs@),
        values(xs@) == points_of(shares@, k as int),
{
    let mut xs: Vec<FieldElement> = Vec::new();
    let mut i: usize = 0;
    while i < k
        invariant
            0 <= i <= k <= shares@.len(),
            xs@.len() == i,
            all_reduced(xs@),
            forall|m: int| 0 <= m < i ==> (#[trigger] xs@[m])@ == shares@[m].x,
        decreases k - i,
    {
        xs.push(FieldElement::from_u64(shares[i].x as u64));
        i = i + 1;
    }
    assert(values(xs@) =~= points_of(shares@, k as int));
    xs
}

/// The values of block `j` in the first `k` shares as field elements.
pub fn block_values(shares: &Vec<Share>, k: usize, j: usize) -> (ys: Vec<FieldElement>)
    requires
        k <= shares@.len(),
        forall|i: int| 0 <= i < k ==> j < (#[trigger] shares@[i]).blocks@.len(),
    ensures
        ys@.len() == k,
        all_reduced(ys@),
        values(ys@) == block_points(shares@, k as int, j as int),
{
    let mut ys: Vec<FieldElement> = Vec::new();
    let mut i: usize = 0;
    while i < k
        invariant
            0 <= i <= k <= shares@.len(),
            forall|m: int| 0 <= m < k ==> j < (#[trigger] shares@[m]).blocks@.len(),
            ys@.len() == i,
            all_reduced(ys@),
            forall|m: int|
                0 <= m < i ==> (#[trigger] ys@[m])@ == be_value(shares@[m].blocks@[j as int]@)
                    % prime(),
        decreases k - i,
    {
        assert(j < shares@[i as int].blocks@.len());
        ys.push(FieldElement::from_bytes_be(&shares[i].blocks[j]));
        i = i + 1;
    }
    assert(values(ys@) =~= block_points(shares@, k as int, j as int));
    ys
}

/// Recovers the secret from the first `k` of the given shares.
pub fn reconstruct(shares: &Vec<Share>, k: usize) -> (r: Result<Vec<u8>, ShamirError>)
    ensures
        match reconstruct_outcome(shares@, k as int) {
            Ok(secret) => r is Ok && r.unwrap()@ == secret,
            Err(e) => r == Err::<Vec<u8>, ShamirError>(e),
        },
{
    if k < 1 || shares.len() < k {
        return Err(ShamirError::InsufficientShares);
    }
    if has_duplicate_point(shares, k) {
        return Err(ShamirError::DuplicateX);
    }
    if !belongs_together(shares, k) {
        return Err(ShamirError::Corrupt);
    }
    let xs = points(shares, k);
    let bases = bases_at_zero(&xs);
    let len: u64 = shares[0].secret_len;
    let count: usize = shares[0].blocks.len();
    let ghost want = recovered(shares@, k as int);
    let mut out: Vec<u8> = Vec::new();
    let mut j: usize = 0;
    while j < count
        invariant
            0 <= j <= count,
            1 <= k <= shares@.len(),
            belong_together(shares@, k as int),
            len == shares@[0].secret_len,
            count == shares@[0].blocks@.len(),
            xs@.len() == k,
            values(xs@) == points_of(shares@, k as int),
            bases@.len() == k,
            all_reduced(bases@),
            forall|i: int|
                0 <= i < bases@.len() ==> (#[trigger] bases@[i])@ == basis_upto(
                    values(xs@),
                    i,
                    xs@.len(),
                ),
            want == recovered(shares@, k as int),
            out@.len() == (if 31 * j < len {
                31 * j
            } else {
                len as int
            }),
            forall|p: int| 0 <= p < out@.len() ==> out@[p] == want[p],
        decreases count - j,
    {
        assert forall|i: int| 0 <= i < k implies j < (#[trigger] shares@[i]).blocks@.len() by {}
        let ys = block_values(shares, k, j);
        let value = combine(&bases, &ys, Ghost(values(xs@)));
        let bytes = value.to_bytes_be();
        assert(bytes@ == be_bytes(recovered_block(shares@, k as int, j as int)));
        let mut i: usize = 1;
        while i < 32
            invariant
                1 <= i <= 32,
                j < count,
                shares@.len() >= 1,
                len == shares@[0].secret_len,
                want == recovered(shares@, k as int),
                bytes@ == be_bytes(recovered_block(shares@, k as int, j as int)),
                out@.len() == (if 31 * j + i - 1 < len {
                    31 * j + i - 1
                } else {
                    len as int
                }),
                forall|p: int| 0 <= p < out@.len() ==> out@[p] == want[p],
            decreases 32 - i,
        {
            if (out.len() as u64) < len {
                let ghost p = out@.len() as int;
                assert(p / 31 == j && p % 31 == i - 1);
                out.push(bytes[i]);
            }
            i = i + 1;
        }
        j = j + 1;
    }
    assert(out@ =~= want);
    Ok(out)
}

/// Draws `count` random field elements; `None` where the random source
/// fails. Where none is asked for, nothing is drawn and nothing can fail.
pub fn draw_coefficients(count: usize) -> (r: Option<Vec<FieldElement>>)
    ensures
        count == 0 ==> r is Some,
        r is Some ==> r.unwrap()@.len() == count && all_reduced(r.unwrap()@),
{
    let mut drawn: Vec<FieldElement> = Vec::new();
    let mut i: usize = 0;
    while i < count
        invariant
            0 <= i <= count,
            drawn@.len() == i,
            all_reduced(drawn@),
        decreases count - i,
    {
        match fresh_bytes32() {
            Some(bytes) => drawn.push(FieldElement::from_bytes_be(&bytes)),
            None => {
                return None;
            },
        }
        i = i + 1;
    }
    Some(drawn)
}

/// Splits a secret into `n` shares of which any `k` recover it. The
/// further coefficients of each block's polynomial are drawn from the
/// operating system's random source. A threshold outside
/// `1 <= k <= n <= 255` is refused, and nothing else is; with a valid
/// threshold the only failure is that of the random source, which is not
/// asked where no coefficient is needed: for `k == 1` or an empty secret.
pub fn split(secret: &[u8], k: usize, n: usize) -> (r: Result<Vec<Share>, ShamirError>)
    requires
        secret@.len() + 30 <= usize::MAX,
    ensures
        r == Err::<Vec<Share>, ShamirError>(ShamirError::InvalidThreshold) <==> !(1 <= k <= n
            <= 255),
        1 <= k <= n <= 255 && (k == 1 || secret@.len() == 0) ==> r is Ok,
        r is Err ==> r.unwrap_err() == ShamirError::InvalidThreshold || r.unwrap_err()
            == ShamirError::NoRandomness,
        r is Ok ==> 1 <= k <= n <= 255 && r.unwrap()@.len() == n && exists|
            coefficients: Seq<Vec<FieldElement>>,
        |
            coefficients_fit(coefficients, secret@.len() as int, k as int) && forall|i: int|
                0 <= i < n ==> is_share_of(#[trigger] r.unwrap()@[i], secret@, coefficients, i + 1),
{
    if k < 1 || k > n || n > 255 {
        return Err(ShamirError::InvalidThreshold);
    }
    let count: usize = (secret.len() + 30) / 31;
    let mut coefficients: Vec<Vec<FieldElement>> = Vec::new();
    let mut j: usize = 0;
    while j < count
        invariant
            0 <= j <= count,
            1 <= k <= n <= 255,
            count == (secret@.len() + 30) / 31,
            coefficients@.len() == j,
            forall|m: int|
                0 <= m < j ==> (#[trigger] coefficients@[m])@.len() == k - 1 && all_reduced(
                    coefficients@[m]@,
                ),
        decreases count - j,
    {
        match draw_coefficients(k - 1) {
            Some(drawn) => coefficients.push(drawn),
            None => {
                return Err(ShamirError::NoRandomness);
            },
        }
        j = j + 1;
    }
    let r = split_with(secret, k, n, &coefficients);
    assert(coefficients_fit(coefficients@, secret@.len() as int, k as int));
    r
}

} // verus!
