//! Elements of the Pallas base field.
//!
//! A [`FieldElement`] holds the canonical little-endian byte encoding of a
//! residue modulo [`modulus`]. All arithmetic is carried out by
//! `pasta_curves`; the private functions at the end of this file state what
//! that arithmetic is taken to compute, and nothing in this crate proves it.

use ff::Field;
use ff::PrimeField;
use ff::PrimeFieldBits;
use halo2_proofs::pasta::Fp;
use vstd::arithmetic::power2::lemma2_to64;
use vstd::arithmetic::power2::lemma_pow2_adds;
use vstd::arithmetic::power2::lemma_pow2_unfold;
use vstd::arithmetic::power2::pow2;
use vstd::prelude::*;

verus! {

/// The order of the field: the prime
/// `0x40000000000000000000000000000000224698fc094cf91b992d30ed00000001`.
pub open spec fn modulus() -> nat {
    0x40000000000000000000000000000000224698fc094cf91b992d30ed00000001nat
}

/// Sum of two residues.
pub open spec fn add_mod(a: nat, b: nat) -> nat {
    (a + b) % modulus()
}

/// Difference of two residues.
pub open spec fn sub_mod(a: nat, b: nat) -> nat {
    ((a as int - b as int) % (modulus() as int)) as nat
}

/// Product of two residues.
pub open spec fn mul_mod(a: nat, b: nat) -> nat {
    (a * b) % modulus()
}

/// Additive inverse of a residue.
pub open spec fn neg_mod(a: nat) -> nat {
    sub_mod(0, a)
}

/// `inv` is what the zero test stores beside `a`: the multiplicative inverse
/// of `a`, or zero where `a` has none.
pub open spec fn inverse_or_zero(a: nat, inv: nat) -> bool {
    if a == 0 {
        inv == 0
    } else {
        mul_mod(a, inv) == 1
    }
}

/// Bit `i` of the binary expansion of `v`.
pub open spec fn bit_of(v: nat, i: nat) -> bool {
    (v / pow2(i)) % 2 == 1
}

/// The number that a little-endian byte string denotes.
pub open spec fn le_value(bytes: Seq<u8>) -> nat
    decreases bytes.len(),
{
    if bytes.len() == 0 {
        0
    } else {
        bytes[0] as nat + 256 * le_value(bytes.drop_first())
    }
}

/// The modulus lies between `2^254` and `2^255`.
pub proof fn lemma_modulus_bound()
    ensures
        pow2(254) < modulus() < pow2(255),
        pow2(64) < modulus(),
{
    lemma_pow2_unfold(255);
    lemma2_to64();
    lemma_pow2_adds(64, 64);
    lemma_pow2_adds(128, 64);
    lemma_pow2_adds(192, 63);
    lemma_pow2_adds(32, 31);
    let (a, b, c, d) = (pow2(64), pow2(128), pow2(192), pow2(63));
    assert(pow2(31) == 0x80000000);
    assert(d == 0x8000000000000000) by (nonlinear_arith)
        requires
            d == pow2(32) * pow2(31),
            pow2(32) == 0x100000000,
            pow2(31) == 0x80000000,
    ;
    assert(b == 0x100000000000000000000000000000000) by (nonlinear_arith)
        requires
            b == a * a,
            a == 0x10000000000000000,
    ;
    assert(c == 0x1000000000000000000000000000000000000000000000000) by (nonlinear_arith)
        requires
            c == b * a,
            a == 0x10000000000000000,
            b == 0x100000000000000000000000000000000,
    ;
    assert(c * d == 0x8000000000000000000000000000000000000000000000000000000000000000)
        by (nonlinear_arith)
        requires
            c == 0x1000000000000000000000000000000000000000000000000,
            d == 0x8000000000000000,
    ;
}

/// Byte strings of one length that denote the same number are the same.
pub proof fn lemma_le_value_injective(a: Seq<u8>, b: Seq<u8>)
    requires
        a.len() == b.len(),
        le_value(a) == le_value(b),
    ensures
        a == b,
    decreases a.len(),
{
    if a.len() > 0 {
        lemma_le_value_injective(a.drop_first(), b.drop_first());
        assert(a =~= seq![a[0]] + a.drop_first());
        assert(b =~= seq![b[0]] + b.drop_first());
    } else {
        assert(a =~= b);
    }
}

/// A byte string denotes zero exactly when all its bytes are zero.
pub proof fn lemma_le_value_zero(a: Seq<u8>)
    ensures
        le_value(a) == 0 <==> (forall|i: int| 0 <= i < a.len() ==> a[i] == 0),
    decreases a.len(),
{
    if a.len() > 0 {
        let rest = a.drop_first();
        lemma_le_value_zero(rest);
        if le_value(a) == 0 {
            assert forall|i: int| 0 <= i < a.len() implies a[i] == 0 by {
                if i > 0 {
                    assert(rest[i - 1] == a[i]);
                }
            }
        }
        if forall|i: int| 0 <= i < a.len() ==> a[i] == 0 {
            assert forall|i: int| 0 <= i < rest.len() implies rest[i] == 0 by {
                assert(rest[i] == a[i + 1]);
            }
        }
    }
}

/// An element of the field, kept as its canonical 32-byte little-endian
/// encoding. Its view is the residue it stands for.
#[derive(Clone, Copy, Debug, PartialEq, Eq)]
pub struct FieldElement {
    repr: [u8; 32],
}

impl View for FieldElement {
    type V = nat;

    closed spec fn view(&self) -> nat {
        le_value(self.repr@)
    }
}

impl FieldElement {
    /// The encoding is canonical: it denotes a number below the modulus.
    #[verifier::type_invariant]
    pub closed spec fn canonical(self) -> bool {
        le_value(self.repr@) < modulus()
    }

    /// The bytes that the element is kept as.
    pub closed spec fn bytes(self) -> Seq<u8> {
        self.repr@
    }

    /// Two elements with the same residue are the same element.
    pub proof fn lemma_view_injective(a: FieldElement, b: FieldElement)
        requires
            a@ == b@,
        ensures
            a == b,
    {
        lemma_le_value_injective(a.repr@, b.repr@);
        assert(a.repr =~= b.repr);
    }

    /// The additive identity.
    pub fn zero() -> (r: Self)
        ensures
            r@ == 0,
    {
        fp_from_u64(0)
    }

    /// The multiplicative identity.
    pub fn one() -> (r: Self)
        ensures
            r@ == 1,
    {
        fp_from_u64(1)
    }

    /// The element that a small integer denotes.
    pub fn from_u64(x: u64) -> (r: Self)
        ensures
            r@ == x as nat,
    {
        fp_from_u64(x)
    }

    /// The element with the given canonical encoding, where the bytes denote a
    /// number below the modulus.
    pub fn from_repr(bytes: [u8; 32]) -> (r: Option<Self>)
        ensures
            r is Some <==> le_value(bytes@) < modulus(),
            r matches Some(e) ==> e@ == le_value(bytes@) && e.bytes() == bytes@,
    {
        match fp_from_repr(bytes) {
            Some(e) => {
                proof {
                    lemma_le_value_injective(e.repr@, bytes@);
                }
                Some(e)
            },
            None => None,
        }
    }

    /// The canonical encoding.
    pub fn to_repr(&self) -> (r: [u8; 32])
        ensures
            r@ == self.bytes(),
            le_value(r@) == self@,
            self@ < modulus(),
    {
        proof {
            use_type_invariant(self);
        }
        self.repr
    }

    /// Whether the element is the additive identity.
    pub fn is_zero(&self) -> (r: bool)
        ensures
            r == (self@ == 0),
    {
        let mut i: usize = 0;
        while i < 32
            invariant
                i <= 32,
                forall|j: int| 0 <= j < i ==> self.repr@[j] == 0,
            decreases 32 - i,
        {
            if self.repr[i] != 0 {
                proof {
                    lemma_le_value_zero(self.repr@);
                }
                return false;
            }
            i = i + 1;
        }
        proof {
            lemma_le_value_zero(self.repr@);
        }
        true
    }

    /// Whether two elements stand for the same residue.
    pub fn same(&self, other: &Self) -> (r: bool)
        ensures
            r == (self@ == other@),
    {
        let mut i: usize = 0;
        while i < 32
            invariant
                i <= 32,
                forall|j: int| 0 <= j < i ==> self.repr@[j] == other.repr@[j],
            decreases 32 - i,
        {
            if self.repr[i] != other.repr[i] {
                proof {
                    if self@ == other@ {
                        lemma_le_value_injective(self.repr@, other.repr@);
                    }
                }
                return false;
            }
            i = i + 1;
        }
        assert(self.repr@ =~= other.repr@);
        true
    }

    /// `self + rhs` in the field.
    pub fn plus(&self, rhs: &Self) -> (r: Self)
        ensures
            r@ == add_mod(self@, rhs@),
    {
        proof {
            use_type_invariant(self);
            use_type_invariant(rhs);
        }
        fp_add(self, rhs)
    }

    /// `self - rhs` in the field.
    pub fn minus(&self, rhs: &Self) -> (r: Self)
        ensures
            r@ == sub_mod(self@, rhs@),
    {
        proof {
            use_type_invariant(self);
            use_type_invariant(rhs);
        }
        fp_sub(self, rhs)
    }

    /// `self * rhs` in the field.
    pub fn times(&self, rhs: &Self) -> (r: Self)
        ensures
            r@ == mul_mod(self@, rhs@),
    {
        proof {
            use_type_invariant(self);
            use_type_invariant(rhs);
        }
        fp_mul(self, rhs)
    }

    /// `-self` in the field.
    pub fn negated(&self) -> (r: Self)
        ensures
            r@ == neg_mod(self@),
    {
        proof {
            use_type_invariant(self);
        }
        fp_neg(self)
    }

    /// The multiplicative inverse, which every element but zero has.
    pub fn invert(&self) -> (r: Option<Self>)
        ensures
            r is None <==> self@ == 0,
            r matches Some(x) ==> mul_mod(self@, x@) == 1 && x@ < modulus(),
    {
        proof {
            use_type_invariant(self);
        }
        let r = fp_invert(self);
        proof {
            if let Some(x) = r {
                use_type_invariant(&x);
            }
        }
        r
    }

    /// The multiplicative inverse, with zero standing in where there is none.
    pub fn invert_or_zero(&self) -> (r: Self)
        ensures
            inverse_or_zero(self@, r@),
            r@ < modulus(),
    {
        proof {
            use_type_invariant(self);
        }
        let r = match fp_invert(self) {
            Some(x) => x,
            None => fp_from_u64(0),
        };
        proof {
            use_type_invariant(&r);
        }
        r
    }

    /// The 256 bits of the canonical value, least significant first.
    pub fn to_le_bits(&self) -> (r: Vec<bool>)
        ensures
            r@.len() == 256,
            forall|i: int| 0 <= i < 256 ==> r@[i] == bit_of(self@, i as nat),
            self@ < modulus(),
    {
        proof {
            use_type_invariant(self);
        }
        fp_to_le_bits(self)
    }
}

/// `Fp::from(u64)`, read back with `to_repr`: the element whose canonical
/// value is `x`.
#[verifier::external_body]
fn fp_from_u64(x: u64) -> (r: FieldElement)
    ensures
        r@ == x as nat,
{
    FieldElement { repr: Fp::from(x).to_repr() }
}

/// `Fp::from_repr`: accepts exactly the encodings of numbers below the
/// modulus, and yields the element with that value.
#[verifier::external_body]
fn fp_from_repr(bytes: [u8; 32]) -> (r: Option<FieldElement>)
    ensures
        r is Some <==> le_value(bytes@) < modulus(),
        r matches Some(e) ==> e@ == le_value(bytes@),
{
    match Option::<Fp>::from(Fp::from_repr(bytes)) {
        Some(x) => Some(FieldElement { repr: x.to_repr() }),
        None => None,
    }
}

/// `Fp`'s `+`, on elements read with `from_repr` from canonical encodings: the
/// sum modulo the field's order.
#[verifier::external_body]
fn fp_add(a: &FieldElement, b: &FieldElement) -> (r: FieldElement)
    requires
        a.canonical(),
        b.canonical(),
    ensures
        r@ == add_mod(a@, b@),
{
    FieldElement { repr: (Fp::from_repr(a.repr).unwrap() + Fp::from_repr(b.repr).unwrap()).to_repr() }
}

/// `Fp`'s `-`, on elements read with `from_repr` from canonical encodings: the
/// difference modulo the field's order.
#[verifier::external_body]
fn fp_sub(a: &FieldElement, b: &FieldElement) -> (r: FieldElement)
    requires
        a.canonical(),
        b.canonical(),
    ensures
        r@ == sub_mod(a@, b@),
{
    FieldElement { repr: (Fp::from_repr(a.repr).unwrap() - Fp::from_repr(b.repr).unwrap()).to_repr() }
}

/// `Fp`'s `*`, on elements read with `from_repr` from canonical encodings: the
/// product modulo the field's order.
#[verifier::external_body]
fn fp_mul(a: &FieldElement, b: &FieldElement) -> (r: FieldElement)
    requires
        a.canonical(),
        b.canonical(),
    ensures
        r@ == mul_mod(a@, b@),
{
    FieldElement { repr: (Fp::from_repr(a.repr).unwrap() * Fp::from_repr(b.repr).unwrap()).to_repr() }
}

/// `Fp`'s unary `-`: the additive inverse modulo the field's order.
#[verifier::external_body]
fn fp_neg(a: &FieldElement) -> (r: FieldElement)
    requires
        a.canonical(),
    ensures
        r@ == neg_mod(a@),
{
    FieldElement { repr: (-Fp::from_repr(a.repr).unwrap()).to_repr() }
}

/// `Field::invert` on `Fp`: fails on zero alone, and otherwise yields the
/// element whose product with the argument is one, which `to_repr` encodes
/// canonically.
#[verifier::external_body]
fn fp_invert(a: &FieldElement) -> (r: Option<FieldElement>)
    requires
        a.canonical(),
    ensures
        r is None <==> a@ == 0,
        r matches Some(x) ==> mul_mod(a@, x@) == 1 && x.canonical(),
{
    match Option::<Fp>::from(Fp::from_repr(a.repr).unwrap().invert()) {
        Some(x) => Some(FieldElement { repr: x.to_repr() }),
        None => None,
    }
}

/// `PrimeFieldBits::to_le_bits` on `Fp`: the 256 bits of the canonical value,
/// least significant first.
#[verifier::external_body]
fn fp_to_le_bits(a: &FieldElement) -> (r: Vec<bool>)
    requires
        a.canonical(),
    ensures
        r@.len() == 256,
        forall|i: int| 0 <= i < 256 ==> r@[i] == bit_of(a@, i as nat),
{
    Fp::from_repr(a.repr).unwrap().to_le_bits().iter().by_vals().collect()
}

} // verus!
