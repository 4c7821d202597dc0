use vstd::prelude::*;

verus! {

/// Most bytes a principal can hold.
pub const MAX_IDENTITY_BYTES: usize = 29;

/// Bytes packed into `hi` at most; the rest go into `lo`.
pub const HI_BYTES: usize = 16;

/// Big-endian value of a byte string.
pub open spec fn pack(s: Seq<u8>) -> nat
    decreases s.len(),
{
    if s.len() == 0 {
        0
    } else {
        pack(s.drop_last()) * 256 + s.last() as nat
    }
}

pub open spec fn pow256(n: nat) -> nat
    decreases n,
{
    if n == 0 {
        1
    } else {
        256 * pow256((n - 1) as nat)
    }
}

pub proof fn lemma_pack_bound(s: Seq<u8>)
    ensures
        pack(s) < pow256(s.len()),
    decreases s.len(),
{
    if s.len() > 0 {
        lemma_pack_bound(s.drop_last());
        let p = pack(s.drop_last());
        let b = pow256((s.len() - 1) as nat);
        assert(p * 256 + (s.last() as nat) < 256 * b) by (nonlinear_arith)
            requires
                p < b,
                s.last() < 256,
        ;
    }
}

pub proof fn lemma_pow256_mono(a: nat, b: nat)
    requires
        a <= b,
    ensures
        pow256(a) <= pow256(b),
    decreases b,
{
    if a < b {
        lemma_pow256_mono(a, (b - 1) as nat);
    }
}

pub const TWO_64: u128 = 0x1_0000_0000_0000_0000;

/// The number that the principal's bytes spell, big-endian.
pub open spec fn identity_value(p: Identity) -> nat {
    if p.len > HI_BYTES {
        (p.hi * pow256((p.len - HI_BYTES) as nat) + p.lo) as nat
    } else {
        p.hi as nat
    }
}

/// The principal's bytes folded into 64 bits: their big-endian value modulo 2^64.
pub open spec fn identity_code(p: Identity) -> u64 {
    (identity_value(p) % (TWO_64 as nat)) as u64
}

/// Reading a concatenation big-endian: the first part shifted past the second.
pub proof fn lemma_pack_concat(a: Seq<u8>, b: Seq<u8>)
    ensures
        pack(a + b) == pack(a) * pow256(b.len()) + pack(b),
    decreases b.len(),
{
    if b.len() == 0 {
        assert(a + b =~= a);
        assert(pow256(0) == 1);
        assert(pack(b) == 0);
    } else {
        let c = b.drop_last();
        assert((a + b).drop_last() =~= a + c);
        lemma_pack_concat(a, c);
        let x = pack(a);
        let y = pow256(c.len());
        let z = pack(c);
        let w = b.last() as nat;
        assert((a + b).last() == b.last());
        assert(pack(a + b) == pack(a + c) * 256 + w);
        assert(pack(b) == z * 256 + w);
        assert(pow256(b.len()) == 256 * y);
        assert((x * y + z) * 256 + w == x * (256 * y) + (z * 256 + w)) by (nonlinear_arith);
    }
}

pub proof fn lemma_pow256_16()
    ensures
        pow256(16) == 0x1_0000_0000_0000_0000_0000_0000_0000_0000,
{
    reveal_with_fuel(pow256, 17);
}

/// For the packed bytes of a principal, the identity's value is the number
/// the bytes spell; so `identity_code` is that number modulo 2^64.
pub proof fn lemma_value_of_packed(b: Seq<u8>)
    requires
        b.len() <= MAX_IDENTITY_BYTES,
    ensures
        identity_value(packed(b)) == pack(b),
{
    let n = b.len() as int;
    let split: int = if n < HI_BYTES { n } else { HI_BYTES as int };
    let head = b.subrange(0, split);
    let tail = b.subrange(split, n);
    lemma_pack_bound(head);
    lemma_pack_bound(tail);
    lemma_pow256_16();
    lemma_pow256_mono(head.len(), 16);
    lemma_pow256_mono(tail.len(), 16);
    assert(head + tail =~= b);
    lemma_pack_concat(head, tail);
    if n <= HI_BYTES {
        assert(tail =~= Seq::<u8>::empty());
    }
}

/// The caller reference that the platform supplies with each call: the
/// bytes of a principal, packed big-endian into two words.
#[derive(Clone, Copy, Debug, PartialEq, Eq, Structural)]
pub struct Identity {
    pub len: u8,
    pub hi: u128,
    pub lo: u128,
}

/// The packed form of a byte string.
pub open spec fn packed(b: Seq<u8>) -> Identity
    recommends
        b.len() <= MAX_IDENTITY_BYTES,
{
    let split: int = if b.len() < HI_BYTES { b.len() as int } else { HI_BYTES as int };
    Identity {
        len: b.len() as u8,
        hi: pack(b.subrange(0, split)) as u128,
        lo: pack(b.subrange(split, b.len() as int)) as u128,
    }
}

/// Packs a run of at most sixteen bytes.
fn pack_run(b: &[u8], start: usize, end: usize) -> (r: u128)
    requires
        start <= end <= b@.len(),
        end - start <= HI_BYTES,
    ensures
        r == pack(b@.subrange(start as int, end as int)),
{
    let mut acc: u128 = 0;
    let mut i: usize = start;
    while i < end
        invariant
            start <= i <= end <= b@.len(),
            end - start <= HI_BYTES,
            acc == pack(b@.subrange(start as int, i as int)),
        decreases end - i,
    {
        let ghost prefix = b@.subrange(start as int, i as int);
        let ghost next = b@.subrange(start as int, i + 1);
        proof {
            assert(next.drop_last() =~= prefix);
            lemma_pack_bound(prefix);
            lemma_pow256_mono(prefix.len(), 15);
            reveal_with_fuel(pow256, 16);
            assert(pack(prefix) < 0x1_0000_0000_0000_0000_0000_0000_0000_00);
        }
        acc = acc * 256 + b[i] as u128;
        i = i + 1;
    }
    acc
}

/// Relies on candid's `Principal::anonymous` and `Principal::as_slice`: the
/// anonymous principal is the one byte 4.
#[verifier::external_body]
fn anonymous_principal_bytes() -> (r: Vec<u8>)
    ensures
        r@ == seq![4u8],
{
    candid::Principal::anonymous().as_slice().to_vec()
}

/// The sentinel for an unauthenticated caller.
pub open spec fn anonymous_identity() -> Identity {
    packed(seq![4u8])
}

/// Appends the `n` low bytes of `x`, most significant first.
fn push_run(out: &mut Vec<u8>, x: u128, n: usize)
    requires
        n <= HI_BYTES,
    ensures
        final(out)@.len() == old(out)@.len() + n,
        final(out)@.subrange(0, old(out)@.len() as int) == old(out)@,
        x < pow256(n as nat) ==> pack(final(out)@.subrange(old(out)@.len() as int, final(out)@.len() as int))
            == x,
    decreases n,
{
    if n == 0 {
        proof {
            assert(final(out)@.subrange(old(out)@.len() as int, final(out)@.len() as int) =~= Seq::<u8>::empty());
        }
        return;
    }
    let ghost start = out@;
    push_run(out, x / 256, n - 1);
    let ghost mid = out@;
    out.push((x % 256) as u8);
    proof {
        let run = out@.subrange(start.len() as int, out@.len() as int);
        let prev = mid.subrange(start.len() as int, mid.len() as int);
        assert(run.drop_last() =~= prev);
        assert(out@.subrange(0, start.len() as int) =~= mid.subrange(0, start.len() as int));
        if x < pow256(n as nat) {
            let b = pow256((n - 1) as nat);
            assert(x / 256 < b) by (nonlinear_arith)
                requires
                    x < 256 * b,
            ;
            assert(pack(run) == pack(prev) * 256 + (x % 256) as nat);
            assert(x == (x / 256) * 256 + x % 256) by (nonlinear_arith);
        }
    }
}

impl Identity {
    /// The identity packs a principal: at most 29 bytes, each word within the
    /// bytes it holds.
    pub open spec fn valid(&self) -> bool {
        let split: nat = if self.len < HI_BYTES { self.len as nat } else { HI_BYTES as nat };
        &&& self.len <= MAX_IDENTITY_BYTES
        &&& self.hi < pow256(split)
        &&& self.lo < pow256((self.len - split) as nat)
    }

    /// The principal bytes that this identity packs.
    pub fn to_bytes(&self) -> (r: Vec<u8>)
        ensures
            self.valid() ==> r@.len() == self.len && packed(r@) == *self,
    {
        let n = self.len as usize;
        let split = if n < HI_BYTES { n } else { HI_BYTES };
        let rest = if n > split { n - split } else { 0 };
        let mut out: Vec<u8> = Vec::new();
        push_run(&mut out, self.hi, split);
        let ghost first = out@;
        if rest <= HI_BYTES {
            push_run(&mut out, self.lo, rest);
        }
        proof {
            if self.valid() {
                assert(out@.subrange(0, split as int) =~= first.subrange(0, split as int));
                assert(first.subrange(0, split as int) =~= first);
                assert(first.subrange(0, first.len() as int) =~= first);
            }
        }
        out
    }

    /// The identity of the anonymous principal.
    pub fn anonymous() -> (r: Identity)
        ensures
            r == anonymous_identity(),
    {
        let b = anonymous_principal_bytes();
        Identity::from_bytes(b.as_slice())
    }

    /// Whether this is the anonymous identity.
    pub fn is_anonymous(&self) -> (r: bool)
        ensures
            r == (*self == anonymous_identity()),
    {
        *self == Identity::anonymous()
    }

    /// The identity whose principal bytes are `b`.
    pub fn from_bytes(b: &[u8]) -> (r: Identity)
        requires
            b@.len() <= MAX_IDENTITY_BYTES,
        ensures
            r == packed(b@),
            r.valid(),
    {
        let n = b.len();
        let split = if n < HI_BYTES { n } else { HI_BYTES };
        let hi = pack_run(b, 0, split);
        let lo = pack_run(b, split, n);
        proof {
            lemma_pack_bound(b@.subrange(0, split as int));
            lemma_pack_bound(b@.subrange(split as int, n as int));
        }
        Identity { len: n as u8, hi, lo }
    }

    /// The principal's bytes read as one big-endian number, modulo 2^64.
    pub fn code(&self) -> (r: u64)
        ensures
            r == identity_code(*self),
    {
        if self.len as usize > HI_BYTES {
            let m = self.len - 16;
            let mut p: u64 = 1;
            let mut k: u8 = 0;
            while k < m
                invariant
                    k <= m,
                    p == pow256(k as nat) % (TWO_64 as nat),
                decreases m - k,
            {
                proof {
                    vstd::arithmetic::div_mod::lemma_mul_mod_noop_left(pow256(k as nat) as int, 256, TWO_64 as int);
                    assert(pow256((k + 1) as nat) == 256 * pow256(k as nat));
                }
                p = p.wrapping_mul(256);
                k = k + 1;
            }
            let h = (self.hi % 0x1_0000_0000_0000_0000) as u64;
            let l = (self.lo % 0x1_0000_0000_0000_0000) as u64;
            proof {
                let v = self.hi * pow256(m as nat) + self.lo;
                vstd::arithmetic::div_mod::lemma_add_mod_noop(self.hi * pow256(m as nat), self.lo as int, TWO_64 as int);
                vstd::arithmetic::div_mod::lemma_mul_mod_noop(self.hi as int, pow256(m as nat) as int, TWO_64 as int);
                vstd::arithmetic::div_mod::lemma_mul_mod_noop(h as int, p as int, TWO_64 as int);
                vstd::arithmetic::div_mod::lemma_add_mod_noop((h * p) as int, l as int, TWO_64 as int);
                vstd::arithmetic::div_mod::lemma_mod_twice((h * p) as int, TWO_64 as int);
            }
            h.wrapping_mul(p).wrapping_add(l)
        } else {
            (self.hi % 0x1_0000_0000_0000_0000) as u64
        }
    }
}

} // verus!
