//! Fixed-width integers as bytes, byte-string order and 32-byte roots.

use vstd::prelude::*;

verus! {

/// `256` to the power `n`.
pub open spec fn pow256(n: nat) -> nat
    decreases n,
{
    if n == 0 {
        1
    } else {
        256 * pow256((n - 1) as nat)
    }
}

/// The `n` low base-256 digits of `x`, least significant first.
pub open spec fn le_bytes(x: nat, n: nat) -> Seq<u8>
    decreases n,
{
    if n == 0 {
        Seq::empty()
    } else {
        seq![(x % 256) as u8] + le_bytes(x / 256, (n - 1) as nat)
    }
}

/// The number whose base-256 digits, least significant first, are `s`.
pub open spec fn le_value(s: Seq<u8>) -> nat
    decreases s.len(),
{
    if s.len() == 0 {
        0
    } else {
        s[0] as nat + 256 * le_value(s.drop_first())
    }
}

/// The `n` low base-256 digits of `x`, most significant first.
pub open spec fn be_bytes(x: nat, n: nat) -> Seq<u8>
    decreases n,
{
    if n == 0 {
        Seq::empty()
    } else {
        be_bytes(x / 256, (n - 1) as nat).push((x % 256) as u8)
    }
}

/// The number whose base-256 digits, most significant first, are `s`.
pub open spec fn be_value(s: Seq<u8>) -> nat
    decreases s.len(),
{
    if s.len() == 0 {
        0
    } else {
        256 * be_value(s.drop_last()) + s.last() as nat
    }
}

pub proof fn lemma_le_bytes_len(x: nat, n: nat)
    ensures
        le_bytes(x, n).len() == n,
    decreases n,
{
    if n > 0 {
        lemma_le_bytes_len(x / 256, (n - 1) as nat);
    }
}

/// Reading back the little-endian digits of a number that fits gives the number.
pub proof fn lemma_le_value_of_bytes(x: nat, n: nat)
    requires
        x < pow256(n),
    ensures
        le_value(le_bytes(x, n)) == x,
    decreases n,
{
    if n > 0 {
        let rest = le_bytes(x / 256, (n - 1) as nat);
        assert(x / 256 < pow256((n - 1) as nat));
        lemma_le_value_of_bytes(x / 256, (n - 1) as nat);
        assert(le_bytes(x, n).drop_first() =~= rest);
        assert(le_bytes(x, n)[0] == (x % 256) as u8);
    }
}

/// Writing the number read from little-endian digits gives the digits back.
pub proof fn lemma_le_bytes_of_value(s: Seq<u8>)
    ensures
        le_value(s) < pow256(s.len()),
        le_bytes(le_value(s), s.len()) == s,
    decreases s.len(),
{
    if s.len() > 0 {
        lemma_le_bytes_of_value(s.drop_first());
        let v = le_value(s);
        assert(v % 256 == s[0] as nat && v / 256 == le_value(s.drop_first())) by {
            let r = le_value(s.drop_first()) as int;
            let d = s[0] as int;
            assert((d + 256 * r) % 256 == d);
            assert((d + 256 * r) / 256 == r);
        }
        assert(le_bytes(v, s.len()) =~= s);
    }
}

pub proof fn lemma_be_bytes_len(x: nat, n: nat)
    ensures
        be_bytes(x, n).len() == n,
    decreases n,
{
    if n > 0 {
        lemma_be_bytes_len(x / 256, (n - 1) as nat);
    }
}

/// Reading back the big-endian digits of a number that fits gives the number.
pub proof fn lemma_be_value_of_bytes(x: nat, n: nat)
    requires
        x < pow256(n),
    ensures
        be_value(be_bytes(x, n)) == x,
    decreases n,
{
    if n > 0 {
        assert(x / 256 < pow256((n - 1) as nat));
        lemma_be_value_of_bytes(x / 256, (n - 1) as nat);
        assert(be_bytes(x, n).drop_last() =~= be_bytes(x / 256, (n - 1) as nat));
    }
}

/// Writing the number read from big-endian digits gives the digits back.
pub proof fn lemma_be_bytes_of_value(s: Seq<u8>)
    ensures
        be_value(s) < pow256(s.len()),
        be_bytes(be_value(s), s.len()) == s,
    decreases s.len(),
{
    if s.len() > 0 {
        lemma_be_bytes_of_value(s.drop_last());
        let v = be_value(s);
        let r = be_value(s.drop_last()) as int;
        let d = s.last() as int;
        assert((256 * r + d) % 256 == d);
        assert((256 * r + d) / 256 == r);
        assert(be_bytes(v, s.len()) =~= s);
    }
}

pub proof fn lemma_pow256_values()
    ensures
        pow256(4) == 0x1_0000_0000,
        pow256(8) == 0x1_0000_0000_0000_0000,
{
    reveal_with_fuel(pow256, 9);
}

/// The low `n` little-endian bytes of `x`.
pub fn to_le(x: u64, n: usize) -> (r: Vec<u8>)
    requires
        n <= 8,
    ensures
        r@ == le_bytes(x as nat, n as nat),
{
    let mut r: Vec<u8> = Vec::with_capacity(n);
    let mut y: u64 = x;
    let mut i: usize = 0;
    while i < n
        invariant
            0 <= i <= n,
            le_bytes(x as nat, n as nat) == r@ + le_bytes(y as nat, (n - i) as nat),
        decreases n - i,
    {
        let ghost before = r@;
        let d: u8 = (y % 256) as u8;
        r.push(d);
        proof {
            assert(le_bytes(y as nat, (n - i) as nat) == seq![d] + le_bytes(
                (y / 256) as nat,
                (n - i - 1) as nat,
            ));
            assert(before + (seq![d] + le_bytes((y / 256) as nat, (n - i - 1) as nat)) =~= r@
                + le_bytes((y / 256) as nat, (n - i - 1) as nat));
        }
        y = y / 256;
        i = i + 1;
    }
    proof {
        assert(r@ + le_bytes(y as nat, 0) =~= r@);
    }
    r
}

/// The number written in `bytes`, least significant byte first.
pub fn from_le(bytes: &[u8]) -> (r: u64)
    requires
        bytes@.len() <= 8,
    ensures
        r == le_value(bytes@),
{
    let mut v: u64 = 0;
    let mut i: usize = bytes.len();
    proof {
        lemma_pow256_values();
        assert(bytes@.skip(i as int) =~= Seq::<u8>::empty());
    }
    while i > 0
        invariant
            0 <= i <= bytes@.len() <= 8,
            v == le_value(bytes@.skip(i as int)),
        decreases i,
    {
        i = i - 1;
        proof {
            let s = bytes@.skip(i as int);
            assert(s.drop_first() =~= bytes@.skip(i + 1));
            lemma_le_bytes_of_value(s);
            lemma_pow256_monotone(s.len(), 8);
            lemma_pow256_values();
        }
        v = bytes[i] as u64 + 256 * v;
    }
    proof {
        assert(bytes@.skip(0) =~= bytes@);
    }
    v
}

pub proof fn lemma_pow256_monotone(a: nat, b: nat)
    requires
        a <= b,
    ensures
        pow256(a) <= pow256(b),
    decreases b,
{
    if a < b {
        lemma_pow256_monotone(a, (b - 1) as nat);
    }
}

/// The eight big-endian bytes of `x`.
pub fn to_be(x: u64) -> (r: Vec<u8>)
    ensures
        r@ == be_bytes(x as nat, 8),
{
    let mut digits: Vec<u8> = to_le(x, 8);
    proof {
        lemma_le_bytes_len(x as nat, 8);
    }
    let mut r: Vec<u8> = Vec::with_capacity(8);
    proof {
        lemma_be_is_reversed_le(x as nat, 8);
    }
    let mut i: usize = 8;
    while i > 0
        invariant
            0 <= i <= 8,
            digits@ == le_bytes(x as nat, 8).take(i as int),
            le_bytes(x as nat, 8).len() == 8,
            r@ == le_bytes(x as nat, 8).reverse().take(8 - i),
        decreases i,
    {
        let ghost before = r@;
        i = i - 1;
        match digits.pop() {
            Some(d) => {
                r.push(d);
                proof {
                    let full = le_bytes(x as nat, 8);
                    assert(d == full[i as int]);
                    assert(full.reverse()[7 - i] == full[i as int]);
                    assert(r@ =~= full.reverse().take(8 - i));
                    assert(digits@ =~= full.take(i as int));
                }
            },
            None => {},
        }
    }
    proof {
        let full = le_bytes(x as nat, 8);
        assert(full.reverse().take(8) =~= full.reverse());
    }
    r
}

pub proof fn lemma_be_is_reversed_le(x: nat, n: nat)
    ensures
        be_bytes(x, n) == le_bytes(x, n).reverse(),
    decreases n,
{
    lemma_le_bytes_len(x, n);
    lemma_be_bytes_len(x, n);
    if n > 0 {
        let m = (n - 1) as nat;
        lemma_be_is_reversed_le(x / 256, m);
        lemma_le_bytes_len(x / 256, m);
        let full = le_bytes(x, n);
        assert forall|i: int| 0 <= i < n implies be_bytes(x, n)[i] == full.reverse()[i] by {
            if i < m {
                assert(be_bytes(x, n)[i] == le_bytes(x / 256, m).reverse()[i]);
                assert(full[n - 1 - i] == le_bytes(x / 256, m)[m - 1 - i]);
            }
        }
        assert(be_bytes(x, n) =~= full.reverse());
    } else {
        assert(be_bytes(x, n) =~= le_bytes(x, n).reverse());
    }
}

/// The number written in `bytes`, most significant byte first.
pub fn from_be(bytes: &[u8]) -> (r: u64)
    requires
        bytes@.len() <= 8,
    ensures
        r == be_value(bytes@),
{
    let mut v: u64 = 0;
    let mut i: usize = 0;
    proof {
        assert(bytes@.take(0) =~= Seq::<u8>::empty());
    }
    while i < bytes.len()
        invariant
            0 <= i <= bytes@.len() <= 8,
            v == be_value(bytes@.take(i as int)),
        decreases bytes@.len() - i,
    {
        proof {
            let s = bytes@.take(i + 1);
            assert(s.drop_last() =~= bytes@.take(i as int));
            lemma_be_bytes_of_value(s);
            lemma_pow256_monotone(s.len(), 8);
            lemma_pow256_values();
        }
        v = 256 * v + bytes[i] as u64;
        i = i + 1;
    }
    proof {
        assert(bytes@.take(i as int) =~= bytes@);
    }
    v
}

/// Strict lexicographic order on byte strings.
pub open spec fn lex_lt(a: Seq<u8>, b: Seq<u8>) -> bool
    decreases a.len(),
{
    if b.len() == 0 {
        false
    } else if a.len() == 0 {
        true
    } else if a[0] != b[0] {
        a[0] < b[0]
    } else {
        lex_lt(a.drop_first(), b.drop_first())
    }
}

pub proof fn lemma_lex_irreflexive(a: Seq<u8>)
    ensures
        !lex_lt(a, a),
    decreases a.len(),
{
    if a.len() > 0 {
        lemma_lex_irreflexive(a.drop_first());
    }
}

pub proof fn lemma_lex_transitive(a: Seq<u8>, b: Seq<u8>, c: Seq<u8>)
    requires
        lex_lt(a, b),
        lex_lt(b, c),
    ensures
        lex_lt(a, c),
    decreases a.len(),
{
    if a.len() > 0 && a[0] == b[0] && b[0] == c[0] {
        lemma_lex_transitive(a.drop_first(), b.drop_first(), c.drop_first());
    }
}

pub proof fn lemma_lex_total(a: Seq<u8>, b: Seq<u8>)
    ensures
        a == b || lex_lt(a, b) || lex_lt(b, a),
    decreases a.len(),
{
    if a.len() > 0 && b.len() > 0 && a[0] == b[0] {
        lemma_lex_total(a.drop_first(), b.drop_first());
        if a.drop_first() == b.drop_first() {
            assert(a =~= seq![a[0]] + a.drop_first());
            assert(b =~= seq![b[0]] + b.drop_first());
        }
    } else if a.len() == 0 && b.len() == 0 {
        assert(a =~= b);
    }
}

/// Appending anything to two strings of equal length keeps a strict order between them.
pub proof fn lemma_lex_append(a: Seq<u8>, b: Seq<u8>, c: Seq<u8>, d: Seq<u8>)
    requires
        a.len() == b.len(),
        lex_lt(a, b),
    ensures
        lex_lt(a + c, b + d),
    decreases a.len(),
{
    if a.len() > 0 {
        assert((a + c)[0] == a[0] && (b + d)[0] == b[0]);
        if a[0] == b[0] {
            lemma_lex_append(a.drop_first(), b.drop_first(), c, d);
            assert((a + c).drop_first() =~= a.drop_first() + c);
            assert((b + d).drop_first() =~= b.drop_first() + d);
        }
    }
}

/// Two strings with a common prefix are ordered as their remainders.
pub proof fn lemma_lex_prefix(p: Seq<u8>, c: Seq<u8>, d: Seq<u8>)
    requires
        lex_lt(c, d),
    ensures
        lex_lt(p + c, p + d),
    decreases p.len(),
{
    if p.len() > 0 {
        lemma_lex_prefix(p.drop_first(), c, d);
        assert((p + c).drop_first() =~= p.drop_first() + c);
        assert((p + d).drop_first() =~= p.drop_first() + d);
    } else {
        assert(p + c =~= c);
        assert(p + d =~= d);
    }
}

/// Big-endian digits of equal width are ordered as the numbers.
pub proof fn lemma_be_bytes_ordered(x: nat, y: nat, n: nat)
    requires
        x < y < pow256(n),
    ensures
        lex_lt(be_bytes(x, n), be_bytes(y, n)),
    decreases n,
{
    if n > 0 {
        let m = (n - 1) as nat;
        lemma_be_bytes_len(x / 256, m);
        lemma_be_bytes_len(y / 256, m);
        let px = be_bytes(x / 256, m);
        let py = be_bytes(y / 256, m);
        let dx = seq![(x % 256) as u8];
        let dy = seq![(y % 256) as u8];
        assert(be_bytes(x, n) =~= px + dx);
        assert(be_bytes(y, n) =~= py + dy);
        if x / 256 < y / 256 {
            lemma_be_bytes_ordered(x / 256, y / 256, m);
            lemma_lex_append(px, py, dx, dy);
        } else {
            assert(x / 256 == y / 256);
            assert(x % 256 < y % 256);
            assert(lex_lt(dx, dy));
            lemma_lex_prefix(px, dx, dy);
        }
    }
}

/// Outcome of comparing two byte strings.
#[derive(Clone, Copy, PartialEq, Eq, Debug, Structural)]
pub enum Order {
    Before,
    Same,
    After,
}

/// Compares two byte strings lexicographically.
pub fn compare_bytes(a: &[u8], b: &[u8]) -> (r: Order)
    ensures
        r == Order::Before <==> lex_lt(a@, b@),
        r == Order::Same <==> a@ == b@,
        r == Order::After <==> lex_lt(b@, a@),
{
    let mut i: usize = 0;
    proof {
        assert(a@.skip(0) =~= a@);
        assert(b@.skip(0) =~= b@);
        lemma_lex_irreflexive(a@);
        if lex_lt(a@, b@) && lex_lt(b@, a@) {
            lemma_lex_transitive(a@, b@, a@);
        }
        lemma_lex_total(a@, b@);
    }
    while i < a.len() && i < b.len()
        invariant
            0 <= i <= a@.len(),
            i <= b@.len(),
            a@.take(i as int) == b@.take(i as int),
            lex_lt(a@, b@) == lex_lt(a@.skip(i as int), b@.skip(i as int)),
            lex_lt(b@, a@) == lex_lt(b@.skip(i as int), a@.skip(i as int)),
            !(lex_lt(a@, b@) && lex_lt(b@, a@)),
            a@ == b@ ==> !lex_lt(a@, b@) && !lex_lt(b@, a@),
        decreases a@.len() - i,
    {
        proof {
            assert(a@.skip(i as int).drop_first() =~= a@.skip(i + 1));
            assert(b@.skip(i as int).drop_first() =~= b@.skip(i + 1));
        }
        if a[i] < b[i] {
            return Order::Before;
        }
        if b[i] < a[i] {
            return Order::After;
        }
        proof {
            assert(a@.take(i + 1) =~= a@.take(i as int).push(a@[i as int]));
            assert(b@.take(i + 1) =~= b@.take(i as int).push(b@[i as int]));
        }
        i = i + 1;
    }
    if i < b.len() {
        Order::Before
    } else if i < a.len() {
        Order::After
    } else {
        proof {
            assert(a@.take(i as int) =~= a@);
            assert(b@.take(i as int) =~= b@);
        }
        Order::Same
    }
}

/// Whether two byte strings are equal.
pub fn same_bytes(a: &[u8], b: &[u8]) -> (r: bool)
    ensures
        r == (a@ == b@),
{
    if a.len() != b.len() {
        return false;
    }
    let mut i: usize = 0;
    while i < a.len()
        invariant
            0 <= i <= a@.len() == b@.len(),
            forall|j: int| 0 <= j < i ==> a@[j] == b@[j],
        decreases a@.len() - i,
    {
        if a[i] != b[i] {
            return false;
        }
        i = i + 1;
    }
    proof {
        assert(a@ =~= b@);
    }
    true
}

/// A 32-byte hash, used as the root of blocks, states and other chain objects.
#[derive(Clone, Copy, Eq, Debug, Hash)]
pub struct H256(pub [u8; 32]);

impl View for H256 {
    type V = Seq<u8>;

    open spec fn view(&self) -> Seq<u8> {
        self.0@
    }
}

impl PartialEq for H256 {
    fn eq(&self, other: &Self) -> (r: bool) {
        let r: bool = same_bytes(self.0.as_slice(), other.0.as_slice());
        proof {
            if self.0@ == other.0@ {
                lemma_h256_from_view(*self, *other);
            }
        }
        r
    }
}

impl vstd::std_specs::cmp::PartialEqSpecImpl for H256 {
    open spec fn obeys_eq_spec() -> bool {
        true
    }

    open spec fn eq_spec(&self, other: &Self) -> bool {
        *self == *other
    }
}

impl Default for H256 {
    fn default() -> (r: H256)
        ensures
            r@ == zero_root(),
    {
        H256::zero()
    }
}

/// The bytes of the all-zero root.
pub open spec fn zero_root() -> Seq<u8> {
    Seq::new(32, |i: int| 0u8)
}

/// The root with the given bytes.
pub open spec fn h256(bytes: Seq<u8>) -> H256 {
    choose|h: H256| h@ == bytes
}

/// A root is the root with its bytes.
pub proof fn lemma_h256_of_view(h: H256)
    ensures
        h256(h@) == h,
{
    let g = h256(h@);
    lemma_h256_from_view(g, h);
}

/// Roots with the same bytes are the same root.
pub proof fn lemma_h256_from_view(a: H256, b: H256)
    requires
        a@ == b@,
    ensures
        a == b,
{
    assert(a.0 =~= b.0);
}

impl H256 {
    /// The all-zero root.
    pub fn zero() -> (r: H256)
        ensures
            r@ == zero_root(),
    {
        let r = H256([0u8; 32]);
        proof {
            assert(r@ =~= zero_root());
        }
        r
    }

    /// Whether every byte is zero.
    pub fn is_zero(&self) -> (r: bool)
        ensures
            r == (self@ == zero_root()),
    {
        let zero = H256::zero();
        same_bytes(self.as_slice(), zero.as_slice())
    }

    pub fn as_slice(&self) -> (r: &[u8])
        ensures
            r@ == self@,
    {
        self.0.as_slice()
    }

    pub fn to_vec(&self) -> (r: Vec<u8>)
        ensures
            r@ == self@,
    {
        vstd::slice::slice_to_vec(self.0.as_slice())
    }

    /// The root made of 32 bytes.
    pub fn from_slice(bytes: &[u8]) -> (r: H256)
        requires
            bytes@.len() == 32,
        ensures
            r@ == bytes@,
    {
        let mut out: [u8; 32] = [0u8; 32];
        let mut i: usize = 0;
        while i < 32
            invariant
                0 <= i <= 32,
                bytes@.len() == 32,
                forall|j: int| 0 <= j < i ==> out@[j] == bytes@[j],
            decreases 32 - i,
        {
            out[i] = bytes[i];
            i = i + 1;
        }
        proof {
            assert(out@ =~= bytes@);
        }
        H256(out)
    }
}

} // verus!
