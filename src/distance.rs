//! The XOR metric over 256-bit identifiers.
use vstd::prelude::*;

verus! {

/// A 256-bit node or content identifier, big-endian.
pub type Id256 = [u8; 32];

/// The byte-wise XOR of two identifiers.
pub open spec fn xor_seq(a: Seq<u8>, b: Seq<u8>) -> Seq<u8> {
    Seq::new(a.len(), |i: int| a[i] ^ b[i])
}

/// The identifier whose bytes are all zero.
pub open spec fn zero_seq(n: nat) -> Seq<u8> {
    Seq::new(n, |i: int| 0u8)
}

/// The identifier whose bytes are all 0xff: the largest distance.
pub open spec fn max_seq(n: nat) -> Seq<u8> {
    Seq::new(n, |i: int| 0xffu8)
}

/// `a` is below `b` when both are read as big-endian unsigned numbers.
pub open spec fn lex_lt(a: Seq<u8>, b: Seq<u8>) -> bool
    decreases a.len(),
{
    if a.len() == 0 || b.len() == 0 {
        false
    } else if a[0] != b[0] {
        a[0] < b[0]
    } else {
        lex_lt(a.drop_first(), b.drop_first())
    }
}

/// `a` is at most `b` as big-endian numbers of equal width.
pub open spec fn lex_le(a: Seq<u8>, b: Seq<u8>) -> bool {
    !lex_lt(b, a)
}

/// Distance of `x` from `origin` is below that of `y`.
pub open spec fn nearer(origin: Seq<u8>, x: Seq<u8>, y: Seq<u8>) -> bool {
    lex_lt(xor_seq(origin, x), xor_seq(origin, y))
}

/// Number of significant bits of a byte.
pub open spec fn bit_len(b: u8) -> nat {
    if b >= 128 {
        8
    } else if b >= 64 {
        7
    } else if b >= 32 {
        6
    } else if b >= 16 {
        5
    } else if b >= 8 {
        4
    } else if b >= 4 {
        3
    } else if b >= 2 {
        2
    } else if b >= 1 {
        1
    } else {
        0
    }
}

/// Number of significant bits of a big-endian number: the logarithmic
/// distance when applied to a XOR distance (0 for equal identifiers).
pub open spec fn log2_seq(d: Seq<u8>) -> nat
    decreases d.len(),
{
    if d.len() == 0 {
        0
    } else if d[0] != 0 {
        8 * (d.len() - 1) as nat + bit_len(d[0])
    } else {
        log2_seq(d.drop_first())
    }
}

/// No number is below itself.
pub proof fn lemma_lex_irreflexive(a: Seq<u8>)
    ensures
        !lex_lt(a, a),
    decreases a.len(),
{
    if a.len() > 0 {
        lemma_lex_irreflexive(a.drop_first());
    }
}

/// The order of big-endian numbers is transitive.
pub proof fn lemma_lex_transitive(a: Seq<u8>, b: Seq<u8>, c: Seq<u8>)
    requires
        a.len() == b.len(),
        b.len() == c.len(),
        lex_lt(a, b),
        lex_lt(b, c),
    ensures
        lex_lt(a, c),
    decreases a.len(),
{
    if a[0] == b[0] && b[0] == c[0] {
        lemma_lex_transitive(a.drop_first(), b.drop_first(), c.drop_first());
    }
}

/// Of two numbers of equal width, one is below the other or they are equal.
pub proof fn lemma_lex_total(a: Seq<u8>, b: Seq<u8>)
    requires
        a.len() == b.len(),
    ensures
        lex_lt(a, b) || lex_lt(b, a) || a == b,
    decreases a.len(),
{
    if a.len() == 0 {
        assert(a =~= b);
    } else if a[0] == b[0] {
        lemma_lex_total(a.drop_first(), b.drop_first());
        if a.drop_first() == b.drop_first() {
            assert(a =~= seq![a[0]] + a.drop_first());
            assert(b =~= seq![b[0]] + b.drop_first());
        }
    }
}

/// `lex_le` is transitive on numbers of equal width.
pub proof fn lemma_lex_le_transitive(a: Seq<u8>, b: Seq<u8>, c: Seq<u8>)
    requires
        a.len() == b.len(),
        b.len() == c.len(),
        lex_le(a, b),
        lex_le(b, c),
    ensures
        lex_le(a, c),
{
    if lex_lt(c, a) {
        lemma_lex_total(a, b);
        lemma_lex_total(b, c);
        if a == b {
            assert(lex_lt(c, b));
        } else if b == c {
            assert(lex_lt(b, a));
        } else {
            lemma_lex_transitive(a, b, c);
            lemma_lex_transitive(a, c, a);
            lemma_lex_irreflexive(a);
        }
    }
}

/// The XOR metric is symmetric, and every identifier is at distance zero from
/// itself.
pub proof fn lemma_distance_symmetric(a: Seq<u8>, b: Seq<u8>)
    requires
        a.len() == b.len(),
    ensures
        xor_seq(a, b) == xor_seq(b, a),
        xor_seq(a, a) == zero_seq(a.len()),
{
    assert forall|i: int| 0 <= i < a.len() implies #[trigger] xor_seq(a, b)[i] == xor_seq(b, a)[i] by {
        let x: u8 = a[i];
        let y: u8 = b[i];
        assert(x ^ y == y ^ x) by (bit_vector);
    }
    assert forall|i: int| 0 <= i < a.len() implies #[trigger] xor_seq(a, a)[i] == 0u8 by {
        let x: u8 = a[i];
        assert(x ^ x == 0) by (bit_vector);
    }
    assert(xor_seq(a, b) =~= xor_seq(b, a));
    assert(xor_seq(a, a) =~= zero_seq(a.len()));
}

/// Distance zero means the identifiers are equal.
pub proof fn lemma_distance_zero_iff_equal(a: Seq<u8>, b: Seq<u8>)
    requires
        a.len() == b.len(),
    ensures
        (xor_seq(a, b) == zero_seq(a.len())) <==> (a == b),
{
    lemma_distance_symmetric(a, b);
    if xor_seq(a, b) == zero_seq(a.len()) {
        assert forall|i: int| 0 <= i < a.len() implies a[i] == b[i] by {
            let x: u8 = a[i];
            let y: u8 = b[i];
            assert(zero_seq(a.len())[i] == 0u8);
            assert(x ^ y == 0u8);
            assert(x == y) by (bit_vector)
                requires
                    x ^ y == 0u8,
            ;
        }
        assert(a =~= b);
    }
}

/// Two identifiers at the same distance from one origin are equal: the metric
/// has no ties between distinct identifiers.
pub proof fn lemma_distance_injective(o: Seq<u8>, a: Seq<u8>, b: Seq<u8>)
    requires
        o.len() == a.len(),
        a.len() == b.len(),
        xor_seq(o, a) == xor_seq(o, b),
    ensures
        a == b,
{
    assert forall|i: int| 0 <= i < a.len() implies a[i] == b[i] by {
        let x: u8 = o[i];
        let y: u8 = a[i];
        let z: u8 = b[i];
        assert(xor_seq(o, a)[i] == xor_seq(o, b)[i]);
        assert(xor_seq(o, a)[i] == x ^ y);
        assert(xor_seq(o, b)[i] == x ^ z);
        assert(y == z) by (bit_vector)
            requires
                x ^ y == x ^ z,
        ;
    }
    assert(a =~= b);
}

/// The largest distance: the advertised radius of a node that stores anything.
pub fn max_distance() -> (d: Id256)
    ensures
        d@ == max_seq(32),
{
    let d: Id256 = [0xffu8; 32];
    assert(d@ =~= max_seq(32));
    d
}

/// The XOR distance between two identifiers.
pub fn distance(a: &Id256, b: &Id256) -> (d: Id256)
    ensures
        d@ == xor_seq(a@, b@),
{
    let mut d: Id256 = [0u8; 32];
    let mut i: usize = 0;
    while i < 32
        invariant
            i <= 32,
            d@.len() == 32,
            forall|j: int| 0 <= j < i ==> d@[j] == a@[j] ^ b@[j],
        decreases 32 - i,
    {
        d[i] = a[i] ^ b[i];
        i += 1;
    }
    assert(d@ =~= xor_seq(a@, b@));
    d
}

/// Whether `a` is below `b` as 256-bit numbers.
pub fn id_lt(a: &Id256, b: &Id256) -> (r: bool)
    ensures
        r == lex_lt(a@, b@),
{
    let mut i: usize = 0;
    assert(a@.subrange(0, 32) =~= a@);
    assert(b@.subrange(0, 32) =~= b@);
    while i < 32
        invariant
            i <= 32,
            a@.len() == 32,
            b@.len() == 32,
            lex_lt(a@, b@) == lex_lt(a@.subrange(i as int, 32), b@.subrange(i as int, 32)),
        decreases 32 - i,
    {
        if a[i] != b[i] {
            assert(a@.subrange(i as int, 32)[0] == a@[i as int]);
            assert(b@.subrange(i as int, 32)[0] == b@[i as int]);
            return a[i] < b[i];
        }
        assert(a@.subrange(i as int, 32).drop_first() =~= a@.subrange(i + 1, 32));
        assert(b@.subrange(i as int, 32).drop_first() =~= b@.subrange(i + 1, 32));
        i += 1;
    }
    false
}

/// Whether two identifiers are equal.
pub fn id_eq(a: &Id256, b: &Id256) -> (r: bool)
    ensures
        r == (a@ == b@),
{
    let mut i: usize = 0;
    while i < 32
        invariant
            i <= 32,
            a@.len() == 32,
            b@.len() == 32,
            forall|j: int| 0 <= j < i ==> a@[j] == b@[j],
        decreases 32 - i,
    {
        if a[i] != b[i] {
            return false;
        }
        i += 1;
    }
    assert(a@ =~= b@);
    true
}

/// Whether `x` is strictly nearer to `origin` than `y` is.
pub fn is_nearer(origin: &Id256, x: &Id256, y: &Id256) -> (r: bool)
    ensures
        r == nearer(origin@, x@, y@),
{
    let dx = distance(origin, x);
    let dy = distance(origin, y);
    id_lt(&dx, &dy)
}

/// Number of significant bits of a byte.
fn byte_bit_len(b: u8) -> (r: u16)
    ensures
        r as nat == bit_len(b),
{
    if b >= 128 {
        8
    } else if b >= 64 {
        7
    } else if b >= 32 {
        6
    } else if b >= 16 {
        5
    } else if b >= 8 {
        4
    } else if b >= 4 {
        3
    } else if b >= 2 {
        2
    } else if b >= 1 {
        1
    } else {
        0
    }
}

/// The logarithmic distance between two identifiers: the number of
/// significant bits of their XOR distance, from 0 (equal) to 256.
pub fn log2_distance(a: &Id256, b: &Id256) -> (r: u16)
    ensures
        r as nat == log2_seq(xor_seq(a@, b@)),
        r <= 256,
{
    let d = distance(a, b);
    let mut i: usize = 0;
    assert(d@.subrange(0, 32) =~= d@);
    while i < 32
        invariant
            i <= 32,
            d@.len() == 32,
            d@ == xor_seq(a@, b@),
            log2_seq(d@) == log2_seq(d@.subrange(i as int, 32)),
        decreases 32 - i,
    {
        if d[i] != 0 {
            assert(d@.subrange(i as int, 32)[0] == d@[i as int]);
            let rest: u16 = (31 - i) as u16;
            return 8 * rest + byte_bit_len(d[i]);
        }
        assert(d@.subrange(i as int, 32).drop_first() =~= d@.subrange(i + 1, 32));
        i += 1;
    }
    0
}

} // verus!
