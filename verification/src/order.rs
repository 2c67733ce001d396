//! Three-way comparison: of integers, and of text in the order that `str`'s
//! `Ord` gives (byte order of UTF-8, which is the order of code points).

use vstd::prelude::*;

verus! {

/// The outcome of a three-way comparison.
#[derive(PartialEq, Eq, Structural, Clone, Copy, Debug)]
pub enum Comparison {
    Less,
    Equal,
    Greater,
}

impl Comparison {
    /// The same comparison with its two sides swapped.
    pub open spec fn flip(self) -> Comparison {
        match self {
            Comparison::Less => Comparison::Greater,
            Comparison::Equal => Comparison::Equal,
            Comparison::Greater => Comparison::Less,
        }
    }

    /// `Comparison::flip`, as an executable function (`Ordering::reverse`).
    pub fn reverse(self) -> (r: Comparison)
        ensures
            r == self.flip(),
    {
        match self {
            Comparison::Less => Comparison::Greater,
            Comparison::Equal => Comparison::Equal,
            Comparison::Greater => Comparison::Less,
        }
    }
}

/// Three-way comparison of two integers.
pub open spec fn int_order(a: int, b: int) -> Comparison {
    if a < b {
        Comparison::Less
    } else if a > b {
        Comparison::Greater
    } else {
        Comparison::Equal
    }
}

/// Lexicographic comparison of two texts, character by character; a proper
/// prefix comes first.
pub open spec fn lex_order(a: Seq<char>, b: Seq<char>) -> Comparison
    decreases a.len(),
{
    if a.len() == 0 {
        if b.len() == 0 { Comparison::Equal } else { Comparison::Less }
    } else if b.len() == 0 {
        Comparison::Greater
    } else if (a[0] as int) < (b[0] as int) {
        Comparison::Less
    } else if (a[0] as int) > (b[0] as int) {
        Comparison::Greater
    } else {
        lex_order(a.drop_first(), b.drop_first())
    }
}

/// Swapping the two texts flips the comparison.
pub proof fn lemma_lex_order_flip(a: Seq<char>, b: Seq<char>)
    ensures
        lex_order(b, a) == lex_order(a, b).flip(),
    decreases a.len(),
{
    if a.len() > 0 && b.len() > 0 && a[0] as int == b[0] as int {
        lemma_lex_order_flip(a.drop_first(), b.drop_first());
    }
}

/// Texts compare equal exactly when they are the same text.
pub proof fn lemma_lex_order_equal(a: Seq<char>, b: Seq<char>)
    ensures
        lex_order(a, b) == Comparison::Equal <==> a == b,
    decreases a.len(),
{
    if a.len() > 0 && b.len() > 0 && a[0] as int == b[0] as int {
        lemma_lex_order_equal(a.drop_first(), b.drop_first());
        if a.drop_first() == b.drop_first() {
            assert(a =~= seq![a[0]] + a.drop_first());
            assert(b =~= seq![b[0]] + b.drop_first());
        }
    }
    if a.len() == 0 && b.len() == 0 {
        assert(a =~= b);
    }
    if a == b && a.len() > 0 {
        assert(a.drop_first() == b.drop_first());
    }
}

/// The order on texts is transitive, and strictly so when either step is strict.
pub proof fn lemma_lex_order_trans(a: Seq<char>, b: Seq<char>, c: Seq<char>)
    requires
        lex_order(a, b) != Comparison::Greater,
        lex_order(b, c) != Comparison::Greater,
    ensures
        lex_order(a, c) != Comparison::Greater,
        (lex_order(a, b) == Comparison::Less || lex_order(b, c) == Comparison::Less) ==> lex_order(a, c) == Comparison::Less,
    decreases a.len(),
{
    if a.len() > 0 && b.len() > 0 && c.len() > 0 && a[0] as int == b[0] as int && b[0] as int
        == c[0] as int {
        lemma_lex_order_trans(a.drop_first(), b.drop_first(), c.drop_first());
    }
}

/// The integer order is the usual order on integers.
pub proof fn lemma_int_order_is_integer_order(a: int, b: int)
    ensures
        int_order(a, b) == Comparison::Less <==> a < b,
        int_order(a, b) == Comparison::Equal <==> a == b,
        int_order(a, b) == Comparison::Greater <==> a > b,
{
}

/// Two texts that agree up to a first differing character are ordered by the
/// code points of those two characters, whatever follows them.
pub proof fn lemma_lex_order_first_difference(
    s: Seq<char>,
    c: char,
    d: char,
    x: Seq<char>,
    y: Seq<char>,
)
    requires
        c != d,
    ensures
        lex_order(s.push(c) + x, s.push(d) + y) == (if (c as int) < (d as int) {
            Comparison::Less
        } else {
            Comparison::Greater
        }),
    decreases s.len(),
{
    let a = s.push(c) + x;
    let b = s.push(d) + y;
    if s.len() == 0 {
        assert(a[0] == c);
        assert(b[0] == d);
        assert((c as int) != (d as int)) by {
            if (c as int) == (d as int) {
                assert(c == d);
            }
        }
    } else {
        assert(a[0] == s[0]);
        assert(b[0] == s[0]);
        assert(a.drop_first() =~= s.drop_first().push(c) + x);
        assert(b.drop_first() =~= s.drop_first().push(d) + y);
        lemma_lex_order_first_difference(s.drop_first(), c, d, x, y);
    }
}

/// A proper prefix of a text comes before it, and the text comes after it.
pub proof fn lemma_lex_order_proper_prefix(s: Seq<char>, x: Seq<char>)
    requires
        x.len() > 0,
    ensures
        lex_order(s, s + x) == Comparison::Less,
        lex_order(s + x, s) == Comparison::Greater,
    decreases s.len(),
{
    if s.len() > 0 {
        assert((s + x)[0] == s[0]);
        assert((s + x).drop_first() =~= s.drop_first() + x);
        lemma_lex_order_proper_prefix(s.drop_first(), x);
    }
}

/// Compares two texts lexicographically by character, which is the order that
/// `str`'s `Ord` implements.
pub fn compare_text(a: &str, b: &str) -> (r: Comparison)
    ensures
        r == lex_order(a@, b@),
        r == Comparison::Equal <==> a@ == b@,
{
    proof {
        lemma_lex_order_equal(a@, b@);
    }
    let la = a.unicode_len();
    let lb = b.unicode_len();
    let mut i: usize = 0;
    assert(a@.skip(0) =~= a@);
    assert(b@.skip(0) =~= b@);
    while i < la && i < lb
        invariant
            la == a@.len(),
            lb == b@.len(),
            i <= la,
            i <= lb,
            lex_order(a@, b@) == lex_order(a@.skip(i as int), b@.skip(i as int)),
        decreases la - i,
    {
        let ca = a.get_char(i);
        let cb = b.get_char(i);
        if (ca as u32) < (cb as u32) {
            return Comparison::Less;
        }
        if (ca as u32) > (cb as u32) {
            return Comparison::Greater;
        }
        assert(a@.skip(i as int).drop_first() =~= a@.skip(i + 1));
        assert(b@.skip(i as int).drop_first() =~= b@.skip(i + 1));
        i = i + 1;
    }
    if i < la {
        Comparison::Greater
    } else if i < lb {
        Comparison::Less
    } else {
        Comparison::Equal
    }
}

/// Three-way comparison of two `i32` values.
pub fn compare_i32(a: i32, b: i32) -> (r: Comparison)
    ensures
        r == int_order(a as int, b as int),
        r == Comparison::Less <==> a < b,
        r == Comparison::Equal <==> a == b,
        r == Comparison::Greater <==> a > b,
{
    if a < b {
        Comparison::Less
    } else if a > b {
        Comparison::Greater
    } else {
        Comparison::Equal
    }
}

} // verus!
